use filtro::{
    ColorStats, ConstructionPolicy, Constructor, Dimensions, FilterChain, ImageAnalysis,
    ImageMetadata, Origin, PixelBuffer, Rgba8, SourceFormat,
};

fn metadata(dimensions: Dimensions) -> ImageMetadata {
    ImageMetadata {
        origin: Origin::Memory { label: "test".to_string() },
        source_format: SourceFormat::Png,
        dimensions,
        resolution: None,
        byte_size: 0,
        stats: ColorStats {
            has_transparency: false,
            is_grayscale: false,
            luminance_sum: 0,
            luminance_range: (0, 255),
        },
    }
}

fn analyse(width: u32, height: u32) -> ImageAnalysis {
    let dims = Dimensions::new(width, height).unwrap();
    let mut buffer = PixelBuffer::new(dims).unwrap();
    buffer.map_pixels(|_, _, _| Rgba8::BLACK());
    ImageAnalysis { metadata: metadata(buffer.dimensions()), buffer }
}

#[test]
fn conserve_les_dimensions_sans_contrainte() {
    let prepared = Constructor::new().prepare(analyse(120, 80), &FilterChain::empty()).unwrap();
    assert_eq!(prepared.dimensions().width, 120);
    assert!(prepared.resized_from.is_none());
}

#[test]
fn applique_la_borne_de_la_politique() {
    let constructor = Constructor::with_policy(ConstructionPolicy {
        max_dimension: Some(60),
        ..ConstructionPolicy::default()
    });

    let prepared = constructor.prepare(analyse(120, 80), &FilterChain::empty()).unwrap();

    assert_eq!(prepared.dimensions().width, 60);
    assert_eq!(prepared.dimensions().height, 40);
    assert_eq!(prepared.resized_from, Some(Dimensions::new(120, 80).unwrap()));
    // The original dimensions stay readable in the description.
    assert_eq!(prepared.metadata.dimensions.width, 120);
}

// --- Further cases -----------------------------------------------------------

#[test]
fn la_politique_par_defaut() {
    let c = Constructor::new();
    assert_eq!(c.policy(), ConstructionPolicy { max_dimension: None, background: Rgba8::WHITE() });
    let prepared = c.prepare(analyse(3, 2), &FilterChain::empty()).unwrap();
    assert_eq!(prepared.background, Rgba8::WHITE());
    assert_eq!(prepared.requirements, filtro::FilterRequirements::default());
    assert_eq!(prepared.canvas.pixel(2, 1), Some(Rgba8::BLACK()));
}

#[test]
fn une_borne_plus_grande_ne_reduit_pas() {
    let constructor = Constructor::with_policy(ConstructionPolicy {
        max_dimension: Some(500),
        background: Rgba8::BLACK(),
    });
    let prepared = constructor.prepare(analyse(120, 80), &FilterChain::empty()).unwrap();
    assert_eq!(prepared.dimensions(), Dimensions::new(120, 80).unwrap());
    assert_eq!(prepared.background, Rgba8::BLACK());
    assert!(prepared.resized_from.is_none());
}
