use filtro::model::codec::decode;
use filtro::{
    ColorStats, Dimensions, Filter, FilterChain, FilterContext, FilterRequirements, FiltroError,
    Formatter, ImageMetadata, Origin, OutputFormat, PixelBuffer, PreparedImage, Renderer, Rgba8,
    SourceFormat,
};

fn metadata(dimensions: Dimensions) -> ImageMetadata {
    ImageMetadata {
        origin: Origin::Memory { label: "test".to_string() },
        source_format: SourceFormat::Png,
        dimensions,
        resolution: None,
        byte_size: 0,
        stats: ColorStats {
            has_transparency: false,
            is_grayscale: false,
            luminance_sum: 0,
            luminance_range: (0, 255),
        },
    }
}

fn prepared(width: u32, height: u32, pixel: Rgba8) -> PreparedImage {
    let dims = Dimensions::new(width, height).unwrap();
    let mut canvas = PixelBuffer::new(dims).unwrap();
    canvas.map_pixels(|_, _, _| pixel);
    PreparedImage {
        metadata: metadata(canvas.dimensions()),
        canvas,
        requirements: FilterRequirements::default(),
        background: Rgba8::WHITE(),
        resized_from: None,
    }
}

/// A stand-in filter, defined here to check that the trait suffices.
struct Inverseur;

impl Filter for Inverseur {
    fn id(&self) -> &str {
        "inverseur-de-test"
    }

    fn requirements(&self) -> FilterRequirements {
        FilterRequirements::default()
    }

    fn apply(&self, canvas: &mut PixelBuffer, _ctx: &FilterContext) -> Result<(), FiltroError> {
        canvas.map_pixels(|_, _, p| Rgba8::new(255 - p.r, 255 - p.g, 255 - p.b, p.a));
        Ok(())
    }
}

#[test]
fn rend_toutes_les_variantes() {
    let image = prepared(8, 8, Rgba8::BLACK());
    let set = Formatter::new()
        .with_formats(vec![OutputFormat::Png, OutputFormat::Jpeg])
        .unwrap()
        .format(&image)
        .unwrap();

    let output = Renderer::new()
        .with_stem("photo")
        .render(set, &FilterChain::empty(), &image.metadata)
        .unwrap();

    assert_eq!(output.len(), 2);
    assert!(output.applied_filters.is_empty());
    assert_eq!(output.artifacts[0].file_name, "photo.png");
    assert!(output.artifacts.iter().all(|a| a.byte_size() > 0));
}

#[test]
fn applique_la_chaine_a_chaque_variante() {
    let image = prepared(8, 8, Rgba8::BLACK());
    let set = Formatter::new().format(&image).unwrap();
    let chain = FilterChain::new(vec![Box::new(Inverseur)]);

    let output = Renderer::new().render(set, &chain, &image.metadata).unwrap();

    assert_eq!(output.applied_filters, vec!["inverseur-de-test"]);

    // The black image became white: read the PNG produced back.
    let (buffer, _) = decode(&output.artifacts[0].bytes, "test").unwrap();
    assert_eq!(buffer.pixel(0, 0), Some(Rgba8::WHITE()));
}

// --- Further cases -----------------------------------------------------------

/// A filter that makes every pixel transparent.
struct Effaceur;

impl Filter for Effaceur {
    fn id(&self) -> &str {
        "effaceur"
    }

    fn requirements(&self) -> FilterRequirements {
        FilterRequirements { needs_alpha: true, max_dimension: None }
    }

    fn apply(&self, canvas: &mut PixelBuffer, _ctx: &FilterContext) -> Result<(), FiltroError> {
        canvas.map_pixels(|_, _, p| Rgba8::new(p.r, p.g, p.b, 0));
        Ok(())
    }
}

#[test]
fn la_transparence_reintroduite_est_aplatie_pour_le_jpeg() {
    let image = prepared(2, 2, Rgba8::BLACK());
    let set = Formatter::new()
        .with_formats(vec![OutputFormat::Png, OutputFormat::Bmp])
        .unwrap()
        .format(&image)
        .unwrap();
    let chain = FilterChain::new(vec![Box::new(Effaceur)]);
    let output = Renderer::new().render(set, &chain, &image.metadata).unwrap();
    let (png, _) = decode(&output.artifacts[0].bytes, "png").unwrap();
    assert_eq!(png.pixel(0, 0), Some(Rgba8::new(0, 0, 0, 0)));
    let (bmp, _) = decode(&output.artifacts[1].bytes, "bmp").unwrap();
    assert_eq!(bmp.pixel(0, 0), Some(Rgba8::WHITE()));
    assert_eq!(output.artifacts[1].file_name, "test.bmp");
}

/// A filter that always refuses.
struct Refus;

impl Filter for Refus {
    fn id(&self) -> &str {
        "refus"
    }

    fn requirements(&self) -> FilterRequirements {
        FilterRequirements::default()
    }

    fn apply(&self, _canvas: &mut PixelBuffer, _ctx: &FilterContext) -> Result<(), FiltroError> {
        Err(FiltroError::filter_failed("refus", "non"))
    }
}

#[test]
fn l_echec_d_un_filtre_arrete_le_rendu() {
    let image = prepared(2, 2, Rgba8::BLACK());
    let set = Formatter::new().format(&image).unwrap();
    let chain = FilterChain::new(vec![Box::new(Inverseur), Box::new(Refus)]);
    match Renderer::new().render(set, &chain, &image.metadata) {
        Err(FiltroError::FilterFailed { filter, reason }) => {
            assert_eq!(filter, "refus");
            assert_eq!(reason, "non");
        }
        Err(other) => panic!("erreur inattendue {other:?}"),
        Ok(_) => panic!("erreur attendue"),
    }
    assert_eq!(chain.ids(), vec!["inverseur-de-test", "refus"]);
    assert!(chain.requirements() == FilterRequirements::default());
}

#[test]
fn sans_filtre_le_rendu_est_une_conversion() {
    let pixel = Rgba8::new(12, 200, 77, 255);
    let image = prepared(3, 2, pixel);
    let set = Formatter::new()
        .with_formats(vec![OutputFormat::Png])
        .unwrap()
        .format(&image)
        .unwrap();
    let output = Renderer::new()
        .with_stem("conv")
        .render(set, &FilterChain::empty(), &image.metadata)
        .unwrap();
    assert_eq!(output.len(), 1);
    let artifact = &output.artifacts[0];
    assert_eq!(artifact.target.dimensions, image.canvas.dimensions());
    let (decoded, name) = decode(&artifact.bytes, "conv").unwrap();
    assert_eq!(name.as_deref(), Some("Png"));
    assert_eq!(decoded.as_bytes(), image.canvas.as_bytes());
}
