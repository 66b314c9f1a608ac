use filtro::filters::threshold::{BlackAndWhiteFactory, ThresholdMode};
use filtro::{
    ColorStats, Dimensions, Filter, FilterContext, FilterRegistry, FilterRequest, FormatOptions,
    ImageMetadata, Origin, OutputFormat, OutputTarget, PixelBuffer, Rgba8, SizeVariant,
    SourceFormat,
};

fn metadata(dimensions: Dimensions) -> ImageMetadata {
    ImageMetadata {
        origin: Origin::Memory { label: "test".to_string() },
        source_format: SourceFormat::Png,
        dimensions,
        resolution: None,
        byte_size: 0,
        stats: ColorStats {
            has_transparency: false,
            is_grayscale: false,
            luminance_sum: 0,
            luminance_range: (0, 255),
        },
    }
}

fn apply_to_pixel(filter: &dyn Filter, pixel: Rgba8) -> Rgba8 {
    let dimensions = Dimensions::new(1, 1).unwrap();
    let mut buffer = PixelBuffer::new(dimensions).unwrap();
    buffer.map_pixels(|_, _, _| pixel);
    let metadata = metadata(dimensions);
    let target = OutputTarget {
        format: OutputFormat::Png,
        size: SizeVariant::Original,
        dimensions,
        options: FormatOptions::default(),
    };
    let ctx = FilterContext { metadata: &metadata, target: &target, position: 0 };
    filter.apply(&mut buffer, &ctx).expect("filtre appliqué");
    buffer.pixel(0, 0).expect("pixel présent")
}

fn filtre(expression: &str) -> Box<dyn Filter> {
    let mut registry = FilterRegistry::new();
    registry.register(BlackAndWhiteFactory).unwrap();
    registry.build(&FilterRequest::parse(expression).unwrap()).unwrap()
}

#[test]
fn seuillage_par_canaux() {
    let f = filtre("noir-blanc");
    assert_eq!(apply_to_pixel(&*f, Rgba8::new(200, 200, 200, 255)), Rgba8::WHITE());
    assert_eq!(apply_to_pixel(&*f, Rgba8::new(200, 100, 200, 255)), Rgba8::BLACK());
}

#[test]
fn seuillage_par_luminance() {
    // Bright green: luminance about 191, above the threshold of 180...
    let vert = Rgba8::new(100, 255, 100, 255);
    assert_eq!(apply_to_pixel(&*filtre("noir-blanc:mode=luminance"), vert), Rgba8::WHITE());
    // ...while in channel mode the red at 100 makes it black.
    assert_eq!(apply_to_pixel(&*filtre("noir-blanc"), vert), Rgba8::BLACK());
}

#[test]
fn couleurs_personnalisees() {
    let f = filtre("noir-blanc:clair=ffcc00,sombre=001133");
    assert_eq!(apply_to_pixel(&*f, Rgba8::WHITE()), Rgba8::new(255, 204, 0, 255));
    assert_eq!(apply_to_pixel(&*f, Rgba8::BLACK()), Rgba8::new(0, 17, 51, 255));
}

#[test]
fn mode_inconnu_rejete() {
    let mut registry = FilterRegistry::new();
    registry.register(BlackAndWhiteFactory).unwrap();
    let request = FilterRequest::parse("noir-blanc:mode=sepia").unwrap();
    assert!(registry.build(&request).is_err());
}

// --- Further cases -----------------------------------------------------------

#[test]
fn le_mode_accepte_channels_et_la_casse() {
    let f = filtre("noir-blanc:mode= Channels ");
    assert_eq!(apply_to_pixel(&*f, Rgba8::new(200, 200, 200, 9)), Rgba8::new(255, 255, 255, 9));
    let g = filtre("noir-blanc:mode=LUMINANCE,niveau=10");
    assert_eq!(apply_to_pixel(&*g, Rgba8::new(20, 20, 20, 255)), Rgba8::WHITE());
}

#[test]
fn erreurs_dans_l_ordre_mode_niveau_clair_sombre() {
    let f = BlackAndWhiteFactory;
    let all_bad = FilterRequest::parse("noir-blanc:mode=sepia,niveau=x,clair=q,sombre=q").unwrap();
    match f.configure(&all_bad.params) {
        Err(filtro::FiltroError::InvalidParameter { filter, name, reason }) => {
            assert_eq!(filter, "noir-blanc");
            assert_eq!(name, "mode");
            assert_eq!(reason, "« sepia » inconnu (attendu : canaux ou luminance)");
        }
        other => panic!("erreur attendue, obtenu {other:?}"),
    }
    let level = FilterRequest::parse("noir-blanc:niveau=x,clair=q").unwrap();
    match f.configure(&level.params) {
        Err(filtro::FiltroError::InvalidParameter { name, .. }) => assert_eq!(name, "niveau"),
        other => panic!("erreur attendue, obtenu {other:?}"),
    }
    let light = FilterRequest::parse("noir-blanc:clair=q,sombre=q").unwrap();
    match f.configure(&light.params) {
        Err(filtro::FiltroError::InvalidParameter { name, .. }) => assert_eq!(name, "clair"),
        other => panic!("erreur attendue, obtenu {other:?}"),
    }
    let dark = FilterRequest::parse("noir-blanc:sombre=q").unwrap();
    match f.configure(&dark.params) {
        Err(filtro::FiltroError::InvalidParameter { name, .. }) => assert_eq!(name, "sombre"),
        other => panic!("erreur attendue, obtenu {other:?}"),
    }
}

#[test]
fn le_mode_est_un_type_public() {
    assert_ne!(ThresholdMode::Channels, ThresholdMode::Luminance);
}
