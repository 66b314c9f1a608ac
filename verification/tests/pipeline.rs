//! End-to-end integration test.
//!
//! It uses **only the public API** `filtro::…` — including to define a
//! `luminosite` filter outside the core: the exposed contract suffices to
//! write a filter without touching the pipeline.

use std::io::Cursor;

use filtro::{
    Analyzer, Filter, FilterChain, FilterContext, FilterRequirements, FiltroError, Origin,
    OutputFormat, Pipeline, PixelBuffer, Rgba8, SizeVariant,
};

// --- A filter defined entirely outside the crate ---------------------------

struct Luminosite {
    delta: i16,
}

impl Filter for Luminosite {
    fn id(&self) -> &str {
        "luminosite"
    }

    fn requirements(&self) -> FilterRequirements {
        FilterRequirements::default()
    }

    fn apply(&self, canvas: &mut PixelBuffer, _ctx: &FilterContext) -> Result<(), FiltroError> {
        canvas.map_pixels(|_, _, pixel| {
            let adjust = |channel: u8| (i16::from(channel) + self.delta).clamp(0, 255) as u8;
            Rgba8::new(adjust(pixel.r), adjust(pixel.g), adjust(pixel.b), pixel.a)
        });
        Ok(())
    }
}

// --- A source image in memory ----------------------------------------------

/// Encodes a uniform PNG of `width`×`height` in the given colour.
fn source_png(width: u32, height: u32, color: [u8; 4]) -> Vec<u8> {
    let image = image::RgbaImage::from_pixel(width, height, image::Rgba(color));
    let mut bytes = Vec::new();
    image::DynamicImage::ImageRgba8(image)
        .write_to(&mut Cursor::new(&mut bytes), image::ImageFormat::Png)
        .expect("encodage du PNG de test");
    bytes
}

fn analyze(bytes: &[u8]) -> filtro::ImageAnalysis {
    Analyzer::new()
        .analyze_bytes(bytes, Origin::Memory { label: "relecture".to_string() })
        .expect("relecture d'une variante produite")
}

// --- The tests ----------------------------------------------------------------

#[test]
fn bout_en_bout_avec_un_filtre_externe() {
    let png = source_png(64, 48, [100, 100, 100, 255]);

    let pipeline = Pipeline::builder()
        .formats(vec![OutputFormat::Png, OutputFormat::Jpeg])
        .sizes(vec![SizeVariant::Original, SizeVariant::parse("vignette:32").unwrap()])
        .quality(90)
        .build()
        .expect("pipeline valide");

    let chain = FilterChain::new(vec![Box::new(Luminosite { delta: 40 })]);
    let output = pipeline
        .run_bytes(&png, Origin::Memory { label: "source".to_string() }, &chain)
        .expect("traitement");

    // 2 formats × 2 sizes.
    assert_eq!(output.artifacts.len(), 4);
    assert_eq!(output.applied_filters, vec!["luminosite"]);

    for artifact in &output.artifacts {
        assert!(!artifact.bytes.is_empty(), "variante vide");
        assert!(
            artifact.file_name.starts_with("relecture") || artifact.file_name.starts_with("source"),
            "nom inattendu : {}",
            artifact.file_name
        );
    }

    // The PNG thumbnail: longest side brought to 32, the filter's effect visible.
    let vignette = output
        .artifacts
        .iter()
        .find(|a| a.target.format == OutputFormat::Png && a.target.size.label() == "vignette")
        .expect("vignette png présente");
    assert_eq!(vignette.target.dimensions.longest_side(), 32);

    // The full-size PNG: 100 + 40 = 140 on each channel.
    let plein = output
        .artifacts
        .iter()
        .find(|a| a.target.format == OutputFormat::Png && a.target.size.label() == "original")
        .expect("png original présent");
    let relu = analyze(&plein.bytes);
    assert_eq!(relu.buffer.pixel(0, 0), Some(Rgba8::new(140, 140, 140, 255)));
}

#[test]
fn sans_filtre_le_pipeline_convertit_les_formats() {
    let png = source_png(20, 10, [10, 120, 200, 255]);

    let pipeline = Pipeline::builder()
        .formats(vec![OutputFormat::Png, OutputFormat::WebP])
        .build()
        .unwrap();

    let output = pipeline
        .run_bytes(&png, Origin::Memory { label: "src".to_string() }, &FilterChain::empty())
        .unwrap();

    assert!(output.applied_filters.is_empty());
    assert_eq!(output.artifacts.len(), 2);
    for artifact in &output.artifacts {
        assert_eq!(artifact.target.dimensions.width, 20);
        assert_eq!(artifact.target.dimensions.height, 10);
    }
}

#[test]
fn jpeg_ne_conserve_pas_la_transparence() {
    let png = source_png(16, 16, [200, 50, 50, 0]); // fully transparent

    let pipeline = Pipeline::builder().formats(vec![OutputFormat::Jpeg]).build().unwrap();

    let output = pipeline
        .run_bytes(&png, Origin::Memory { label: "src".to_string() }, &FilterChain::empty())
        .unwrap();

    let jpeg = &output.artifacts[0];
    assert!(!analyze(&jpeg.bytes).metadata.stats.has_transparency);
}

#[test]
fn un_flux_vide_est_rejete() {
    let pipeline = Pipeline::new();
    let result = pipeline.run_bytes(&[], Origin::Memory { label: "vide".to_string() }, &FilterChain::empty());
    assert!(result.is_err());
}

#[test]
fn la_borne_dimensionnelle_reduit_l_image_de_travail() {
    let png = source_png(200, 120, [255, 255, 255, 255]);

    let pipeline = Pipeline::builder()
        .formats(vec![OutputFormat::Png])
        .max_dimension(Some(50))
        .build()
        .unwrap();

    let output = pipeline
        .run_bytes(&png, Origin::Memory { label: "src".to_string() }, &FilterChain::empty())
        .unwrap();

    assert_eq!(output.artifacts[0].target.dimensions.longest_side(), 50);
    // The description keeps the original dimensions.
    assert_eq!(output.metadata.dimensions.width, 200);
}

// --- Further cases -----------------------------------------------------------

#[test]
fn le_radical_impose_nomme_les_fichiers() {
    let png = source_png(4, 4, [1, 2, 3, 255]);
    let pipeline = Pipeline::builder()
        .formats(vec![OutputFormat::Png, OutputFormat::Bmp])
        .sizes(vec![SizeVariant::parse("mini:2").unwrap()])
        .stem("sortie")
        .build()
        .unwrap();
    let output = pipeline
        .run_bytes(&png, Origin::Memory { label: "ignore".to_string() }, &FilterChain::empty())
        .unwrap();
    let names: Vec<&str> = output.artifacts.iter().map(|a| a.file_name.as_str()).collect();
    assert_eq!(names, vec!["sortie-mini.png", "sortie-mini.bmp"]);
    assert!(!output.is_empty());
}

#[test]
fn une_qualite_hors_bornes_est_refusee_a_la_construction() {
    match Pipeline::builder().quality(0).build() {
        Err(FiltroError::Config(m)) => assert_eq!(m, "qualité 0 hors de l'intervalle 1–100"),
        Err(other) => panic!("erreur inattendue {other:?}"),
        Ok(_) => panic!("erreur attendue"),
    }
}

#[test]
fn la_limite_de_pixels_du_pipeline() {
    let png = source_png(10, 10, [1, 2, 3, 255]);
    let pipeline = Pipeline::builder().max_pixels(Some(99)).build().unwrap();
    assert!(pipeline
        .run_bytes(&png, Origin::Memory { label: "x".to_string() }, &FilterChain::empty())
        .is_err());
}
