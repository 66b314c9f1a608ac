use filtro::model::pipeline::analyzer::stem_or_fallback;
use filtro::model::codec::encode;
use filtro::{
    Analyzer, Dimensions, FiltroError, FormatOptions, Origin, OutputFormat, PixelBuffer, Rgba8,
    SourceFormat,
};

fn png_bytes(width: u32, height: u32, pixel: Rgba8) -> Vec<u8> {
    let dims = Dimensions::new(width, height).unwrap();
    let mut buffer = PixelBuffer::new(dims).unwrap();
    buffer.map_pixels(|_, _, _| pixel);
    encode(&buffer, OutputFormat::Png, &FormatOptions::default()).expect("encodage png")
}

#[test]
fn analyse_une_image_png() {
    let bytes = png_bytes(4, 2, Rgba8::new(200, 200, 200, 255));
    let analyzer = Analyzer::new();
    let analysis = analyzer
        .analyze_bytes(&bytes, Origin::Memory { label: "test".to_string() })
        .expect("analyse");

    assert_eq!(analysis.metadata.source_format, SourceFormat::Png);
    assert_eq!(analysis.metadata.dimensions.width, 4);
    assert_eq!(analysis.metadata.dimensions.height, 2);
    assert!(analysis.metadata.stats.is_grayscale);
    assert!(!analysis.metadata.stats.has_transparency);
}

#[test]
fn refuse_un_flux_vide() {
    let analyzer = Analyzer::new();
    let err = analyzer
        .analyze_bytes(&[], Origin::Memory { label: "vide".to_string() })
        .unwrap_err();
    assert!(matches!(err, FiltroError::InvalidImage(_)));
}

#[test]
fn respecte_la_limite_de_pixels() {
    let bytes = png_bytes(8, 8, Rgba8::BLACK());
    let analyzer = Analyzer::new().with_max_pixels(Some(16));
    assert!(analyzer
        .analyze_bytes(&bytes, Origin::Memory { label: "gros".to_string() })
        .is_err());
}

// --- Further cases -----------------------------------------------------------

#[test]
fn statistiques_de_couleur() {
    let dims = Dimensions::new(2, 1).unwrap();
    let mut buffer = PixelBuffer::new(dims).unwrap();
    buffer.map_pixels(|x, _, _| if x == 0 { Rgba8::new(10, 10, 10, 255) } else { Rgba8::new(250, 0, 0, 100) });
    let bytes = encode(&buffer, OutputFormat::Png, &FormatOptions::default()).unwrap();
    let analysis = Analyzer::new()
        .analyze_bytes(&bytes, Origin::Memory { label: "m".to_string() })
        .unwrap();
    let stats = analysis.metadata.stats;
    assert!(stats.has_transparency);
    assert!(!stats.is_grayscale);
    // Luminances 10 and round(0.299 * 250) = 75.
    assert_eq!(stats.luminance_range, (10, 75));
    assert_eq!(stats.luminance_sum, 85);
    assert_eq!(analysis.metadata.byte_size, bytes.len());
}

#[test]
fn message_de_la_limite_de_pixels() {
    let bytes = png_bytes(8, 8, Rgba8::BLACK());
    match Analyzer::new()
        .with_max_pixels(Some(16))
        .analyze_bytes(&bytes, Origin::Memory { label: "gros".to_string() })
    {
        Err(FiltroError::InvalidImage(m)) => {
            assert_eq!(m, "image de 8x8 (64 pixels) au-delà de la limite de 16 pixels")
        }
        Err(other) => panic!("erreur inattendue {other:?}"),
        Ok(_) => panic!("erreur attendue"),
    }
}

#[test]
fn sans_limite_tout_passe() {
    let bytes = png_bytes(8, 8, Rgba8::BLACK());
    let analysis = Analyzer::new()
        .with_max_pixels(None)
        .analyze_bytes(&bytes, Origin::Memory { label: "x".to_string() })
        .unwrap();
    assert_eq!(analysis.buffer.pixel(7, 7), Some(Rgba8::BLACK()));
}

#[test]
fn flux_illisible() {
    let err = Analyzer::new()
        .analyze_bytes(&[1, 2, 3, 4, 5], Origin::Memory { label: "bruit".to_string() })
        .unwrap_err();
    assert!(matches!(err, FiltroError::Decode { .. }));
}

#[test]
fn radical_de_l_origine() {
    assert_eq!(Origin::Memory { label: "abc".to_string() }.stem(), "abc");
    assert_eq!(Origin::Path(std::path::PathBuf::from("/tmp/photo.jpg")).stem(), "photo");
}

#[test]
fn racine_des_noms_de_fichiers() {
    assert_eq!(stem_or_fallback(None), "image");
    assert_eq!(stem_or_fallback(Some("photo".to_string())), "photo");
    let chemin = Origin::Path(std::path::PathBuf::from("dir/photo.jpg"));
    assert_eq!(chemin.stem(), "photo");
    assert_eq!(Origin::Path(std::path::PathBuf::from("")).stem(), "image");
    assert_eq!(Origin::Memory { label: "flux".to_string() }.stem(), "flux");
}
