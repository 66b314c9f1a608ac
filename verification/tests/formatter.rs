use filtro::{
    ColorStats, Dimensions, FilterRequirements, FormatOptions, Formatter, ImageMetadata, Origin,
    OutputFormat, OutputTarget, PixelBuffer, PreparedImage, Rgba8, SizeVariant, SourceFormat,
};

fn metadata(dimensions: Dimensions) -> ImageMetadata {
    ImageMetadata {
        origin: Origin::Memory { label: "test".to_string() },
        source_format: SourceFormat::Png,
        dimensions,
        resolution: None,
        byte_size: 0,
        stats: ColorStats {
            has_transparency: false,
            is_grayscale: false,
            luminance_sum: 0,
            luminance_range: (0, 255),
        },
    }
}

fn prepared(width: u32, height: u32, pixel: Rgba8) -> PreparedImage {
    let dims = Dimensions::new(width, height).unwrap();
    let mut canvas = PixelBuffer::new(dims).unwrap();
    canvas.map_pixels(|_, _, _| pixel);
    PreparedImage {
        metadata: metadata(canvas.dimensions()),
        canvas,
        requirements: FilterRequirements::default(),
        background: Rgba8::WHITE(),
        resized_from: None,
    }
}

#[test]
fn produit_le_produit_cartesien() {
    let formatter = Formatter::new()
        .with_formats(vec![OutputFormat::Png, OutputFormat::Jpeg])
        .unwrap()
        .with_sizes(vec![
            SizeVariant::Original,
            SizeVariant::Bounded { label: "vignette".to_string(), max_side: 50 },
        ]);

    let set = formatter.format(&prepared(200, 100, Rgba8::new(10, 20, 30, 255))).unwrap();

    assert_eq!(set.len(), 4);
    let vignette = set.variants.iter().find(|v| v.target.size.label() == "vignette").unwrap();
    assert_eq!(vignette.target.dimensions.width, 50);
    assert_eq!(vignette.canvas.width(), 50);
}

#[test]
fn aplatit_l_alpha_pour_les_formats_sans_transparence() {
    let formatter = Formatter::new().with_formats(vec![OutputFormat::Png, OutputFormat::Jpeg]).unwrap();

    let set = formatter.format(&prepared(4, 4, Rgba8::new(10, 20, 30, 0))).unwrap();

    for variant in &set.variants {
        assert_eq!(variant.canvas.has_transparency(), variant.target.format.supports_alpha());
    }
}

#[test]
fn nomme_les_fichiers() {
    let formatter = Formatter::new()
        .with_sizes(vec![SizeVariant::Bounded { label: "web".to_string(), max_side: 800 }]);
    let set = formatter.format(&prepared(1600, 900, Rgba8::BLACK())).unwrap();
    assert_eq!(set.variants[0].target.file_name("photo"), "photo-web.png");
}

#[test]
fn refuse_une_qualite_invalide() {
    assert!(Formatter::new().with_quality(0).is_err());
    assert!(Formatter::new().with_quality(101).is_err());
}

// --- Further cases -----------------------------------------------------------

#[test]
fn formats_sans_doublon_et_liste_vide_refusee() {
    let f = Formatter::new()
        .with_formats(vec![OutputFormat::Png, OutputFormat::Png, OutputFormat::Jpeg, OutputFormat::Png])
        .unwrap();
    // Only repeated neighbours are merged.
    assert_eq!(f.formats(), &[OutputFormat::Png, OutputFormat::Jpeg, OutputFormat::Png]);
    match Formatter::new().with_formats(Vec::new()) {
        Err(filtro::FiltroError::Config(m)) => assert_eq!(m, "au moins un format de sortie est requis"),
        Err(other) => panic!("erreur inattendue {other:?}"),
        Ok(_) => panic!("erreur attendue"),
    }
    match Formatter::new().with_quality(101) {
        Err(filtro::FiltroError::Config(m)) => {
            assert_eq!(m, "qualité 101 hors de l'intervalle 1–100")
        }
        Err(other) => panic!("erreur inattendue {other:?}"),
        Ok(_) => panic!("erreur attendue"),
    }
}

#[test]
fn valeurs_par_defaut_du_formateur() {
    let f = Formatter::new();
    assert_eq!(f.formats(), &[OutputFormat::Png]);
    assert_eq!(f.sizes(), &[SizeVariant::Original]);
    let empty = Formatter::new().with_sizes(Vec::new());
    assert_eq!(empty.sizes(), &[SizeVariant::Original]);
}

#[test]
fn noms_et_extensions() {
    for f in OutputFormat::ALL() {
        assert_eq!(OutputFormat::parse(f.name()).unwrap(), f);
        assert_eq!(OutputFormat::parse(f.extension()).unwrap(), f);
    }
    assert_eq!(OutputFormat::parse(" JPG ").unwrap(), OutputFormat::Jpeg);
    assert_eq!(OutputFormat::parse("tif").unwrap(), OutputFormat::Tiff);
    match OutputFormat::parse(" GIF ") {
        Err(filtro::FiltroError::UnknownFormat(s)) => assert_eq!(s, "gif"),
        other => panic!("erreur attendue, obtenu {other:?}"),
    }
    assert!(OutputFormat::Jpeg.is_lossy());
    assert!(!OutputFormat::Bmp.supports_alpha());
    assert_eq!(OutputFormat::Jpeg.extension(), "jpg");
}

#[test]
fn declinaisons() {
    let v = SizeVariant::parse(" web : 1200 ").unwrap();
    assert_eq!(v, SizeVariant::Bounded { label: "web".to_string(), max_side: 1200 });
    assert_eq!(v.label(), "web");
    assert_eq!(SizeVariant::Original.label(), "original");
    let cases = [
        ("web", "déclinaison « web » mal formée (attendu étiquette:pixels)"),
        (" :12", "étiquette de déclinaison vide"),
        ("web:abc", "« abc » n'est pas un nombre de pixels"),
        ("web:0", "la taille d'une déclinaison doit être supérieure à zéro"),
    ];
    for (e, msg) in cases {
        match SizeVariant::parse(e) {
            Err(filtro::FiltroError::Config(m)) => assert_eq!(m, msg),
            other => panic!("erreur attendue pour {e}, obtenu {other:?}"),
        }
    }
}

#[test]
fn nom_de_fichier_original() {
    let t = OutputTarget {
        format: OutputFormat::Jpeg,
        size: SizeVariant::Original,
        dimensions: Dimensions::new(1, 1).unwrap(),
        options: FormatOptions::default(),
    };
    assert_eq!(t.file_name("photo"), "photo.jpg");
    assert_eq!(FormatOptions::default(), FormatOptions { quality: 85, background: Rgba8::WHITE() });
}

#[test]
fn une_image_vide_se_decline_sans_erreur() {
    let canvas = PixelBuffer::from_raw(Dimensions { width: 0, height: 1000 }, Vec::new()).unwrap();
    let prepared = PreparedImage {
        metadata: metadata(Dimensions { width: 0, height: 1000 }),
        canvas,
        requirements: FilterRequirements::default(),
        background: Rgba8::WHITE(),
        resized_from: None,
    };
    let set = Formatter::new()
        .with_sizes(vec![SizeVariant::Original, SizeVariant::parse("v:100").unwrap()])
        .format(&prepared)
        .unwrap();
    assert_eq!(set.variants[1].target.dimensions, Dimensions { width: 1, height: 100 });
    assert_eq!(set.variants[1].canvas.pixel(0, 99), Some(Rgba8::TRANSPARENT()));
}
