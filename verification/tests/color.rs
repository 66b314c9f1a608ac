use filtro::filters::color::{green, red, yellow, ChannelOrder};
use filtro::{
    Dimensions, Filter, FilterContext, FilterRegistry, FilterRequest, FormatOptions,
    ImageMetadata, Origin, OutputFormat, OutputTarget, PixelBuffer, Rgba8, SizeVariant,
    SourceFormat,
};
use filtro::{ColorStats, FilterFactory};

fn metadata(dimensions: Dimensions) -> ImageMetadata {
    ImageMetadata {
        origin: Origin::Memory { label: "test".to_string() },
        source_format: SourceFormat::Png,
        dimensions,
        resolution: None,
        byte_size: 0,
        stats: ColorStats {
            has_transparency: false,
            is_grayscale: false,
            luminance_sum: 0,
            luminance_range: (0, 255),
        },
    }
}

fn canvas(width: u32, height: u32, pixel: Rgba8) -> PixelBuffer {
    let dimensions = Dimensions::new(width, height).expect("dimensions valides");
    let mut canvas = PixelBuffer::new(dimensions).expect("allocation");
    canvas.map_pixels(|_, _, _| pixel);
    canvas
}

fn target(dimensions: Dimensions) -> OutputTarget {
    OutputTarget {
        format: OutputFormat::Png,
        size: SizeVariant::Original,
        dimensions,
        options: FormatOptions::default(),
    }
}

fn apply_to_pixel(filter: &dyn Filter, pixel: Rgba8) -> Rgba8 {
    let mut buffer = canvas(1, 1, pixel);
    let dimensions = buffer.dimensions();
    let metadata = metadata(dimensions);
    let target = target(dimensions);
    let ctx = FilterContext { metadata: &metadata, target: &target, position: 0 };
    filter.apply(&mut buffer, &ctx).expect("filtre appliqué");
    buffer.pixel(0, 0).expect("pixel présent")
}

fn filtre(expression: &str) -> Box<dyn Filter> {
    let mut registry = FilterRegistry::new();
    registry.register(yellow()).unwrap();
    registry.register(green()).unwrap();
    registry.register(red()).unwrap();
    registry.build(&FilterRequest::parse(expression).unwrap()).unwrap()
}

#[test]
fn permutation_bvr_echange_rouge_et_bleu() {
    let order = ChannelOrder::parse("bvr").unwrap();
    let out = order.apply(Rgba8::new(10, 20, 30, 200));
    assert_eq!(out, Rgba8::new(30, 20, 10, 200));
}

#[test]
fn permutation_invalide() {
    assert!(ChannelOrder::parse("bv").is_none());
    assert!(ChannelOrder::parse("xyz").is_none());
    assert_eq!(ChannelOrder::parse("rgb"), Some(ChannelOrder::IDENTITY()));
}

#[test]
fn le_blanc_devient_jaune() {
    let sortie = apply_to_pixel(&*filtre("jaune"), Rgba8::new(200, 210, 220, 255));
    assert_eq!(sortie, Rgba8::new(254, 254, 1, 255));
}

#[test]
fn les_autres_pixels_sont_permutes() {
    // 100 < 180: the pixel is not white, so it is permuted.
    let sortie = apply_to_pixel(&*filtre("jaune"), Rgba8::new(10, 100, 30, 255));
    assert_eq!(sortie, Rgba8::new(30, 100, 10, 255));
}

#[test]
fn le_seuil_est_reglable() {
    let clair = Rgba8::new(200, 200, 200, 255);
    // With a threshold of 220 this pixel is no longer white.
    let sortie = apply_to_pixel(&*filtre("jaune:niveau=220"), clair);
    assert_eq!(sortie, clair);
}

#[test]
fn la_couleur_est_reglable() {
    let sortie = apply_to_pixel(&*filtre("rouge:couleur=00ccff"), Rgba8::WHITE());
    assert_eq!(sortie, Rgba8::new(0, 204, 255, 255));
}

#[test]
fn l_alpha_est_preserve() {
    let sortie = apply_to_pixel(&*filtre("vert"), Rgba8::new(250, 250, 250, 64));
    assert_eq!(sortie.a, 64);
}

#[test]
fn permutation_invalide_rejetee_a_la_construction() {
    let mut registry = FilterRegistry::new();
    registry.register(yellow()).unwrap();
    let request = FilterRequest::parse("jaune:permutation=xx").unwrap();
    assert!(registry.build(&request).is_err());
}

// --- Further cases -----------------------------------------------------------

#[test]
fn permutation_accepte_g_majuscules_et_espaces() {
    let order = ChannelOrder::parse("  BGR ").unwrap();
    assert_eq!(order.apply(Rgba8::new(1, 2, 3, 4)), Rgba8::new(3, 2, 1, 4));
    assert!(ChannelOrder::parse("rvbr").is_none());
    assert!(ChannelOrder::parse("").is_none());
}

#[test]
fn identite_ne_change_rien() {
    let p = Rgba8::new(12, 34, 56, 78);
    assert_eq!(ChannelOrder::IDENTITY().apply(p), p);
}

#[test]
fn vert_et_rouge_permutent_selon_leur_mot() {
    // vert: rbv -> (r, b, g); rouge: brv -> (b, r, g).
    assert_eq!(apply_to_pixel(&*filtre("vert"), Rgba8::new(10, 20, 30, 255)), Rgba8::new(10, 30, 20, 255));
    assert_eq!(apply_to_pixel(&*filtre("rouge"), Rgba8::new(10, 20, 30, 255)), Rgba8::new(30, 10, 20, 255));
    assert_eq!(apply_to_pixel(&*filtre("vert"), Rgba8::WHITE()), Rgba8::new(145, 254, 1, 255));
    assert_eq!(apply_to_pixel(&*filtre("rouge"), Rgba8::WHITE()), Rgba8::new(254, 1, 1, 255));
}

#[test]
fn le_seuil_est_strict() {
    // Exactly 180 on a channel is not above the default threshold.
    let p = Rgba8::new(180, 200, 200, 255);
    assert_eq!(apply_to_pixel(&*filtre("jaune"), p), Rgba8::new(200, 200, 180, 255));
}

#[test]
fn erreurs_de_configuration_dans_l_ordre() {
    let factory = yellow();
    let bad_level = FilterRequest::parse("jaune:niveau=999,couleur=zz,permutation=xx").unwrap();
    match factory.configure(&bad_level.params) {
        Err(filtro::FiltroError::InvalidParameter { filter, name, reason }) => {
            assert_eq!(filter, "jaune");
            assert_eq!(name, "niveau");
            assert_eq!(reason, "« 999 » n'est pas un entier entre 0 et 255");
        }
        other => panic!("erreur attendue, obtenu {other:?}"),
    }
    let bad_color = FilterRequest::parse("jaune:couleur=zz,permutation=xx").unwrap();
    match factory.configure(&bad_color.params) {
        Err(filtro::FiltroError::InvalidParameter { name, reason, .. }) => {
            assert_eq!(name, "couleur");
            assert_eq!(reason, "« zz » n'est pas une couleur hexadécimale (ex. fefe01)");
        }
        other => panic!("erreur attendue, obtenu {other:?}"),
    }
    let bad_order = FilterRequest::parse("jaune:permutation=xx").unwrap();
    match factory.configure(&bad_order.params) {
        Err(filtro::FiltroError::InvalidParameter { filter, name, reason }) => {
            assert_eq!(filter, "jaune");
            assert_eq!(name, "permutation");
            assert_eq!(reason, "« xx » n'est pas un mot de trois lettres parmi r, v, b");
        }
        other => panic!("erreur attendue, obtenu {other:?}"),
    }
}

#[test]
fn fabriques_decrivent_leurs_parametres() {
    let f = yellow();
    assert_eq!(f.id(), "jaune");
    let names: Vec<&str> = f.parameters().iter().map(|p| p.name).collect();
    assert_eq!(names, vec!["niveau", "couleur", "permutation"]);
    assert_eq!(f.parameters()[1].default, "fefe01");
    assert_eq!(green().parameters()[2].default, "rbv");
    assert_eq!(red().parameters()[1].default, "fe0101");
}
