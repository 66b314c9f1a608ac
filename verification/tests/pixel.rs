use filtro::{Dimensions, PixelBuffer, Rgba8};

fn buffer(width: u32, height: u32) -> PixelBuffer {
    PixelBuffer::new(Dimensions::new(width, height).unwrap()).unwrap()
}

#[test]
fn dimensions_refuse_zero() {
    assert!(Dimensions::new(0, 10).is_err());
    assert!(Dimensions::new(10, 0).is_err());
}

#[test]
fn from_raw_verifie_la_taille() {
    let dims = Dimensions::new(2, 2).unwrap();
    assert!(PixelBuffer::from_raw(dims, vec![0; 16]).is_ok());
    assert!(PixelBuffer::from_raw(dims, vec![0; 15]).is_err());
}

#[test]
fn lecture_ecriture_pixel() {
    let mut buf = buffer(3, 2);
    buf.set_pixel(2, 1, Rgba8::new(10, 20, 30, 40));
    assert_eq!(buf.pixel(2, 1), Some(Rgba8::new(10, 20, 30, 40)));
    assert_eq!(buf.pixel(3, 1), None);
}

#[test]
fn map_pixels_fournit_les_coordonnees() {
    let mut buf = buffer(2, 2);
    buf.map_pixels(|x, y, _| Rgba8::new(x as u8, y as u8, 0, 255));
    assert_eq!(buf.pixel(1, 0), Some(Rgba8::new(1, 0, 0, 255)));
    assert_eq!(buf.pixel(0, 1), Some(Rgba8::new(0, 1, 0, 255)));
}

#[test]
fn aplatissement_alpha() {
    let mut buf = buffer(1, 1);
    buf.set_pixel(0, 0, Rgba8::new(0, 0, 0, 0));
    buf.flatten_onto(Rgba8::WHITE());
    assert_eq!(buf.pixel(0, 0), Some(Rgba8::WHITE()));
}

#[test]
fn lecture_couleur_hexadecimale() {
    assert_eq!(Rgba8::from_hex("#fefe01"), Some(Rgba8::new(254, 254, 1, 255)));
    assert_eq!(Rgba8::from_hex("000000ff"), Some(Rgba8::BLACK()));
    assert_eq!(Rgba8::from_hex("fff"), None);
    assert_eq!(Rgba8::from_hex("zzzzzz"), None);
}

#[test]
fn reduction_proportionnelle() {
    let dims = Dimensions::new(1000, 500).unwrap();
    assert_eq!(dims.scaled_to_fit(2000), None);
    let reduced = dims.scaled_to_fit(100).unwrap();
    assert_eq!((reduced.width, reduced.height), (100, 50));
}

// --- Further cases -----------------------------------------------------------

#[test]
fn ecrire_hors_image_ne_change_rien() {
    let mut buf = buffer(2, 1);
    let before = buf.as_bytes().to_vec();
    buf.set_pixel(5, 0, Rgba8::WHITE());
    assert_eq!(buf.as_bytes(), &before[..]);
    buf.set_pixel(1, 0, Rgba8::WHITE());
    assert_eq!(buf.pixel(0, 0), Some(Rgba8::TRANSPARENT()));
    assert_eq!(buf.pixel(1, 0), Some(Rgba8::WHITE()));
}

#[test]
fn messages_des_erreurs_d_image() {
    match Dimensions::new(0, 10) {
        Err(filtro::FiltroError::InvalidImage(m)) => assert_eq!(m, "dimensions nulles (0x10)"),
        other => panic!("erreur attendue, obtenu {other:?}"),
    }
    let dims = Dimensions::new(2, 2).unwrap();
    match PixelBuffer::from_raw(dims, vec![0; 15]) {
        Err(filtro::FiltroError::InvalidImage(m)) => {
            assert_eq!(m, "tampon de 15 octets pour 2x2 (attendu : 16)")
        }
        other => panic!("erreur attendue, obtenu {other:?}"),
    }
}

#[test]
fn pixel_borne_aux_bords() {
    let mut buf = buffer(2, 2);
    buf.set_pixel(1, 1, Rgba8::new(9, 9, 9, 9));
    assert_eq!(buf.pixel_clamped(5, 7), Rgba8::new(9, 9, 9, 9));
    assert_eq!(buf.pixel_clamped(-3, -1), Rgba8::TRANSPARENT());
}

#[test]
fn luminance_et_composition() {
    assert_eq!(Rgba8::new(90, 90, 90, 255).luminance(), 90);
    assert_eq!(Rgba8::new(100, 255, 100, 255).luminance(), 191);
    // Half-transparent black over white: 255 * (255 - 128) / 255 = 127.
    assert_eq!(Rgba8::new(0, 0, 0, 128).over(Rgba8::WHITE()), Rgba8::new(127, 127, 127, 255));
    let opaque = Rgba8::new(1, 2, 3, 255);
    assert_eq!(opaque.over(Rgba8::BLACK()), opaque);
}

#[test]
fn transparence_et_pixels() {
    let mut buf = buffer(2, 1);
    buf.map_pixels(|x, _, _| Rgba8::new(1, 2, 3, if x == 0 { 255 } else { 10 }));
    assert!(buf.has_transparency());
    assert_eq!(buf.pixels(), vec![Rgba8::new(1, 2, 3, 255), Rgba8::new(1, 2, 3, 10)]);
    buf.flatten_onto(Rgba8::BLACK());
    assert!(!buf.has_transparency());
    assert_eq!(buf.into_raw().len(), 8);
}

#[test]
fn dimensions_bornes() {
    let d = Dimensions::new(3, 7).unwrap();
    assert_eq!(d.longest_side(), 7);
    assert_eq!(d.pixel_count(), 21);
    assert_eq!(d.scaled_to_fit(7), None);
    assert_eq!(d.scaled_to_fit(0), None);
    let r = d.scaled_to_fit(2).unwrap();
    assert_eq!((r.width, r.height), (1, 2));
    assert_eq!(d.to_text(), "3x7");
}

fn single_precision_luminance(r: u8, g: u8, b: u8) -> u8 {
    let y = 0.299f32 * f32::from(r) + 0.587f32 * f32::from(g) + 0.114f32 * f32::from(b);
    y.round().clamp(0.0, 255.0) as u8
}

#[test]
fn luminance_au_plus_pres_du_calcul_simple_precision() {
    // Sums that land just below a half in single precision round down.
    assert_eq!(Rgba8::new(4, 40, 16, 255).luminance(), 26);
    assert_eq!(Rgba8::new(5, 233, 81, 255).luminance(), 147);
    assert_eq!(Rgba8::new(14, 2, 10, 255).luminance(), single_precision_luminance(14, 2, 10));
    assert_eq!(Rgba8::new(255, 255, 255, 255).luminance(), 255);
    assert_eq!(Rgba8::new(0, 0, 0, 0).luminance(), 0);
    for r in (0..=255u8).step_by(7) {
        for g in (0..=255u8).step_by(11) {
            for b in 0..=255u8 {
                assert_eq!(
                    Rgba8::new(r, g, b, 255).luminance(),
                    single_precision_luminance(r, g, b),
                    "({r}, {g}, {b})"
                );
            }
        }
    }
}

#[test]
fn luminance_d_un_gris() {
    for v in 0..=255u8 {
        assert_eq!(Rgba8::new(v, v, v, 7).luminance(), v);
    }
}

fn single_precision_over(p: Rgba8, bg: Rgba8) -> Rgba8 {
    if p.a == 255 {
        return p;
    }
    let alpha = f32::from(p.a) / 255.0;
    let mix = |fg: u8, back: u8| -> u8 {
        let value = f32::from(fg) * alpha + f32::from(back) * (1.0 - alpha);
        value.round().clamp(0.0, 255.0) as u8
    };
    Rgba8::new(mix(p.r, bg.r), mix(p.g, bg.g), mix(p.b, bg.b), 255)
}

#[test]
fn composition_egale_au_calcul_simple_precision() {
    for a in 0..=255u8 {
        for fg in (0..=255u8).step_by(3) {
            for back in (0..=255u8).step_by(5) {
                let p = Rgba8::new(fg, back, fg, a);
                let bg = Rgba8::new(back, fg, 255 - back, 255);
                assert_eq!(p.over(bg), single_precision_over(p, bg), "{p:?} sur {bg:?}");
            }
        }
    }
}

fn double_precision_scaled(d: Dimensions, max_side: u32) -> Option<Dimensions> {
    let longest = d.width.max(d.height);
    if max_side == 0 || longest <= max_side {
        return None;
    }
    let ratio = f64::from(max_side) / f64::from(longest);
    let width = ((f64::from(d.width) * ratio).round() as u32).max(1);
    let height = ((f64::from(d.height) * ratio).round() as u32).max(1);
    Some(Dimensions { width, height })
}

#[test]
fn reduction_au_plus_pres_du_calcul_double_precision() {
    // 11 * 15 / 22 is exactly 7.5, but the double product falls just below.
    let d = Dimensions::new(22, 11).unwrap();
    assert_eq!(d.scaled_to_fit(15), Some(Dimensions { width: 15, height: 7 }));
    assert_eq!(d.scaled_to_fit(15), double_precision_scaled(d, 15));
    for longest in 2..=60u32 {
        for side in 1..=longest {
            for max_side in 1..longest {
                for d in [
                    Dimensions { width: longest, height: side },
                    Dimensions { width: side, height: longest },
                ] {
                    assert_eq!(d.scaled_to_fit(max_side), double_precision_scaled(d, max_side), "{d:?} {max_side}");
                }
            }
        }
    }
    for (w, h, m) in [
        (4_294_967_295u32, 3u32, 1_000u32),
        (4_000_000_000, 4_294_967_295, 4_294_967_294),
        (123_456_789, 987_654_321, 65_537),
        (7, 4_294_967_295, 2),
    ] {
        let d = Dimensions { width: w, height: h };
        assert_eq!(d.scaled_to_fit(m), double_precision_scaled(d, m), "{d:?} {m}");
    }
}
