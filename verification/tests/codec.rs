use filtro::model::codec::{decode, encode, resize, to_rgb_bytes};
use filtro::{Dimensions, FormatOptions, OutputFormat, PixelBuffer, Rgba8};

fn gradient(width: u32, height: u32) -> PixelBuffer {
    let mut b = PixelBuffer::new(Dimensions::new(width, height).unwrap()).unwrap();
    b.map_pixels(|x, y, _| Rgba8::new((x * 40) as u8, (y * 60) as u8, 7, 255 - x as u8));
    b
}

#[test]
fn png_aller_retour_sans_perte() {
    let b = gradient(4, 3);
    let bytes = encode(&b, OutputFormat::Png, &FormatOptions::default()).unwrap();
    assert_eq!(&bytes[1..4], b"PNG");
    let (back, format) = decode(&bytes, "mémoire").unwrap();
    assert_eq!(back.dimensions(), b.dimensions());
    assert_eq!(back.as_bytes(), b.as_bytes());
    assert_eq!(format.as_deref(), Some("Png"));
}

#[test]
fn formats_sans_perte_et_jpeg() {
    let b = gradient(5, 2);
    for format in [OutputFormat::Tiff, OutputFormat::WebP] {
        let bytes = encode(&b, format, &FormatOptions::default()).unwrap();
        let (back, _) = decode(&bytes, "m").unwrap();
        assert_eq!(back.as_bytes(), b.as_bytes(), "{format:?}");
    }
    let bmp = encode(&b, OutputFormat::Bmp, &FormatOptions::default()).unwrap();
    assert_eq!(&bmp[..2], b"BM");
    let jpeg = encode(&b, OutputFormat::Jpeg, &FormatOptions { quality: 50, background: Rgba8::WHITE() })
        .unwrap();
    assert_eq!(&jpeg[..2], &[0xFF, 0xD8]);
    let (back, _) = decode(&jpeg, "m").unwrap();
    assert_eq!(back.dimensions(), b.dimensions());
}

#[test]
fn sans_alpha_pour_le_rgb() {
    let b = gradient(2, 1);
    assert_eq!(to_rgb_bytes(&b), vec![0, 0, 7, 40, 0, 7]);
}

#[test]
fn reechantillonnage_aux_dimensions_demandees() {
    let mut b = PixelBuffer::new(Dimensions::new(8, 4).unwrap()).unwrap();
    b.map_pixels(|_, _, _| Rgba8::new(100, 150, 200, 255));
    let small = resize(&b, Dimensions::new(4, 2).unwrap()).unwrap();
    assert_eq!(small.dimensions(), Dimensions::new(4, 2).unwrap());
    assert_eq!(small.pixel(1, 1), Some(Rgba8::new(100, 150, 200, 255)));
}

#[test]
fn flux_invalide() {
    assert!(matches!(decode(b"pas une image", "bruit"), Err(filtro::FiltroError::Decode { .. })));
}
