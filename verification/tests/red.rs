use filtro::filters::color::red;
use filtro::red::filtre_rouge;
use filtro::{
    ColorStats, Dimensions, Filter, FilterContext, FilterParams, FormatOptions, ImageMetadata,
    Origin, OutputFormat, OutputTarget, PixelBuffer, Rgba8, SizeVariant, SourceFormat,
};

#[test]
fn le_blanc_devient_rouge_et_le_reste_tourne() {
    // A 2×2 image: white, grey, blue-ish, just-not-white.
    let mut img = vec![
        200, 210, 220, 100, 100, 100, //
        10, 20, 30, 181, 181, 180,
    ];
    filtre_rouge(&mut img, 2, 2, 180);
    assert_eq!(img, vec![254, 1, 1, 100, 100, 100, 30, 10, 20, 180, 181, 181]);
}

#[test]
fn image_vide() {
    let mut img: Vec<u8> = Vec::new();
    filtre_rouge(&mut img, 0, 5, 180);
    assert!(img.is_empty());
}

#[test]
fn le_rouge_rgb_fait_comme_le_filtre_rouge() {
    let pixels: [(u8, u8, u8); 4] = [(200, 210, 220), (181, 181, 180), (10, 20, 30), (255, 255, 255)];
    let mut rgb: Vec<u8> = pixels.iter().flat_map(|&(r, g, b)| [r, g, b]).collect();
    filtre_rouge(&mut rgb, 4, 1, 180);

    let dims = Dimensions::new(4, 1).unwrap();
    let mut canvas = PixelBuffer::new(dims).unwrap();
    canvas.map_pixels(|x, _, _| {
        let (r, g, b) = pixels[x as usize];
        Rgba8::new(r, g, b, 255)
    });
    let filter = red().configure(&FilterParams::new("rouge")).unwrap();
    let metadata = ImageMetadata {
        origin: Origin::Memory { label: "t".to_string() },
        source_format: SourceFormat::Png,
        dimensions: dims,
        resolution: None,
        byte_size: 0,
        stats: ColorStats { has_transparency: false, is_grayscale: false, luminance_sum: 0, luminance_range: (0, 0) },
    };
    let target = OutputTarget {
        format: OutputFormat::Png,
        size: SizeVariant::Original,
        dimensions: dims,
        options: FormatOptions::default(),
    };
    filter.apply(&mut canvas, &FilterContext { metadata: &metadata, target: &target, position: 0 }).unwrap();
    let filtered: Vec<u8> = canvas.pixels().iter().flat_map(|p| [p.r, p.g, p.b]).collect();
    assert_eq!(rgb, filtered);
}
