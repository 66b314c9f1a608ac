use filtro::model::resolution::{read, DensityUnit};
use filtro::{Resolution, SourceFormat};

fn chunk(kind: &[u8; 4], data: &[u8]) -> Vec<u8> {
    let mut out = (data.len() as u32).to_be_bytes().to_vec();
    out.extend_from_slice(kind);
    out.extend_from_slice(data);
    out.extend_from_slice(&[0, 0, 0, 0]); // CRC, not checked
    out
}

fn png_with(chunks: &[Vec<u8>]) -> Vec<u8> {
    let mut out = vec![0x89, b'P', b'N', b'G', 0x0D, 0x0A, 0x1A, 0x0A];
    out.extend(chunk(b"IHDR", &[0; 13]));
    for c in chunks {
        out.extend_from_slice(c);
    }
    out.extend(chunk(b"IEND", &[]));
    out
}

#[test]
fn densite_png_lue_dans_phys() {
    let mut phys = 2835u32.to_be_bytes().to_vec();
    phys.extend_from_slice(&3780u32.to_be_bytes());
    phys.push(1);
    let png = png_with(&[chunk(b"tEXt", b"a=b"), chunk(b"pHYs", &phys)]);
    assert_eq!(
        read(&png, &SourceFormat::Png),
        Some(Resolution { density_x: 2835, density_y: 3780, unit: DensityUnit::PerMeter })
    );
}

#[test]
fn densite_png_absente_ou_sans_unite() {
    let mut phys = 1u32.to_be_bytes().to_vec();
    phys.extend_from_slice(&1u32.to_be_bytes());
    phys.push(0);
    assert_eq!(read(&png_with(&[chunk(b"pHYs", &phys)]), &SourceFormat::Png), None);
    assert_eq!(read(&png_with(&[chunk(b"IDAT", &[1, 2])]), &SourceFormat::Png), None);
    assert_eq!(read(&[1, 2, 3], &SourceFormat::Png), None);
    // A chunk that claims more bytes than the file holds.
    let mut truncated = png_with(&[]);
    truncated.truncate(20);
    assert_eq!(read(&truncated, &SourceFormat::Png), None);
}

fn jpeg_with(units: u8, x: u16, y: u16) -> Vec<u8> {
    let mut out = vec![0xFF, 0xD8, 0xFF, 0xE0, 0x00, 0x10];
    out.extend_from_slice(b"JFIF\0");
    out.extend_from_slice(&[1, 2, units]);
    out.extend_from_slice(&x.to_be_bytes());
    out.extend_from_slice(&y.to_be_bytes());
    out.extend_from_slice(&[0, 0]);
    out.extend_from_slice(&[0xFF, 0xDA, 0, 2]);
    out
}

#[test]
fn densite_jpeg_lue_dans_jfif() {
    assert_eq!(
        read(&jpeg_with(1, 300, 72), &SourceFormat::Jpeg),
        Some(Resolution { density_x: 300, density_y: 72, unit: DensityUnit::PerInch })
    );
    assert_eq!(
        read(&jpeg_with(2, 118, 118), &SourceFormat::Jpeg),
        Some(Resolution { density_x: 118, density_y: 118, unit: DensityUnit::PerCentimeter })
    );
    assert_eq!(read(&jpeg_with(0, 1, 1), &SourceFormat::Jpeg), None);
    assert_eq!(read(&jpeg_with(1, 0, 72), &SourceFormat::Jpeg), None);
}

#[test]
fn autres_formats_sans_densite() {
    assert_eq!(read(&jpeg_with(1, 300, 72), &SourceFormat::Bmp), None);
    assert_eq!(read(&jpeg_with(1, 300, 72), &SourceFormat::Png), None);
}
