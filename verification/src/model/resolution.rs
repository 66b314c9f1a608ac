//! Reading the resolution (pixel density) stored in image metadata.
//!
//! The codec library does not expose the density, so the `pHYs` chunk of a
//! PNG and the `JFIF` segment of a JPEG are read directly. Reading is
//! defensive: any anomaly gives `None` rather than an error, since a missing
//! resolution does not prevent processing.

use vstd::prelude::*;

use crate::model::pipeline::analyzer::SourceFormat;

verus! {

/// Unit in which a file declares its pixel density.
#[derive(Debug, Clone, Copy, PartialEq, Eq, Structural)]
pub enum DensityUnit {
    /// Pixels per metre (PNG `pHYs`, unit 1).
    PerMeter,
    /// Dots per inch (JFIF units 1).
    PerInch,
    /// Dots per centimetre (JFIF units 2).
    PerCentimeter,
}

/// Resolution declared by the source file, as stored there.
#[derive(Debug, Clone, Copy, PartialEq, Eq, Structural)]
pub struct Resolution {
    pub density_x: u32,
    pub density_y: u32,
    pub unit: DensityUnit,
}

/// Big-endian 32-bit integer starting at `s[i]`.
pub open spec fn be32(s: Seq<u8>, i: int) -> u32 {
    (s[i] as nat * 0x1000000 + s[i + 1] as nat * 0x10000 + s[i + 2] as nat * 0x100 + s[i
        + 3] as nat) as u32
}

/// Big-endian 16-bit integer starting at `s[i]`.
pub open spec fn be16(s: Seq<u8>, i: int) -> u16 {
    (s[i] as nat * 0x100 + s[i + 1] as nat) as u16
}

/// The eight bytes that open every PNG file.
pub open spec fn png_signature() -> Seq<u8> {
    seq![0x89u8, 0x50u8, 0x4Eu8, 0x47u8, 0x0Du8, 0x0Au8, 0x1Au8, 0x0Au8]
}

/// Whether the four bytes at `s[i]` spell `tag`.
pub open spec fn tag_at(s: Seq<u8>, i: int, tag: Seq<u8>) -> bool {
    s.subrange(i, i + 4) == tag
}

/// `pHYs`
pub open spec fn phys_tag() -> Seq<u8> {
    seq![0x70u8, 0x48u8, 0x59u8, 0x73u8]
}

/// `IDAT`
pub open spec fn idat_tag() -> Seq<u8> {
    seq![0x49u8, 0x44u8, 0x41u8, 0x54u8]
}

/// `IEND`
pub open spec fn iend_tag() -> Seq<u8> {
    seq![0x49u8, 0x45u8, 0x4Eu8, 0x44u8]
}

/// `JFIF\0`
pub open spec fn jfif_tag() -> Seq<u8> {
    seq![0x4Au8, 0x46u8, 0x49u8, 0x46u8, 0x00u8]
}

/// The chunk walk of a PNG from the chunk header at `cursor`: the first
/// `pHYs` chunk (before any `IDAT` or `IEND`) in pixels per metre.
pub open spec fn png_phys_from(bytes: Seq<u8>, cursor: int) -> Option<Resolution>
    decreases bytes.len() - cursor,
{
    if cursor < 0 || cursor + 8 > bytes.len() {
        None
    } else {
        let length = be32(bytes, cursor) as int;
        let data_start = cursor + 8;
        let data_end = data_start + length;
        if data_end > bytes.len() {
            None
        } else if tag_at(bytes, cursor + 4, phys_tag()) && length >= 9 {
            if bytes[data_start + 8] != 1 {
                None
            } else {
                Some(
                    Resolution {
                        density_x: be32(bytes, data_start),
                        density_y: be32(bytes, data_start + 4),
                        unit: DensityUnit::PerMeter,
                    },
                )
            }
        } else if tag_at(bytes, cursor + 4, idat_tag()) || tag_at(bytes, cursor + 4, iend_tag()) {
            None
        } else if data_end + 4 + 8 > bytes.len() {
            None
        } else {
            png_phys_from(bytes, data_end + 4)
        }
    }
}

/// The density of a PNG file, from its `pHYs` chunk.
pub open spec fn png_phys(bytes: Seq<u8>) -> Option<Resolution> {
    if bytes.len() < 8 || bytes.subrange(0, 8) != png_signature() {
        None
    } else {
        png_phys_from(bytes, 8)
    }
}

/// Markers that carry no payload.
pub open spec fn standalone_marker(m: u8) -> bool {
    m == 0xD8 || m == 0x01 || (0xD0 <= m && m <= 0xD7)
}

/// The density held by a JFIF APP0 payload, if usable.
pub open spec fn jfif_density(segment: Seq<u8>) -> Option<Resolution> {
    let x = be16(segment, 8);
    let y = be16(segment, 10);
    if x == 0 || y == 0 {
        None
    } else if segment[7] == 1 {
        Some(Resolution { density_x: x as u32, density_y: y as u32, unit: DensityUnit::PerInch })
    } else if segment[7] == 2 {
        Some(
            Resolution {
                density_x: x as u32,
                density_y: y as u32,
                unit: DensityUnit::PerCentimeter,
            },
        )
    } else {
        None
    }
}

/// The segment walk of a JPEG from the marker at `cursor`, up to the APP0
/// JFIF header.
pub open spec fn jpeg_jfif_from(bytes: Seq<u8>, cursor: int) -> Option<Resolution>
    decreases bytes.len() - cursor,
{
    if cursor < 0 || cursor + 4 > bytes.len() {
        None
    } else if bytes[cursor] != 0xFF {
        None
    } else if standalone_marker(bytes[cursor + 1]) {
        jpeg_jfif_from(bytes, cursor + 2)
    } else if bytes[cursor + 1] == 0xDA {
        None
    } else {
        let length = be16(bytes, cursor + 2) as int;
        if length < 2 || cursor + 2 + length > bytes.len() {
            None
        } else {
            let segment = bytes.subrange(cursor + 4, cursor + 2 + length);
            if bytes[cursor + 1] == 0xE0 && segment.len() >= 12 && segment.subrange(0, 5)
                == jfif_tag() {
                jfif_density(segment)
            } else {
                jpeg_jfif_from(bytes, cursor + 2 + length)
            }
        }
    }
}

/// The density of a JPEG file, from its JFIF header.
pub open spec fn jpeg_jfif(bytes: Seq<u8>) -> Option<Resolution> {
    if bytes.len() < 2 || bytes[0] != 0xFF || bytes[1] != 0xD8 {
        None
    } else {
        jpeg_jfif_from(bytes, 2)
    }
}

/// The resolution of a file of the given format.
pub open spec fn resolution_of(bytes: Seq<u8>, format: SourceFormat) -> Option<Resolution> {
    match format {
        SourceFormat::Png => png_phys(bytes),
        SourceFormat::Jpeg => jpeg_jfif(bytes),
        _ => None,
    }
}

/// Extracts the resolution when the format carries one and it is usable.
pub fn read(bytes: &[u8], format: &SourceFormat) -> (r: Option<Resolution>)
    ensures
        r == resolution_of(bytes@, *format),
{
    match format {
        SourceFormat::Png => read_png_phys(bytes),
        SourceFormat::Jpeg => read_jpeg_jfif(bytes),
        _ => None,
    }
}

fn be_u32(s: &[u8], i: usize) -> (v: u32)
    requires
        i + 4 <= s@.len(),
    ensures
        v == be32(s@, i as int),
{
    (s[i] as u32) * 0x1000000 + (s[i + 1] as u32) * 0x10000 + (s[i + 2] as u32) * 0x100 + (s[i
        + 3] as u32)
}

fn be_u16(s: &[u8], i: usize) -> (v: u16)
    requires
        i + 2 <= s@.len(),
    ensures
        v == be16(s@, i as int),
{
    (s[i] as u16) * 0x100 + (s[i + 1] as u16)
}

fn bytes_match(s: &[u8], i: usize, tag: &[u8]) -> (r: bool)
    requires
        i + tag@.len() <= s@.len(),
    ensures
        r == (s@.subrange(i as int, i + tag@.len()) == tag@),
{
    let n = tag.len();
    let slen = s.len();
    let mut k: usize = 0;
    while k < n
        invariant
            n == tag@.len(),
            slen == s@.len(),
            i + n <= s@.len(),
            k <= n,
            forall|j: int| 0 <= j < k ==> s@[i + j] == tag@[j],
        decreases n - k,
    {
        if s[i + k] != tag[k] {
            assert(s@.subrange(i as int, i + n)[k as int] != tag@[k as int]);
            return false;
        }
        k = k + 1;
    }
    assert(s@.subrange(i as int, i + n) =~= tag@);
    true
}

/// Walks the PNG chunks up to `pHYs` (always placed before `IDAT`).
fn read_png_phys(bytes: &[u8]) -> (r: Option<Resolution>)
    ensures
        r == png_phys(bytes@),
{
    let len = bytes.len();
    let signature: [u8; 8] = [0x89, 0x50, 0x4E, 0x47, 0x0D, 0x0A, 0x1A, 0x0A];
    assert(signature@ =~= png_signature());
    if len < 8 || !bytes_match(bytes, 0, signature.as_slice()) {
        return None;
    }
    let phys: [u8; 4] = [0x70, 0x48, 0x59, 0x73];
    let idat: [u8; 4] = [0x49, 0x44, 0x41, 0x54];
    let iend: [u8; 4] = [0x49, 0x45, 0x4E, 0x44];
    assert(phys@ =~= phys_tag());
    assert(idat@ =~= idat_tag());
    assert(iend@ =~= iend_tag());
    let mut cursor: usize = 8;
    while cursor <= len && len - cursor >= 8
        invariant
            len == bytes@.len(),
            phys@ == phys_tag(),
            idat@ == idat_tag(),
            iend@ == iend_tag(),
            8 <= cursor,
            png_phys(bytes@) == png_phys_from(bytes@, cursor as int),
        decreases len - cursor,
    {
        let length = be_u32(bytes, cursor) as u64;
        let data_start = cursor + 8;
        if length > (len - data_start) as u64 {
            return None;
        }
        let data_end = data_start + length as usize;
        if bytes_match(bytes, cursor + 4, phys.as_slice()) && length >= 9 {
            if bytes[data_start + 8] != 1 {
                return None;
            }
            return Some(
                Resolution {
                    density_x: be_u32(bytes, data_start),
                    density_y: be_u32(bytes, data_start + 4),
                    unit: DensityUnit::PerMeter,
                },
            );
        }
        if bytes_match(bytes, cursor + 4, idat.as_slice()) || bytes_match(
            bytes,
            cursor + 4,
            iend.as_slice(),
        ) {
            return None;
        }
        if len - data_end < 12 {
            return None;
        }
        cursor = data_end + 4;
    }
    None
}

/// Walks the JPEG segments up to the APP0/JFIF header.
fn read_jpeg_jfif(bytes: &[u8]) -> (r: Option<Resolution>)
    ensures
        r == jpeg_jfif(bytes@),
{
    let len = bytes.len();
    if len < 2 || bytes[0] != 0xFF || bytes[1] != 0xD8 {
        return None;
    }
    let jfif: [u8; 5] = [0x4A, 0x46, 0x49, 0x46, 0x00];
    assert(jfif@ =~= jfif_tag());
    let mut cursor: usize = 2;
    while cursor <= len && len - cursor >= 4
        invariant
            len == bytes@.len(),
            jfif@ == jfif_tag(),
            2 <= cursor,
            jpeg_jfif(bytes@) == jpeg_jfif_from(bytes@, cursor as int),
        decreases len - cursor,
    {
        if bytes[cursor] != 0xFF {
            return None;
        }
        let marker = bytes[cursor + 1];
        if marker == 0xD8 || marker == 0x01 || (0xD0 <= marker && marker <= 0xD7) {
            cursor = cursor + 2;
            continue ;
        }
        if marker == 0xDA {
            return None;
        }
        let length = be_u16(bytes, cursor + 2) as usize;
        if length < 2 || length > len - cursor - 2 {
            return None;
        }
        let start = cursor + 4;
        let end = cursor + 2 + length;
        let ghost segment = bytes@.subrange(start as int, end as int);
        if marker == 0xE0 && end - start >= 12 && bytes_match(bytes, start, jfif.as_slice()) {
            assert(bytes@.subrange(start as int, start + 5) =~= segment.subrange(0, 5));
            let x = be_u16(bytes, start + 8);
            let y = be_u16(bytes, start + 10);
            assert(x == be16(segment, 8));
            assert(y == be16(segment, 10));
            assert(bytes[start + 7] == segment[7]);
            if x == 0 || y == 0 {
                return None;
            }
            let unit = bytes[start + 7];
            if unit == 1 {
                return Some(
                    Resolution {
                        density_x: x as u32,
                        density_y: y as u32,
                        unit: DensityUnit::PerInch,
                    },
                );
            } else if unit == 2 {
                return Some(
                    Resolution {
                        density_x: x as u32,
                        density_y: y as u32,
                        unit: DensityUnit::PerCentimeter,
                    },
                );
            } else {
                return None;
            }
        }
        proof {
            if marker == 0xE0 && end - start >= 12 {
                assert(bytes@.subrange(start as int, start + 5) =~= segment.subrange(0, 5));
            }
        }
        cursor = end;
    }
    None
}

} // verus!
