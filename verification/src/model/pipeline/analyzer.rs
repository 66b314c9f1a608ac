//! Stage 1 — **Analyzer**.
//!
//! Decodes the input image to RGBA8 and produces a description usable by
//! the rest of the chain: dimensions, resolution, source format, colour
//! statistics. The Analyzer knows no filter.

use std::path::PathBuf;
use vstd::prelude::*;

use crate::model::codec::{
    decode, decode_outcome, decoded_rgba8, guessed_format_name, unusable_decoded,
};
use crate::model::error::FiltroError;
use crate::model::pixel::{pixel_of, Dimensions, PixelBuffer};
use crate::model::resolution::{read, resolution_of, Resolution};
use crate::text::{decimal, lowercase, str_eq, str_to_string, to_lowercase};

verus! {

/// The message of an image above the pixel limit.
pub open spec fn over_limit(dims: Dimensions, limit: u64) -> Seq<char> {
    "image de "@ + dims.text() + " ("@ + decimal((dims.width * dims.height) as nat)
        + " pixels) au-delà de la limite de "@ + decimal(limit as nat) + " pixels"@
}

/// Format of the source file, as detected when reading it.
#[derive(Debug, Clone, PartialEq, Eq)]
pub enum SourceFormat {
    Png,
    Jpeg,
    Gif,
    WebP,
    Bmp,
    Tiff,
    /// A format the decoder recognises, outside the list above.
    Other(String),
    /// Undetermined format (raw stream, truncated header…).
    Unknown,
}

impl SourceFormat {
    /// Whether this is the format the decoder calls `name` (its `Debug`
    /// name, compared in lower case); `None` means no format was recognised.
    pub open spec fn is_named(self, name: Option<Seq<char>>) -> bool {
        match name {
            None => self is Unknown,
            Some(n) => {
                let l = lowercase(n);
                if l == "png"@ {
                    self is Png
                } else if l == "jpeg"@ {
                    self is Jpeg
                } else if l == "gif"@ {
                    self is Gif
                } else if l == "webp"@ {
                    self is WebP
                } else if l == "bmp"@ {
                    self is Bmp
                } else if l == "tiff"@ {
                    self is Tiff
                } else {
                    self matches SourceFormat::Other(s) && s@ == l
                }
            },
        }
    }

    /// The format the decoder calls `name`.
    pub fn from_name(name: Option<String>) -> (f: Self)
        ensures
            f.is_named(match name {
                Some(s) => Some(s@),
                None => None,
            }),
    {
        match name {
            None => SourceFormat::Unknown,
            Some(raw) => {
                let l = to_lowercase(raw.as_str());
                let s = l.as_str();
                if str_eq(s, "png") {
                    SourceFormat::Png
                } else if str_eq(s, "jpeg") {
                    SourceFormat::Jpeg
                } else if str_eq(s, "gif") {
                    SourceFormat::Gif
                } else if str_eq(s, "webp") {
                    SourceFormat::WebP
                } else if str_eq(s, "bmp") {
                    SourceFormat::Bmp
                } else if str_eq(s, "tiff") {
                    SourceFormat::Tiff
                } else {
                    SourceFormat::Other(l)
                }
            },
        }
    }

    /// The name displayed for this format.
    pub open spec fn spec_name(&self) -> Seq<char> {
        match self {
            SourceFormat::Png => "png"@,
            SourceFormat::Jpeg => "jpeg"@,
            SourceFormat::Gif => "gif"@,
            SourceFormat::WebP => "webp"@,
            SourceFormat::Bmp => "bmp"@,
            SourceFormat::Tiff => "tiff"@,
            SourceFormat::Other(name) => name@,
            SourceFormat::Unknown => "inconnu"@,
        }
    }

    /// The name displayed for this format.
    pub fn name(&self) -> (s: String)
        ensures
            s@ == self.spec_name(),
    {
        match self {
            SourceFormat::Png => str_to_string("png"),
            SourceFormat::Jpeg => str_to_string("jpeg"),
            SourceFormat::Gif => str_to_string("gif"),
            SourceFormat::WebP => str_to_string("webp"),
            SourceFormat::Bmp => str_to_string("bmp"),
            SourceFormat::Tiff => str_to_string("tiff"),
            SourceFormat::Other(name) => name.clone(),
            SourceFormat::Unknown => str_to_string("inconnu"),
        }
    }

    /// A copy of this value.
    pub fn duplicate(&self) -> (r: Self)
        ensures
            r == *self,
    {
        match self {
            SourceFormat::Png => SourceFormat::Png,
            SourceFormat::Jpeg => SourceFormat::Jpeg,
            SourceFormat::Gif => SourceFormat::Gif,
            SourceFormat::WebP => SourceFormat::WebP,
            SourceFormat::Bmp => SourceFormat::Bmp,
            SourceFormat::Tiff => SourceFormat::Tiff,
            SourceFormat::Other(name) => SourceFormat::Other(name.clone()),
            SourceFormat::Unknown => SourceFormat::Unknown,
        }
    }
}

/// `Path::file_stem` then `OsStr::to_string_lossy`. Nothing is claimed of
/// the result: how a path splits into components depends on the platform
/// (its separators), so the stem is not a function of the path's value that
/// could be named.
#[verifier::external_body]
fn path_file_stem(path: &PathBuf) -> (r: Option<String>) {
    path.file_stem().map(|s| s.to_string_lossy().into_owned())
}

/// `Path::display`, written to a `String`. Nothing is claimed of the
/// result: how a path is displayed depends on the platform.
#[verifier::external_body]
fn path_display(path: &PathBuf) -> String {
    format!("{}", path.display())
}

/// `PathBuf::clone`: the copy designates the same path.
pub assume_specification[ <PathBuf as Clone>::clone ](path: &PathBuf) -> (r: PathBuf)
    ensures
        r == *path,
;

/// The stem of output files from the file stem of a path: that stem, or
/// `image` when the path has none.
pub open spec fn stem_text(stem: Option<Seq<char>>) -> Seq<char> {
    match stem {
        Some(t) => t,
        None => "image"@,
    }
}

/// The stem of output files from the file stem the platform reads in a
/// path: that stem, or `image` when there is none.
pub fn stem_or_fallback(stem: Option<String>) -> (s: String)
    ensures
        s@ == stem_text(match stem {
            Some(t) => Some(t@),
            None => None,
        }),
{
    match stem {
        Some(t) => t,
        None => str_to_string("image"),
    }
}

/// Where the analysed image comes from.
#[derive(Debug, Clone, PartialEq, Eq)]
pub enum Origin {
    /// A file on disk.
    Path(PathBuf),
    /// An in-memory stream (standard input, test, library call).
    Memory { label: String },
}

impl Origin {
    /// Stem usable to name the output files: the label of an in-memory
    /// stream; the file stem of a path, or `image` when it has none.
    ///
    /// For a path, the file stem comes from the platform; what the library
    /// does with it is [`stem_or_fallback`].
    pub fn stem(&self) -> (s: String)
        ensures
            self matches Origin::Memory { label } ==> s@ == label@,
    {
        match self {
            Origin::Path(path) => stem_or_fallback(path_file_stem(path)),
            Origin::Memory { label } => label.clone(),
        }
    }

    /// Whether `text` can be how the origin is displayed: `<label>` for an
    /// in-memory stream; for a path, as the platform displays it.
    pub open spec fn shown_as(self, text: Seq<char>) -> bool {
        self matches Origin::Memory { label } ==> text == "<"@ + label@ + ">"@
    }

    /// The origin as displayed in messages: the path, or `<label>`.
    pub fn to_text(&self) -> (s: String)
        ensures
            self.shown_as(s@),
    {
        match self {
            Origin::Path(path) => path_display(path),
            Origin::Memory { label } => {
                let mut s = str_to_string("<");
                s.append(label.as_str());
                s.append(">");
                s
            },
        }
    }

    /// A copy of this value.
    pub fn duplicate(&self) -> (r: Self)
        ensures
            r == *self,
    {
        match self {
            Origin::Path(path) => Origin::Path(path.clone()),
            Origin::Memory { label } => Origin::Memory { label: label.clone() },
        }
    }
}

/// Statistics gathered in one pass over the pixels.
///
/// The mean luminance is `luminance_sum / pixel count`.
#[derive(Debug, Clone, Copy, PartialEq, Eq)]
pub struct ColorStats {
    /// Whether some pixel is not opaque.
    pub has_transparency: bool,
    /// Whether every pixel has r == g == b.
    pub is_grayscale: bool,
    /// Sum of the luminances of all pixels.
    pub luminance_sum: u128,
    /// Smallest and largest luminance seen.
    pub luminance_range: (u8, u8),
}

/// Sum of the luminances of the first `n` pixels.
pub open spec fn luminance_sum(bytes: Seq<u8>, n: int) -> nat
    decreases n,
{
    if n <= 0 {
        0
    } else {
        (luminance_sum(bytes, n - 1) + pixel_of(bytes, n - 1).spec_luminance()) as nat
    }
}

/// Smallest luminance of the first `n` pixels (255 for none).
pub open spec fn luminance_min(bytes: Seq<u8>, n: int) -> u8
    decreases n,
{
    if n <= 0 {
        255
    } else {
        let l = pixel_of(bytes, n - 1).spec_luminance();
        let m = luminance_min(bytes, n - 1);
        if l < m {
            l
        } else {
            m
        }
    }
}

/// Largest luminance of the first `n` pixels (0 for none).
pub open spec fn luminance_max(bytes: Seq<u8>, n: int) -> u8
    decreases n,
{
    if n <= 0 {
        0
    } else {
        let l = pixel_of(bytes, n - 1).spec_luminance();
        let m = luminance_max(bytes, n - 1);
        if l > m {
            l
        } else {
            m
        }
    }
}

/// The statistics of the first `n` pixels of `bytes`.
pub open spec fn stats_of(bytes: Seq<u8>, n: int) -> ColorStats {
    ColorStats {
        has_transparency: exists|i: int| 0 <= i < n && (#[trigger] pixel_of(bytes, i)).a != 255,
        is_grayscale: forall|i: int|
            0 <= i < n ==> (#[trigger] pixel_of(bytes, i)).r == pixel_of(bytes, i).g
                && pixel_of(bytes, i).g == pixel_of(bytes, i).b,
        luminance_sum: luminance_sum(bytes, n) as u128,
        luminance_range: (luminance_min(bytes, n), luminance_max(bytes, n)),
    }
}

proof fn lemma_luminance_sum_bound(bytes: Seq<u8>, n: int)
    ensures
        luminance_sum(bytes, n) <= 255 * (if n < 0 {
            0
        } else {
            n
        }),
    decreases n,
{
    if n > 0 {
        lemma_luminance_sum_bound(bytes, n - 1);
    }
}

/// The colour statistics of a buffer.
pub fn compute_stats(buffer: &PixelBuffer) -> (s: ColorStats)
    requires
        buffer.wf(),
    ensures
        s == stats_of(buffer.bytes(), buffer.count() as int),
{
    let pixels = buffer.pixels();
    let n = pixels.len();
    let mut has_transparency = false;
    let mut is_grayscale = true;
    let mut sum: u128 = 0;
    let mut min: u8 = 255;
    let mut max: u8 = 0;
    let mut i: usize = 0;
    while i < n
        invariant
            n == pixels@.len(),
            n == buffer.count(),
            forall|j: int| 0 <= j < n ==> #[trigger] pixels@[j] == pixel_of(buffer.bytes(), j),
            i <= n,
            has_transparency == exists|j: int|
                0 <= j < i && (#[trigger] pixel_of(buffer.bytes(), j)).a != 255,
            is_grayscale == forall|j: int|
                0 <= j < i ==> (#[trigger] pixel_of(buffer.bytes(), j)).r == pixel_of(
                    buffer.bytes(),
                    j,
                ).g && pixel_of(buffer.bytes(), j).g == pixel_of(buffer.bytes(), j).b,
            sum == luminance_sum(buffer.bytes(), i as int),
            min == luminance_min(buffer.bytes(), i as int),
            max == luminance_max(buffer.bytes(), i as int),
        decreases n - i,
    {
        let p = pixels[i];
        if p.a != 255 {
            has_transparency = true;
        }
        if p.r != p.g || p.g != p.b {
            is_grayscale = false;
        }
        let l = p.luminance();
        proof {
            lemma_luminance_sum_bound(buffer.bytes(), i as int);
        }
        sum = sum + l as u128;
        if l < min {
            min = l;
        }
        if l > max {
            max = l;
        }
        i = i + 1;
    }
    ColorStats { has_transparency, is_grayscale, luminance_sum: sum, luminance_range: (min, max) }
}

/// Description of the image, without its pixels.
#[derive(Debug, Clone, PartialEq)]
pub struct ImageMetadata {
    pub origin: Origin,
    pub source_format: SourceFormat,
    pub dimensions: Dimensions,
    pub resolution: Option<Resolution>,
    pub byte_size: usize,
    pub stats: ColorStats,
}

impl ImageMetadata {
    /// A copy of this value.
    pub fn duplicate(&self) -> (r: Self)
        ensures
            r == *self,
    {
        ImageMetadata {
            origin: self.origin.duplicate(),
            source_format: self.source_format.duplicate(),
            dimensions: self.dimensions,
            resolution: self.resolution,
            byte_size: self.byte_size,
            stats: self.stats,
        }
    }
}

/// The full result of the analysis: description and decoded pixels.
#[derive(Debug, Clone, PartialEq)]
pub struct ImageAnalysis {
    pub metadata: ImageMetadata,
    pub buffer: PixelBuffer,
}

impl ImageAnalysis {
    /// Splits the description from the pixels; used by the Constructor.
    pub fn into_parts(self) -> (r: (ImageMetadata, PixelBuffer))
        ensures
            r == (self.metadata, self.buffer),
    {
        (self.metadata, self.buffer)
    }
}

/// The analysis stage.
#[derive(Debug, Clone)]
pub struct Analyzer {
    /// Guard against oversized decompressed images (decompression bombs).
    max_pixels: Option<u64>,
}

impl Analyzer {
    pub closed spec fn limit(&self) -> Option<u64> {
        self.max_pixels
    }

    /// The default analyzer: at most 100 million pixels (about 400 MiB in
    /// RGBA8).
    pub fn new() -> (a: Self)
        ensures
            a.limit() == Some(100_000_000u64),
    {
        Analyzer { max_pixels: Some(100_000_000) }
    }

    /// Changes the accepted pixel limit (`None` = no limit).
    pub fn with_max_pixels(self, max_pixels: Option<u64>) -> (a: Self)
        ensures
            a.limit() == max_pixels,
    {
        Analyzer { max_pixels }
    }

    /// Whether an image of `dims` is accepted under the pixel limit.
    pub open spec fn accepts(&self, dims: Dimensions) -> bool {
        match self.limit() {
            Some(limit) => dims.width * dims.height <= limit,
            None => true,
        }
    }

    /// Whether a stream is analysed: not empty, decoded, and within the
    /// pixel limit.
    pub open spec fn analyzes(&self, bytes: Seq<u8>) -> bool {
        bytes.len() > 0 && decode_outcome(bytes) is Some && self.accepts(
            (decode_outcome(bytes)->0).0,
        )
    }

    /// `a` is the analysis of `bytes` coming from `origin`: the decoded
    /// pixels and their description.
    pub open spec fn analysis_of(&self, bytes: Seq<u8>, origin: Origin, a: ImageAnalysis) -> bool {
        let (dims, data) = decode_outcome(bytes)->0;
        &&& a.buffer.wf()
        &&& a.buffer.dims() == dims
        &&& a.buffer.bytes() == data
        &&& a.metadata.origin == origin
        &&& a.metadata.source_format.is_named(guessed_format_name(bytes))
        &&& a.metadata.dimensions == dims
        &&& a.metadata.resolution == resolution_of(bytes, a.metadata.source_format)
        &&& a.metadata.byte_size == bytes.len()
        &&& a.metadata.stats == stats_of(data, dims.width * dims.height)
    }

    /// Analyses a stream already in memory.
    pub fn analyze_bytes(&self, bytes: &[u8], origin: Origin) -> (r: Result<
        ImageAnalysis,
        FiltroError,
    >)
        ensures
            r is Ok <==> self.analyzes(bytes@),
            r matches Ok(a) ==> self.analysis_of(bytes@, origin, a),
            bytes@.len() == 0 ==> (r matches Err(FiltroError::InvalidImage(m)) && exists|t: Seq<char>|
                #[trigger] origin.shown_as(t) && m@ == "flux vide : "@ + t),
            bytes@.len() > 0 && decoded_rgba8(bytes@) is None ==> (r matches Err(
                FiltroError::Decode { origin: o, .. },
            ) && origin.shown_as(o@)),
            bytes@.len() > 0 && decode_outcome(bytes@) is None ==> (r matches Err(e) && (
            decoded_rgba8(bytes@) matches Some((w, h, data)) ==> unusable_decoded(e, w, h, data))),
            bytes@.len() > 0 && decode_outcome(bytes@) is Some && !self.accepts(
                (decode_outcome(bytes@)->0).0,
            ) ==> (r matches Err(FiltroError::InvalidImage(m)) && m@ == over_limit(
                (decode_outcome(bytes@)->0).0,
                self.limit()->0,
            )),
    {
        let label = origin.to_text();
        if bytes.len() == 0 {
            let mut m = str_to_string("flux vide : ");
            m.append(label.as_str());
            return Err(FiltroError::InvalidImage(m));
        }
        let (buffer, detected) = decode(bytes, label.as_str())?;
        let dimensions = buffer.dimensions();
        if let Some(limit) = self.max_pixels {
            if dimensions.pixel_count() > limit {
                return Err(
                    FiltroError::InvalidImage(
                        Self::over_limit_text(dimensions, limit),
                    ),
                );
            }
        }
        let source_format = SourceFormat::from_name(detected);
        let resolution = read(bytes, &source_format);
        let stats = compute_stats(&buffer);
        Ok(
            ImageAnalysis {
                metadata: ImageMetadata {
                    origin,
                    source_format,
                    dimensions,
                    resolution,
                    byte_size: bytes.len(),
                    stats,
                },
                buffer,
            },
        )
    }

    fn over_limit_text(dimensions: Dimensions, limit: u64) -> (m: String)
        ensures
            m@ == over_limit(dimensions, limit),
    {
        let mut m = str_to_string("image de ");
        let d = dimensions.to_text();
        m.append(d.as_str());
        m.append(" (");
        let c = crate::text::decimal_string(dimensions.pixel_count());
        m.append(c.as_str());
        m.append(" pixels) au-delà de la limite de ");
        let l = crate::text::decimal_string(limit);
        m.append(l.as_str());
        m.append(" pixels");
        m
    }
}

} // verus!
