//! Stage 3 — **Formatter**.
//!
//! Declines the prepared image into variants: (output format × size)
//! combinations. Each variant owns its buffer, already adapted to its format
//! (alpha flattened for JPEG and BMP, for instance). The Formatter knows no
//! filter: it prepares canvases, the Renderer applies the chain to them.

use vstd::prelude::*;

use crate::model::codec::{
    kernel_bounded, resampling_keeps_a_uniform_colour, resize, resampled, resizes, uniform,
};
use crate::model::error::FiltroError;
use crate::model::pipeline::constructor::PreparedImage;
use crate::model::pixel::{
    flattened, lemma_pixel_of_mapped, mapped, pixel_of, Dimensions, PixelBuffer, Rgba8,
};
use crate::text::{
    lemma_plain_word,
    decimal, decimal_string, lowercase, parse_unsigned, parse_unsigned_str, split_once,
    split_once_str, str_eq, str_to_string, to_lowercase, trim, trim_str,
};

verus! {

/// File format offered for output.
#[derive(Debug, Clone, Copy, PartialEq, Eq, Hash, Structural)]
pub enum OutputFormat {
    Png,
    Jpeg,
    WebP,
    Bmp,
    Tiff,
}

/// The output format a lower-cased name designates.
pub open spec fn format_named(l: Seq<char>) -> Option<OutputFormat> {
    if l == "png"@ {
        Some(OutputFormat::Png)
    } else if l == "jpg"@ || l == "jpeg"@ {
        Some(OutputFormat::Jpeg)
    } else if l == "webp"@ {
        Some(OutputFormat::WebP)
    } else if l == "bmp"@ {
        Some(OutputFormat::Bmp)
    } else if l == "tif"@ || l == "tiff"@ {
        Some(OutputFormat::Tiff)
    } else {
        None
    }
}

impl OutputFormat {
    /// Every supported format, in display order.
    #[allow(non_snake_case)]
    pub fn ALL() -> (a: [OutputFormat; 5])
        ensures
            a@ == seq![
                OutputFormat::Png,
                OutputFormat::Jpeg,
                OutputFormat::WebP,
                OutputFormat::Bmp,
                OutputFormat::Tiff,
            ],
    {
        let a = [
            OutputFormat::Png,
            OutputFormat::Jpeg,
            OutputFormat::WebP,
            OutputFormat::Bmp,
            OutputFormat::Tiff,
        ];
        assert(a@ =~= seq![
            OutputFormat::Png,
            OutputFormat::Jpeg,
            OutputFormat::WebP,
            OutputFormat::Bmp,
            OutputFormat::Tiff,
        ]);
        a
    }

    pub open spec fn spec_extension(self) -> Seq<char> {
        match self {
            OutputFormat::Png => "png"@,
            OutputFormat::Jpeg => "jpg"@,
            OutputFormat::WebP => "webp"@,
            OutputFormat::Bmp => "bmp"@,
            OutputFormat::Tiff => "tiff"@,
        }
    }

    /// File extension, without the dot.
    pub fn extension(self) -> (e: &'static str)
        ensures
            e@ == self.spec_extension(),
    {
        match self {
            OutputFormat::Png => "png",
            OutputFormat::Jpeg => "jpg",
            OutputFormat::WebP => "webp",
            OutputFormat::Bmp => "bmp",
            OutputFormat::Tiff => "tiff",
        }
    }

    pub open spec fn spec_name(self) -> Seq<char> {
        match self {
            OutputFormat::Png => "png"@,
            OutputFormat::Jpeg => "jpeg"@,
            OutputFormat::WebP => "webp"@,
            OutputFormat::Bmp => "bmp"@,
            OutputFormat::Tiff => "tiff"@,
        }
    }

    /// The name displayed for this format.
    pub fn name(self) -> (n: &'static str)
        ensures
            n@ == self.spec_name(),
    {
        match self {
            OutputFormat::Png => "png",
            OutputFormat::Jpeg => "jpeg",
            OutputFormat::WebP => "webp",
            OutputFormat::Bmp => "bmp",
            OutputFormat::Tiff => "tiff",
        }
    }

    pub open spec fn spec_supports_alpha(self) -> bool {
        self is Png || self is WebP || self is Tiff
    }

    /// Whether the format carries an alpha channel.
    pub fn supports_alpha(self) -> (b: bool)
        ensures
            b == self.spec_supports_alpha(),
    {
        match self {
            OutputFormat::Png | OutputFormat::WebP | OutputFormat::Tiff => true,
            _ => false,
        }
    }

    /// Whether the format is lossy (the quality setting applies).
    pub fn is_lossy(self) -> (b: bool)
        ensures
            b == (self is Jpeg),
    {
        match self {
            OutputFormat::Jpeg => true,
            _ => false,
        }
    }

    /// Reads a format name (`png`, `jpg`, `jpeg`, `webp`, `bmp`, `tif`,
    /// `tiff`), ignoring case and surrounding whitespace.
    pub fn parse(raw: &str) -> (r: Result<Self, FiltroError>)
        ensures
            match format_named(lowercase(trim(raw@))) {
                Some(f) => r == Ok::<OutputFormat, FiltroError>(f),
                None => r matches Err(FiltroError::UnknownFormat(s)) && s@ == lowercase(
                    trim(raw@),
                ),
            },
    {
        let l = to_lowercase(trim_str(raw));
        let s = l.as_str();
        if str_eq(s, "png") {
            Ok(OutputFormat::Png)
        } else if str_eq(s, "jpg") || str_eq(s, "jpeg") {
            Ok(OutputFormat::Jpeg)
        } else if str_eq(s, "webp") {
            Ok(OutputFormat::WebP)
        } else if str_eq(s, "bmp") {
            Ok(OutputFormat::Bmp)
        } else if str_eq(s, "tif") || str_eq(s, "tiff") {
            Ok(OutputFormat::Tiff)
        } else {
            Err(FiltroError::UnknownFormat(l))
        }
    }
}

/// Encoding settings shared by a variant.
#[derive(Debug, Clone, Copy, PartialEq, Eq, Structural)]
pub struct FormatOptions {
    /// Quality 1–100 of lossy formats.
    pub quality: u8,
    /// Background applied when the format has no transparency.
    pub background: Rgba8,
}

impl Default for FormatOptions {
    fn default() -> (o: Self)
        ensures
            o == (FormatOptions { quality: 85, background: Rgba8 { r: 255, g: 255, b: 255, a: 255 } }),
    {
        FormatOptions { quality: 85, background: Rgba8::WHITE() }
    }
}

/// Requested size variant.
#[derive(Debug, Clone, PartialEq, Eq)]
pub enum SizeVariant {
    /// Dimensions of the working image.
    Original,
    /// Reduced to fit a square box of `max_side` pixels.
    Bounded { label: String, max_side: u32 },
}

/// What an expression `label:side` describes: the label and side of a
/// bounded variant, or the message of the configuration error.
pub open spec fn size_expression(e: Seq<char>) -> Result<(Seq<char>, u32), Seq<char>> {
    match split_once(e, ':') {
        None => Err("déclinaison « "@ + e + " » mal formée (attendu étiquette:pixels)"@),
        Some((l, s)) => {
            let label = trim(l);
            let side = trim(s);
            if label.len() == 0 {
                Err("étiquette de déclinaison vide"@)
            } else {
                match parse_unsigned(side, u32::MAX as nat) {
                    None => Err("« "@ + side + " » n'est pas un nombre de pixels"@),
                    Some(n) => if n == 0 {
                        Err("la taille d'une déclinaison doit être supérieure à zéro"@)
                    } else {
                        Ok((label, n as u32))
                    },
                }
            }
        },
    }
}

impl SizeVariant {
    pub open spec fn spec_label(&self) -> Seq<char> {
        match self {
            SizeVariant::Original => "original"@,
            SizeVariant::Bounded { label, .. } => label@,
        }
    }

    pub fn label(&self) -> (s: &str)
        ensures
            s@ == self.spec_label(),
    {
        match self {
            SizeVariant::Original => "original",
            SizeVariant::Bounded { label, .. } => label.as_str(),
        }
    }

    /// A copy of this value.
    pub fn duplicate(&self) -> (r: Self)
        ensures
            r == *self,
    {
        match self {
            SizeVariant::Original => SizeVariant::Original,
            SizeVariant::Bounded { label, max_side } => SizeVariant::Bounded {
                label: label.clone(),
                max_side: *max_side,
            },
        }
    }

    /// Reads an expression `label:side`, for instance `vignette:256`.
    pub fn parse(expression: &str) -> (r: Result<Self, FiltroError>)
        ensures
            match size_expression(expression@) {
                Ok((l, m)) => r matches Ok(SizeVariant::Bounded { label, max_side }) && label@ == l
                    && max_side == m,
                Err(msg) => r matches Err(FiltroError::Config(c)) && c@ == msg,
            },
    {
        let (label, side) = match split_once_str(expression, ':') {
            Some(parts) => parts,
            None => {
                let mut m = str_to_string("déclinaison « ");
                m.append(expression);
                m.append(" » mal formée (attendu étiquette:pixels)");
                return Err(FiltroError::Config(m));
            },
        };
        let label = trim_str(label);
        if label.unicode_len() == 0 {
            return Err(FiltroError::Config(str_to_string("étiquette de déclinaison vide")));
        }
        let side = trim_str(side);
        let max_side = match parse_unsigned_str(side, u32::MAX as u64) {
            Some(v) => v as u32,
            None => {
                let mut m = str_to_string("« ");
                m.append(side);
                m.append(" » n'est pas un nombre de pixels");
                return Err(FiltroError::Config(m));
            },
        };
        if max_side == 0 {
            return Err(
                FiltroError::Config(
                    str_to_string("la taille d'une déclinaison doit être supérieure à zéro"),
                ),
            );
        }
        Ok(SizeVariant::Bounded { label: str_to_string(label), max_side })
    }
}

/// Identity of an output variant, handed to the filters through their
/// context.
#[derive(Debug, Clone, PartialEq)]
pub struct OutputTarget {
    pub format: OutputFormat,
    pub size: SizeVariant,
    pub dimensions: Dimensions,
    pub options: FormatOptions,
}

impl OutputTarget {
    /// The file name built from a stem: `stem.ext` or `stem-label.ext`.
    pub open spec fn spec_file_name(&self, stem: Seq<char>) -> Seq<char> {
        match self.size {
            SizeVariant::Original => stem + "."@ + self.format.spec_extension(),
            SizeVariant::Bounded { label, .. } => stem + "-"@ + label@ + "."@
                + self.format.spec_extension(),
        }
    }

    /// File name built from a stem.
    pub fn file_name(&self, stem: &str) -> (s: String)
        ensures
            s@ == self.spec_file_name(stem@),
    {
        let mut s = str_to_string(stem);
        match &self.size {
            SizeVariant::Original => {},
            SizeVariant::Bounded { label, .. } => {
                s.append("-");
                s.append(label.as_str());
            },
        }
        s.append(".");
        s.append(self.format.extension());
        s
    }

    /// A copy of this value.
    pub fn duplicate(&self) -> (r: Self)
        ensures
            r == *self,
    {
        OutputTarget {
            format: self.format,
            size: self.size.duplicate(),
            dimensions: self.dimensions,
            options: self.options,
        }
    }
}

/// A variant ready to be filtered then encoded.
#[derive(Debug, Clone, PartialEq)]
pub struct FormattedImage {
    pub target: OutputTarget,
    pub canvas: PixelBuffer,
}

/// Every variant declined from one prepared image.
#[derive(Debug, Clone, PartialEq)]
pub struct FormatSet {
    pub variants: Vec<FormattedImage>,
}

impl FormatSet {
    pub fn len(&self) -> (n: usize)
        ensures
            n == self.variants@.len(),
    {
        self.variants.len()
    }

    pub fn is_empty(&self) -> (b: bool)
        ensures
            b == (self.variants@.len() == 0),
    {
        self.variants.len() == 0
    }
}

/// The sequence with runs of equal consecutive items reduced to one item
/// (`Vec::dedup`).
pub open spec fn dedup(s: Seq<OutputFormat>) -> Seq<OutputFormat>
    decreases s.len(),
{
    if s.len() <= 1 {
        s
    } else if s.last() == s[s.len() - 2] {
        dedup(s.drop_last())
    } else {
        dedup(s.drop_last()).push(s.last())
    }
}

proof fn lemma_dedup_last(s: Seq<OutputFormat>)
    requires
        s.len() > 0,
    ensures
        dedup(s).len() > 0,
        dedup(s).last() == s.last(),
    decreases s.len(),
{
    if s.len() > 1 {
        lemma_dedup_last(s.drop_last());
    }
}

/// Dimensions of a size variant of an image of `dims`.
/// `e` is the error of an image of `dims` too large to be resampled.
pub open spec fn too_large_for(e: FiltroError, dims: Dimensions) -> bool {
    e matches FiltroError::InvalidImage(m) && m@ == "image trop grande : "@ + dims.text()
}

/// The dimensions of the variant `size` of an image of `dims`.
pub open spec fn size_dims(dims: Dimensions, size: SizeVariant) -> Dimensions {
    match size {
        SizeVariant::Original => dims,
        SizeVariant::Bounded { max_side, .. } => match dims.spec_scaled_to_fit(max_side) {
            Some(t) => t,
            None => dims,
        },
    }
}

/// The bytes of a variant from its resampled bytes: flattened onto the
/// background when its format has no alpha channel.
pub open spec fn variant_bytes(sampled: Seq<u8>, format: OutputFormat, background: Rgba8) -> Seq<u8> {
    if format.spec_supports_alpha() {
        sampled
    } else {
        flattened(sampled, background)
    }
}

/// `sampled` can be the image `prepared` resampled to the size `size`.
pub open spec fn sampled_for(prepared: PreparedImage, size: SizeVariant, sampled: Seq<u8>) -> bool {
    resampled(
        prepared.canvas.bytes(),
        prepared.canvas.dims(),
        size_dims(prepared.canvas.dims(), size),
        sampled,
    )
}

/// The variant declined from `prepared` for a size and a format, from the
/// resampled bytes `sampled`.
pub open spec fn is_variant(
    v: FormattedImage,
    prepared: PreparedImage,
    size: SizeVariant,
    format: OutputFormat,
    quality: u8,
    sampled: Seq<u8>,
) -> bool {
    let dims = size_dims(prepared.canvas.dims(), size);
    &&& v.target.format == format
    &&& v.target.size == size
    &&& v.target.dimensions == dims
    &&& v.target.options == (FormatOptions { quality, background: prepared.background })
    &&& v.canvas.wf()
    &&& v.canvas.dims() == dims
    &&& v.canvas.bytes() == variant_bytes(sampled, format, prepared.background)
}

proof fn lemma_index(si: int, fi: int, nf: int)
    requires
        0 <= si,
        0 <= fi < nf,
    ensures
        (si * nf + fi) / nf == si,
        (si * nf + fi) % nf == fi,
{
    vstd::arithmetic::div_mod::lemma_fundamental_div_mod_converse(si * nf + fi, nf, si, fi);
}

/// The variants of one size share their resampled bytes: ranks with the
/// same quotient by `nf` hold the same sample.
pub open spec fn shared(samples: Seq<Seq<u8>>, nf: int) -> bool {
    forall|k: int, l: int|
        0 <= k < samples.len() && 0 <= l < samples.len() && k / nf == l / nf ==> #[trigger] samples[k]
            == #[trigger] samples[l]
}

/// The rank of a variant before size `si` has a smaller quotient; one of
/// size `si` has quotient `si`.
proof fn lemma_quotient(k: int, si: int, nf: int)
    requires
        0 <= k < si * nf + nf,
        nf > 0,
        si >= 0,
    ensures
        k < si * nf ==> k / nf < si,
        k >= si * nf ==> k / nf == si,
{
    if k >= si * nf {
        lemma_index(si, k - si * nf, nf);
    } else {
        assert(k / nf < si) by (nonlinear_arith)
            requires
                0 <= k < si * nf,
                nf > 0,
        {
            vstd::arithmetic::div_mod::lemma_fundamental_div_mod(k, nf);
            assert(k / nf * nf <= k) by (nonlinear_arith)
                requires
                    k == nf * (k / nf) + k % nf,
                    0 <= k % nf,
            ;
        }
    }
}

/// Pushing the sample of size `si` keeps the samples shared.
proof fn lemma_share_push(samples: Seq<Seq<u8>>, x: Seq<u8>, si: int, fi: int, nf: int)
    requires
        samples.len() == si * nf + fi,
        0 <= fi < nf,
        si >= 0,
        shared(samples, nf),
        forall|k: int| si * nf <= k < samples.len() ==> #[trigger] samples[k] == x,
    ensures
        shared(samples.push(x), nf),
        forall|k: int| si * nf <= k < samples.len() + 1 ==> #[trigger] samples.push(x)[k] == x,
{
    let t = samples.push(x);
    assert forall|k: int| si * nf <= k < samples.len() + 1 implies #[trigger] t[k] == x by {}
    assert forall|k: int, l: int|
        0 <= k < t.len() && 0 <= l < t.len() && k / nf == l / nf implies #[trigger] t[k]
        == #[trigger] t[l] by {
        lemma_quotient(k, si, nf);
        lemma_quotient(l, si, nf);
        if k < samples.len() && l < samples.len() {
            assert(samples[k] == samples[l]);
        }
    }
}

/// The declination stage.
#[derive(Debug, Clone)]
pub struct Formatter {
    formats: Vec<OutputFormat>,
    sizes: Vec<SizeVariant>,
    options: FormatOptions,
}

impl Default for Formatter {
    fn default() -> (f: Self)
        ensures
            f.spec_formats() == seq![OutputFormat::Png],
            f.spec_sizes() == seq![SizeVariant::Original],
            f.spec_options() == (FormatOptions {
                quality: 85,
                background: Rgba8 { r: 255, g: 255, b: 255, a: 255 },
            }),
    {
        let mut formats: Vec<OutputFormat> = Vec::new();
        formats.push(OutputFormat::Png);
        let mut sizes: Vec<SizeVariant> = Vec::new();
        sizes.push(SizeVariant::Original);
        assert(formats@ =~= seq![OutputFormat::Png]);
        assert(sizes@ =~= seq![SizeVariant::Original]);
        Formatter { formats, sizes, options: FormatOptions::default() }
    }
}

impl Formatter {
    pub closed spec fn spec_formats(&self) -> Seq<OutputFormat> {
        self.formats@
    }

    pub closed spec fn spec_sizes(&self) -> Seq<SizeVariant> {
        self.sizes@
    }

    pub closed spec fn spec_options(&self) -> FormatOptions {
        self.options
    }

    pub fn new() -> (f: Self)
        ensures
            f.spec_formats() == seq![OutputFormat::Png],
            f.spec_sizes() == seq![SizeVariant::Original],
            f.spec_options() == (FormatOptions {
                quality: 85,
                background: Rgba8 { r: 255, g: 255, b: 255, a: 255 },
            }),
    {
        Formatter::default()
    }

    /// Sets the produced formats (at least one); consecutive repetitions
    /// are dropped.
    pub fn with_formats(self, formats: Vec<OutputFormat>) -> (r: Result<Self, FiltroError>)
        ensures
            formats@.len() == 0 ==> (r matches Err(FiltroError::Config(m)) && m@
                == "au moins un format de sortie est requis"@),
            r matches Ok(f) ==> formats@.len() > 0 && f.spec_formats() == dedup(formats@)
                && f.spec_sizes() == self.spec_sizes() && f.spec_options()
                == self.spec_options(),
            formats@.len() > 0 ==> r is Ok,
    {
        let n = formats.len();
        if n == 0 {
            return Err(
                FiltroError::Config(str_to_string("au moins un format de sortie est requis")),
            );
        }
        let mut kept: Vec<OutputFormat> = Vec::new();
        kept.push(formats[0]);
        assert(formats@.subrange(0, 1) =~= seq![formats@[0]]);
        let mut i: usize = 1;
        while i < n
            invariant
                n == formats@.len(),
                1 <= i <= n,
                kept@ == dedup(formats@.subrange(0, i as int)),
                kept@.len() > 0,
                kept@.last() == formats@[i - 1],
            decreases n - i,
        {
            let ghost prefix = formats@.subrange(0, i + 1);
            assert(prefix.drop_last() =~= formats@.subrange(0, i as int));
            if formats[i] != kept[kept.len() - 1] {
                kept.push(formats[i]);
            }
            proof {
                lemma_dedup_last(prefix);
            }
            i = i + 1;
        }
        assert(formats@.subrange(0, n as int) =~= formats@);
        Ok(Formatter { formats: kept, sizes: self.sizes, options: self.options })
    }

    /// Sets the size variants (`Original` when the list is empty).
    pub fn with_sizes(self, sizes: Vec<SizeVariant>) -> (f: Self)
        ensures
            f.spec_sizes() == (if sizes@.len() == 0 {
                seq![SizeVariant::Original]
            } else {
                sizes@
            }),
            f.spec_formats() == self.spec_formats(),
            f.spec_options() == self.spec_options(),
    {
        if sizes.len() == 0 {
            let mut only: Vec<SizeVariant> = Vec::new();
            only.push(SizeVariant::Original);
            assert(only@ =~= seq![SizeVariant::Original]);
            Formatter { formats: self.formats, sizes: only, options: self.options }
        } else {
            Formatter { formats: self.formats, sizes, options: self.options }
        }
    }

    /// The message of an out-of-range quality.
    pub open spec fn quality_text(quality: u8) -> Seq<char> {
        "qualité "@ + decimal(quality as nat) + " hors de l'intervalle 1–100"@
    }

    /// Sets the encoding quality of lossy formats (1–100).
    pub fn with_quality(self, quality: u8) -> (r: Result<Self, FiltroError>)
        ensures
            r is Ok <==> 1 <= quality <= 100,
            r matches Ok(f) ==> f.spec_options() == (FormatOptions {
                quality,
                ..self.spec_options()
            }) && f.spec_formats() == self.spec_formats() && f.spec_sizes()
                == self.spec_sizes(),
            r matches Err(e) ==> e matches FiltroError::Config(m) && m@ == Self::quality_text(
                quality,
            ),
    {
        if quality < 1 || quality > 100 {
            let mut m = str_to_string("qualité ");
            let q = decimal_string(quality as u64);
            m.append(q.as_str());
            m.append(" hors de l'intervalle 1–100");
            return Err(FiltroError::Config(m));
        }
        let options = FormatOptions { quality, background: self.options.background };
        Ok(Formatter { formats: self.formats, sizes: self.sizes, options })
    }

    pub fn formats(&self) -> (s: &[OutputFormat])
        ensures
            s@ == self.spec_formats(),
    {
        self.formats.as_slice()
    }

    pub fn sizes(&self) -> (s: &[SizeVariant])
        ensures
            s@ == self.spec_sizes(),
    {
        self.sizes.as_slice()
    }

    /// The canvas of one size variant.
    fn sized_canvas(prepared: &PreparedImage, size: &SizeVariant) -> (r: Result<
        PixelBuffer,
        FiltroError,
    >)
        requires
            prepared.canvas.wf(),
        ensures
            r is Ok <==> resizes(prepared.canvas.dims(), size_dims(prepared.canvas.dims(), *size)),
            r matches Ok(b) ==> b.wf() && b.dims() == size_dims(prepared.canvas.dims(), *size)
                && sampled_for(*prepared, *size, b.bytes()),
            r matches Err(e) ==> too_large_for(e, size_dims(prepared.canvas.dims(), *size)),
    {
        match size {
            SizeVariant::Original => Ok(prepared.canvas.duplicate()),
            SizeVariant::Bounded { max_side, .. } => {
                match prepared.canvas.dimensions().scaled_to_fit(*max_side) {
                    Some(target) => {
                        resize(&prepared.canvas, target)
                    },
                    None => Ok(prepared.canvas.duplicate()),
                }
            },
        }
    }

    /// Produces every variant (size × format), sizes in the outer order:
    /// variant `k` is size `k / F` in format `k % F`, `F` formats.
    ///
    /// The resampling is computed once per size and shared by the formats.
    pub fn format(&self, prepared: &PreparedImage) -> (r: Result<FormatSet, FiltroError>)
        requires
            prepared.canvas.wf(),
        ensures
            r is Ok <==> forall|k: int|
                0 <= k < self.spec_sizes().len() ==> resizes(
                    prepared.canvas.dims(),
                    size_dims(prepared.canvas.dims(), #[trigger] self.spec_sizes()[k]),
                ),
            r matches Err(e) ==> exists|k: int|
                0 <= k < self.spec_sizes().len() && !resizes(
                    prepared.canvas.dims(),
                    size_dims(prepared.canvas.dims(), #[trigger] self.spec_sizes()[k]),
                ) && too_large_for(e, size_dims(prepared.canvas.dims(), self.spec_sizes()[k])),
            r is Ok ==> exists|samples: Seq<Seq<u8>>|
                #[trigger] self.declines(*prepared, r->Ok_0.variants@, samples),
    {
        let ns = self.sizes.len();
        let nf = self.formats.len();
        let options = FormatOptions {
            quality: self.options.quality,
            background: prepared.background,
        };
        let mut variants: Vec<FormattedImage> = Vec::new();
        let ghost mut samples: Seq<Seq<u8>> = Seq::empty();
        let mut si: usize = 0;
        while si < ns
            invariant
                ns == self.spec_sizes().len(),
                nf == self.spec_formats().len(),
                si <= ns,
                prepared.canvas.wf(),
                options == (FormatOptions {
                    quality: self.spec_options().quality,
                    background: prepared.background,
                }),
                variants@.len() == si * nf,
                forall|k: int|
                    0 <= k < si ==> resizes(
                        prepared.canvas.dims(),
                        size_dims(prepared.canvas.dims(), #[trigger] self.spec_sizes()[k]),
                    ),
                samples.len() == variants@.len(),
                shared(samples, nf as int),
                forall|k: int|
                    0 <= k < variants@.len() ==> is_variant(
                        #[trigger] variants@[k],
                        *prepared,
                        self.spec_sizes()[k / nf as int],
                        self.spec_formats()[k % nf as int],
                        self.spec_options().quality,
                        samples[k],
                    ) && sampled_for(*prepared, self.spec_sizes()[k / nf as int], samples[k]),
            decreases ns - si,
        {
            let size = &self.sizes[si];
            let canvas = match Self::sized_canvas(prepared, size) {
                Ok(c) => c,
                Err(e) => return Err(e),
            };
            let dimensions = canvas.dimensions();
            let mut fi: usize = 0;
            while fi < nf
                invariant
                    ns == self.spec_sizes().len(),
                    nf == self.spec_formats().len(),
                    si < ns,
                    fi <= nf,
                    *size == self.spec_sizes()[si as int],
                    canvas.wf(),
                    dimensions == canvas.dims(),
                    canvas.dims() == size_dims(prepared.canvas.dims(), *size),
                    sampled_for(*prepared, *size, canvas.bytes()),
                    options == (FormatOptions {
                        quality: self.spec_options().quality,
                        background: prepared.background,
                    }),
                    variants@.len() == si * nf + fi,
                    samples.len() == variants@.len(),
                    shared(samples, nf as int),
                    forall|k: int|
                        si * nf <= k < samples.len() ==> #[trigger] samples[k] == canvas.bytes(),
                    forall|k: int|
                        0 <= k < variants@.len() ==> is_variant(
                            #[trigger] variants@[k],
                            *prepared,
                            self.spec_sizes()[k / nf as int],
                            self.spec_formats()[k % nf as int],
                            self.spec_options().quality,
                            samples[k],
                        ) && sampled_for(*prepared, self.spec_sizes()[k / nf as int], samples[k]),
                decreases nf - fi,
            {
                let format = self.formats[fi];
                let mut variant_canvas = canvas.duplicate();
                if !format.supports_alpha() {
                    variant_canvas.flatten_onto(options.background);
                }
                let target = OutputTarget {
                    format,
                    size: size.duplicate(),
                    dimensions,
                    options,
                };
                proof {
                    lemma_index(si as int, fi as int, nf as int);
                }
                variants.push(FormattedImage { target, canvas: variant_canvas });
                proof {
                    lemma_share_push(samples, canvas.bytes(), si as int, fi as int, nf as int);
                    samples = samples.push(canvas.bytes());
                }
                proof {
                    assert(si * nf + fi + 1 <= ns * nf) by (nonlinear_arith)
                        requires
                            si < ns,
                            fi < nf,
                    ;
                }
                fi = fi + 1;
            }
            proof {
                assert((si + 1) * nf == si * nf + nf) by (nonlinear_arith);
            }
            si = si + 1;
        }
        let set = FormatSet { variants };
        let ghost vs = set.variants@;
        assert(self.declines(*prepared, vs, samples));
        let r: Result<FormatSet, FiltroError> = Ok(set);
        assert(r->Ok_0.variants@ == vs);
        assert(self.declines(*prepared, r->Ok_0.variants@, samples));
        r
    }

    /// `variants` are every (size × format) variant declined from
    /// `prepared`, sizes in the outer order, variant `k` from the resampled
    /// bytes `samples[k]`; the variants of one size share one resampling.
    pub open spec fn declines(
        &self,
        prepared: PreparedImage,
        variants: Seq<FormattedImage>,
        samples: Seq<Seq<u8>>,
    ) -> bool {
        let nf = self.spec_formats().len();
        &&& variants.len() == self.spec_sizes().len() * nf
        &&& samples.len() == variants.len()
        &&& shared(samples, nf as int)
        &&& forall|k: int|
            0 <= k < variants.len() ==> is_variant(
                #[trigger] variants[k],
                prepared,
                self.spec_sizes()[k / nf as int],
                self.spec_formats()[k % nf as int],
                self.spec_options().quality,
                samples[k],
            ) && sampled_for(prepared, self.spec_sizes()[k / nf as int], samples[k])
    }
}

/// Every variant declined from an image of one colour has that colour,
/// laid over the background for the formats without alpha (for bounded
/// sizes): a variant is the whole image resampled, not a part of it.
pub proof fn variants_of_a_uniform_image_are_uniform(
    formatter: Formatter,
    prepared: PreparedImage,
    variants: Seq<FormattedImage>,
    samples: Seq<Seq<u8>>,
    k: int,
    c: Rgba8,
)
    requires
        formatter.declines(prepared, variants, samples),
        0 <= k < variants.len(),
        prepared.canvas.wf(),
        uniform(prepared.canvas.bytes(), prepared.canvas.dims(), c),
        prepared.canvas.dims() == variants[k].canvas.dims() || kernel_bounded(
            prepared.canvas.dims(),
            variants[k].canvas.dims(),
        ),
    ensures
        uniform(
            variants[k].canvas.bytes(),
            variants[k].canvas.dims(),
            if variants[k].target.format.spec_supports_alpha() {
                c
            } else {
                c.spec_over(prepared.background)
            },
        ),
{
    let nf = formatter.spec_formats().len() as int;
    let v = variants[k];
    let s = samples[k];
    let d = v.canvas.dims();
    let bg = prepared.background;
    assert(is_variant(
        v,
        prepared,
        formatter.spec_sizes()[k / nf],
        formatter.spec_formats()[k % nf],
        formatter.spec_options().quality,
        s,
    ));
    resampling_keeps_a_uniform_colour(prepared.canvas.bytes(), prepared.canvas.dims(), d, s, c);
    if !v.target.format.spec_supports_alpha() {
        let g = |p: Rgba8| p.spec_over(bg);
        assert(flattened(s, bg) =~= mapped(s, g));
        assert(s.len() == d.width * d.height * 4);
        assert forall|x: int, y: int|
            0 <= x < d.width && 0 <= y < d.height implies #[trigger] pixel_of(
            v.canvas.bytes(),
            y * d.width + x,
        ) == c.spec_over(bg) by {
            assert(y * d.width + x < d.width * d.height) by (nonlinear_arith)
                requires
                    0 <= x < d.width,
                    0 <= y < d.height,
            ;
            assert(0 <= y * d.width) by (nonlinear_arith)
                requires
                    0 <= y,
                    0 <= d.width,
            ;
            assert(pixel_of(s, y * d.width + x) == c);
            lemma_pixel_of_mapped(s, g, y * d.width + x);
        }
    }
}

/// The name and the extension of every format read back as that format.
pub proof fn format_names_read_back(f: OutputFormat)
    ensures
        format_named(lowercase(trim(f.spec_name()))) == Some(f),
        format_named(lowercase(trim(f.spec_extension()))) == Some(f),
{
    reveal_strlit("png");
    reveal_strlit("jpg");
    reveal_strlit("jpeg");
    reveal_strlit("webp");
    reveal_strlit("bmp");
    reveal_strlit("tif");
    reveal_strlit("tiff");
    lemma_plain_word(f.spec_name());
    lemma_plain_word(f.spec_extension());
}

} // verus!
