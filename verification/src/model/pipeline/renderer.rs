//! Stage 4 — **Renderer**.
//!
//! Applies the filter chain to each variant produced by the Formatter, then
//! encodes the result. The Renderer is the only component of the core that
//! *runs* filter code, and it does so only through the
//! [`Filter`](crate::model::filter::contract::Filter) trait.

use vstd::prelude::*;

use crate::model::codec::{encode, encoding};
use crate::model::error::FiltroError;
use crate::model::filter::contract::{chain_error, chain_output, chain_succeeds, FilterChain};
use crate::model::pipeline::analyzer::ImageMetadata;
use crate::model::pipeline::formatter::{FormatSet, FormattedImage, OutputFormat, OutputTarget};
use crate::model::pixel::{flattened, Dimensions};
use crate::text::str_to_string;

verus! {

/// A final encoded image, ready to be written or served.
#[derive(Debug, Clone, PartialEq)]
pub struct RenderedArtifact {
    /// The variant this rendering comes from.
    pub target: OutputTarget,
    /// Suggested file name.
    pub file_name: String,
    /// Encoded bytes.
    pub bytes: Vec<u8>,
}

impl RenderedArtifact {
    pub fn byte_size(&self) -> (n: usize)
        ensures
            n == self.bytes@.len(),
    {
        self.bytes.len()
    }
}

/// The full result of the pipeline.
#[derive(Debug, Clone, PartialEq)]
pub struct RenderOutput {
    /// Description of the source image.
    pub metadata: ImageMetadata,
    /// Identifiers of the applied filters, in order.
    pub applied_filters: Vec<String>,
    /// One entry per variant.
    pub artifacts: Vec<RenderedArtifact>,
}

impl RenderOutput {
    pub fn is_empty(&self) -> (b: bool)
        ensures
            b == (self.artifacts@.len() == 0),
    {
        self.artifacts.len() == 0
    }

    pub fn len(&self) -> (n: usize)
        ensures
            n == self.artifacts@.len(),
    {
        self.artifacts.len()
    }
}

/// The artifact rendered from a variant (its target, canvas dimensions and
/// bytes): the chain applied to the canvas (context: `metadata` and the
/// target), the alpha flattened again for formats without alpha, then
/// encoded; the target's dimensions follow the filtered image.
pub open spec fn renders(
    a: RenderedArtifact,
    target: OutputTarget,
    dims: Dimensions,
    bytes: Seq<u8>,
    chain: FilterChain,
    metadata: ImageMetadata,
    stem: Seq<char>,
) -> bool {
    let out = chain_output(
        chain.filters(),
        chain.filters().len() as int,
        dims,
        bytes,
        metadata,
        target,
    );
    let encoded = if target.format.spec_supports_alpha() {
        out.1
    } else {
        flattened(out.1, target.options.background)
    };
    &&& a.target == OutputTarget { dimensions: out.0, ..target }
    &&& a.file_name@ == a.target.spec_file_name(stem)
    &&& encoding(target.format, encoded, out.0, target.options.quality) == Some(a.bytes@)
}

/// What an encoder receives for a variant without filters: the canvas,
/// flattened for formats without alpha.
pub open spec fn unfiltered_encoded(target: OutputTarget, bytes: Seq<u8>) -> Seq<u8> {
    if target.format.spec_supports_alpha() {
        bytes
    } else {
        flattened(bytes, target.options.background)
    }
}

/// Without any filter the renderer is a plain format converter: a variant
/// always passes the (empty) chain, and its artifact is the canvas itself,
/// flattened for formats without alpha, encoded at the variant's own
/// dimensions.
pub proof fn no_filter_is_conversion(
    a: RenderedArtifact,
    target: OutputTarget,
    dims: Dimensions,
    bytes: Seq<u8>,
    chain: FilterChain,
    metadata: ImageMetadata,
    stem: Seq<char>,
)
    requires
        chain.filters().len() == 0,
    ensures
        renders_ok(target, dims, bytes, chain, metadata) <==> encoding(
            target.format,
            unfiltered_encoded(target, bytes),
            dims,
            target.options.quality,
        ) is Some,
        renders(a, target, dims, bytes, chain, metadata, stem) <==> {
            &&& a.target == (OutputTarget { dimensions: dims, ..target })
            &&& a.file_name@ == a.target.spec_file_name(stem)
            &&& encoding(target.format, unfiltered_encoded(target, bytes), dims, target.options.quality)
                == Some(a.bytes@)
        },
{
}

/// Whether a variant (its target, canvas dimensions and bytes) renders: the
/// chain succeeds on it and the encoder accepts the result.
pub open spec fn renders_ok(
    target: OutputTarget,
    dims: Dimensions,
    bytes: Seq<u8>,
    chain: FilterChain,
    metadata: ImageMetadata,
) -> bool {
    let n = chain.filters().len() as int;
    let out = chain_output(chain.filters(), n, dims, bytes, metadata, target);
    let encoded = if target.format.spec_supports_alpha() {
        out.1
    } else {
        flattened(out.1, target.options.background)
    };
    &&& chain_succeeds(chain.filters(), n, dims, bytes, metadata, target)
    &&& encoding(target.format, encoded, out.0, target.options.quality) is Some
}

/// Whether the variant of rank `k` renders.
pub open spec fn variant_renders(
    variants: Seq<FormattedImage>,
    k: int,
    chain: FilterChain,
    metadata: ImageMetadata,
) -> bool {
    renders_ok(variants[k].target, variants[k].canvas.dims(), variants[k].canvas.bytes(), chain, metadata)
}

/// `e` is the error of the first variant that does not render: the error of
/// the first filter that fails on it, or the encoding error of the variant's
/// format.
pub open spec fn render_error(
    e: FiltroError,
    variants: Seq<FormattedImage>,
    chain: FilterChain,
    metadata: ImageMetadata,
) -> bool {
    exists|k: int|
        0 <= k < variants.len() && (forall|j: int|
            0 <= j < k ==> #[trigger] variant_renders(variants, j, chain, metadata))
            && !#[trigger] variant_renders(variants, k, chain, metadata) && (chain_succeeds(
            chain.filters(),
            chain.filters().len() as int,
            variants[k].canvas.dims(),
            variants[k].canvas.bytes(),
            metadata,
            variants[k].target,
        ) ==> encode_error(e, variants[k].target.format)) && (!chain_succeeds(
            chain.filters(),
            chain.filters().len() as int,
            variants[k].canvas.dims(),
            variants[k].canvas.bytes(),
            metadata,
            variants[k].target,
        ) ==> e == chain_error(
            chain.filters(),
            chain.filters().len() as int,
            variants[k].canvas.dims(),
            variants[k].canvas.bytes(),
            metadata,
            variants[k].target,
        ))
}

/// `e` is the error of an encoding into `format`.
pub open spec fn encode_error(e: FiltroError, format: OutputFormat) -> bool {
    e matches FiltroError::Encode { format: f, .. } && f@ == format.spec_name()
}

/// Every artifact renders the variant of the same rank, file names built on
/// `stem`.
pub open spec fn renders_all(
    artifacts: Seq<RenderedArtifact>,
    variants: Seq<FormattedImage>,
    chain: FilterChain,
    metadata: ImageMetadata,
    stem: Seq<char>,
) -> bool {
    &&& artifacts.len() == variants.len()
    &&& forall|k: int|
        0 <= k < artifacts.len() ==> renders(
            #[trigger] artifacts[k],
            variants[k].target,
            variants[k].canvas.dims(),
            variants[k].canvas.bytes(),
            chain,
            metadata,
            stem,
        )
}

/// The rendering stage.
#[derive(Debug, Clone)]
pub struct Renderer {
    stem: Option<String>,
}

impl Default for Renderer {
    fn default() -> (r: Self)
        ensures
            r.spec_stem() is None,
    {
        Renderer { stem: None }
    }
}

impl Renderer {
    /// The forced file-name stem, if any.
    pub closed spec fn spec_stem(&self) -> Option<Seq<char>> {
        match self.stem {
            Some(s) => Some(s@),
            None => None,
        }
    }

    pub fn new() -> (r: Self)
        ensures
            r.spec_stem() is None,
    {
        Renderer::default()
    }

    /// Forces the stem of the file names (by default: the source's).
    pub fn with_stem(self, stem: &str) -> (r: Self)
        ensures
            r.spec_stem() == Some(stem@),
    {
        Renderer { stem: Some(str_to_string(stem)) }
    }

    /// The stem of the file names, when it is determined without asking the
    /// file system: the forced one, else the label of an in-memory source.
    pub open spec fn known_stem(&self, metadata: ImageMetadata) -> Option<Seq<char>> {
        match self.spec_stem() {
            Some(s) => Some(s),
            None => match metadata.origin {
                crate::model::pipeline::analyzer::Origin::Memory { label } => Some(label@),
                _ => None,
            },
        }
    }

    /// Applies the chain to each variant and encodes the result.
    ///
    /// Filters run **per variant**, so a filter can adapt to the target
    /// format or dimensions through its context.
    pub fn render(&self, set: FormatSet, chain: &FilterChain, metadata: &ImageMetadata) -> (r:
        Result<RenderOutput, FiltroError>)
        requires
            forall|k: int| 0 <= k < set.variants@.len() ==> (#[trigger] set.variants@[k]).canvas.wf(),
        ensures
            r is Ok <==> forall|k: int|
                0 <= k < set.variants@.len() ==> #[trigger] variant_renders(
                    set.variants@,
                    k,
                    *chain,
                    *metadata,
                ),
            r matches Err(e) ==> render_error(e, set.variants@, *chain, *metadata),
            r matches Ok(out) ==> out.metadata == *metadata,
            r matches Ok(out) ==> out.applied_filters@.len() == chain.filters().len(),
            r matches Ok(out) ==> forall|i: int|
                0 <= i < out.applied_filters@.len() ==> #[trigger] out.applied_filters@[i]@
                    == chain.filters()[i].spec_id(),
            r matches Ok(out) ==> out.artifacts@.len() == set.variants@.len(),
            r matches Ok(out) ==> exists|stem: Seq<char>|
                #[trigger] renders_all(out.artifacts@, set.variants@, *chain, *metadata, stem)
                    && (self.known_stem(*metadata) matches Some(s) ==> stem == s),
    {
        let stem = match &self.stem {
            Some(s) => s.clone(),
            None => metadata.origin.stem(),
        };
        let n = set.variants.len();
        let mut artifacts: Vec<RenderedArtifact> = Vec::new();
        let mut i: usize = 0;
        while i < n
            invariant
                n == set.variants@.len(),
                i <= n,
                forall|k: int| 0 <= k < set.variants@.len() ==> (#[trigger] set.variants@[k]).canvas.wf(),
                self.known_stem(*metadata) matches Some(s) ==> stem@ == s,
                artifacts@.len() == i,
                forall|k: int|
                    0 <= k < i ==> #[trigger] variant_renders(set.variants@, k, *chain, *metadata),
                forall|k: int|
                    0 <= k < i ==> renders(
                        #[trigger] artifacts@[k],
                        set.variants@[k].target,
                        set.variants@[k].canvas.dims(),
                        set.variants@[k].canvas.bytes(),
                        *chain,
                        *metadata,
                        stem@,
                    ),
            decreases n - i,
        {
            let variant = &set.variants[i];
            let mut canvas = variant.canvas.duplicate();
            let mut target = variant.target.duplicate();
            match chain.apply(&mut canvas, metadata, &variant.target) {
                Ok(()) => {},
                Err(e) => {
                    assert(!variant_renders(set.variants@, i as int, *chain, *metadata));
                    assert(render_error(e, set.variants@, *chain, *metadata));
                    return Err(e);
                },
            }
            // A filter may have changed the dimensions: the target follows
            // the actual result before encoding.
            target.dimensions = canvas.dimensions();
            // Second safety pass, in case a filter brought transparency back
            // on a format without alpha.
            if !target.format.supports_alpha() {
                canvas.flatten_onto(target.options.background);
            }
            let bytes = match encode(&canvas, target.format, &target.options) {
                Ok(b) => b,
                Err(e) => {
                    assert(!variant_renders(set.variants@, i as int, *chain, *metadata));
                    assert(render_error(e, set.variants@, *chain, *metadata));
                    return Err(e);
                },
            };
            let file_name = target.file_name(stem.as_str());
            artifacts.push(RenderedArtifact { target, file_name, bytes });
            i = i + 1;
        }
        assert(renders_all(artifacts@, set.variants@, *chain, *metadata, stem@));
        let ids = chain.ids();
        let m = ids.len();
        let mut applied_filters: Vec<String> = Vec::new();
        let mut j: usize = 0;
        while j < m
            invariant
                m == ids@.len(),
                m == chain.filters().len(),
                forall|i: int| 0 <= i < m ==> #[trigger] ids@[i]@ == chain.filters()[i].spec_id(),
                j <= m,
                renders_all(artifacts@, set.variants@, *chain, *metadata, stem@),
                self.known_stem(*metadata) matches Some(s) ==> stem@ == s,
                applied_filters@.len() == j,
                forall|i: int|
                    0 <= i < j ==> #[trigger] applied_filters@[i]@ == chain.filters()[i].spec_id(),
            decreases m - j,
        {
            applied_filters.push(str_to_string(ids[j]));
            j = j + 1;
        }
        let out = RenderOutput { metadata: metadata.duplicate(), applied_filters, artifacts };
        assert(renders_all(out.artifacts@, set.variants@, *chain, *metadata, stem@));
        Ok(out)
    }
}

} // verus!
