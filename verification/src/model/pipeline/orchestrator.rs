//! Orchestration of the four stages of the core.
//!
//! ```text
//! user ─ image ─▶ Analyzer ─┐
//!                           ├─▶ Constructor ─▶ Formatter ─▶ Renderer ─▶ outputs
//! user ─ filters ─▶ Registry ┘                               (applies the filters)
//! ```
//!
//! The [`Pipeline`] is immutable and reusable for several images.

use vstd::prelude::*;

use crate::model::codec::{resampled, resizes};
use crate::model::error::FiltroError;
use crate::model::filter::contract::{chain_error, chain_requirements, chain_succeeds, FilterChain};
use crate::model::pipeline::analyzer::{Analyzer, ImageAnalysis, ImageMetadata, Origin};
use crate::model::pipeline::constructor::{working_size, ConstructionPolicy, Constructor};
use crate::model::pipeline::formatter::{
    dedup, is_variant, size_dims, too_large_for, variant_bytes, FormatOptions, Formatter,
    OutputFormat, OutputTarget, SizeVariant,
};
use crate::model::pipeline::renderer::{
    encode_error, render_error, renders, renders_ok, variant_renders, RenderOutput,
    RenderedArtifact, Renderer,
};
use crate::model::pixel::{Dimensions, Rgba8};
use crate::text::str_to_string;

verus! {

/// The whole processing chain.
#[derive(Debug, Clone)]
pub struct Pipeline {
    pub analyzer: Analyzer,
    pub constructor: Constructor,
    pub formatter: Formatter,
    pub renderer: Renderer,
}

impl Default for Pipeline {
    fn default() -> (p: Self)
        ensures
            p.analyzer.limit() == Some(100_000_000u64),
            p.constructor.spec_policy() == (ConstructionPolicy {
                max_dimension: None,
                background: Rgba8 { r: 255, g: 255, b: 255, a: 255 },
            }),
            p.formatter.spec_formats() == seq![OutputFormat::Png],
            p.formatter.spec_sizes() == seq![SizeVariant::Original],
            p.formatter.spec_options().quality == 85,
            p.renderer.spec_stem() is None,
    {
        Pipeline {
            analyzer: Analyzer::new(),
            constructor: Constructor::new(),
            formatter: Formatter::new(),
            renderer: Renderer::new(),
        }
    }
}

/// Dimensions of the working image of a source of `dims` under `bound`.
pub open spec fn working_dims(dims: Dimensions, bound: Option<u32>) -> Dimensions {
    match working_size(dims, bound) {
        Some(t) => t,
        None => dims,
    }
}

/// `w` can be the bytes of the working image of a source under `bound`: the
/// source's own bytes, or some resampling of them when it must shrink.
pub open spec fn working_bytes(bytes: Seq<u8>, dims: Dimensions, bound: Option<u32>, w: Seq<u8>) -> bool {
    match working_size(dims, bound) {
        Some(t) => resampled(bytes, dims, t, w),
        None => w == bytes,
    }
}

/// The target of variant `k` of a formatter (sizes outermost).
pub open spec fn variant_target(
    formatter: Formatter,
    k: int,
    dims: Dimensions,
    background: Rgba8,
) -> OutputTarget {
    let nf = formatter.spec_formats().len() as int;
    let size = formatter.spec_sizes()[k / nf];
    OutputTarget {
        format: formatter.spec_formats()[k % nf],
        size,
        dimensions: size_dims(dims, size),
        options: FormatOptions { quality: formatter.spec_options().quality, background },
    }
}

/// Every artifact is the rendering of the variant of the same rank of a
/// working image of `dims`, variant `k` resampled to `samples[k]`, file
/// names built on `stem`.
pub open spec fn renders_pipeline(
    artifacts: Seq<RenderedArtifact>,
    formatter: Formatter,
    dims: Dimensions,
    samples: Seq<Seq<u8>>,
    background: Rgba8,
    chain: FilterChain,
    metadata: ImageMetadata,
    stem: Seq<char>,
) -> bool {
    let nf = formatter.spec_formats().len() as int;
    &&& artifacts.len() == formatter.spec_sizes().len() * nf
    &&& forall|k: int|
        0 <= k < artifacts.len() ==> renders(
            #[trigger] artifacts[k],
            variant_target(formatter, k, dims, background),
            size_dims(dims, formatter.spec_sizes()[k / nf]),
            variant_bytes(samples[k], formatter.spec_formats()[k % nf], background),
            chain,
            metadata,
            stem,
        )
}

impl Pipeline {
    /// The default pipeline: PNG, original dimensions, no limit.
    pub fn new() -> (p: Self)
        ensures
            p.analyzer.limit() is None,
            p.constructor.spec_policy() == (ConstructionPolicy {
                max_dimension: None,
                background: Rgba8 { r: 255, g: 255, b: 255, a: 255 },
            }),
            p.formatter.spec_formats() == seq![OutputFormat::Png],
            p.formatter.spec_sizes() == seq![SizeVariant::Original],
            p.formatter.spec_options().quality == 85,
            p.renderer.spec_stem() is None,
    {
        let p = Pipeline::default();
        Pipeline { analyzer: p.analyzer.with_max_pixels(None), ..p }
    }

    pub fn builder() -> (b: PipelineBuilder)
        ensures
            b.is_fresh(),
    {
        PipelineBuilder::default()
    }

    /// `w` and `samples` can be what the resampling gives for an analysed
    /// image: `w` the working image, `samples[k]` the variant of rank `k`
    /// (size `k / F`, `F` formats) resampled from it.
    pub open spec fn resamples(
        &self,
        analysis: ImageAnalysis,
        chain: FilterChain,
        w: Seq<u8>,
        samples: Seq<Seq<u8>>,
    ) -> bool {
        let src = analysis.buffer.dims();
        let bound = self.constructor.bound(&chain);
        let dims = working_dims(src, bound);
        let nf = self.formatter.spec_formats().len() as int;
        let n = self.formatter.spec_sizes().len() * nf;
        &&& working_bytes(analysis.buffer.bytes(), src, bound, w)
        &&& samples.len() == n
        &&& forall|k: int|
            0 <= k < n ==> resampled(
                w,
                dims,
                size_dims(dims, self.formatter.spec_sizes()[k / nf]),
                #[trigger] samples[k],
            )
    }

    /// The pipeline's output for an analysed image: every (size × format)
    /// variant of a working image, rendered through the chain.
    pub open spec fn produces(
        &self,
        analysis: ImageAnalysis,
        chain: FilterChain,
        out: RenderOutput,
    ) -> bool {
        let dims = working_dims(analysis.buffer.dims(), self.constructor.bound(&chain));
        &&& out.metadata == analysis.metadata
        &&& out.applied_filters@.len() == chain.filters().len()
        &&& forall|i: int|
            0 <= i < out.applied_filters@.len() ==> #[trigger] out.applied_filters@[i]@
                == chain.filters()[i].spec_id()
        &&& exists|w: Seq<u8>, samples: Seq<Seq<u8>>, stem: Seq<char>|
            #![trigger self.resamples(analysis, chain, w, samples), renders_pipeline(out.artifacts@, self.formatter, dims, samples, self.constructor.spec_policy().background, chain, analysis.metadata, stem)]
            self.resamples(analysis, chain, w, samples) && renders_pipeline(
                out.artifacts@,
                self.formatter,
                dims,
                samples,
                self.constructor.spec_policy().background,
                chain,
                analysis.metadata,
                stem,
            ) && (self.renderer.known_stem(analysis.metadata) matches Some(s) ==> stem == s)
    }

    /// Whether the working image of an analysed image can be prepared.
    pub open spec fn prepares(&self, analysis: ImageAnalysis, chain: FilterChain) -> bool {
        working_size(analysis.buffer.dims(), self.constructor.bound(&chain)) matches Some(t)
            ==> resizes(analysis.buffer.dims(), t)
    }

    /// Whether the size of rank `k` of the working image can be resampled.
    pub open spec fn sizes_ok(&self, analysis: ImageAnalysis, chain: FilterChain, k: int) -> bool {
        let dims = working_dims(analysis.buffer.dims(), self.constructor.bound(&chain));
        resizes(dims, size_dims(dims, self.formatter.spec_sizes()[k]))
    }

    /// The target, the dimensions and the bytes of the variant of rank `k`,
    /// resampled to `samples[k]`.
    pub open spec fn variant_input(
        &self,
        analysis: ImageAnalysis,
        chain: FilterChain,
        samples: Seq<Seq<u8>>,
        k: int,
    ) -> (OutputTarget, Dimensions, Seq<u8>) {
        let dims = working_dims(analysis.buffer.dims(), self.constructor.bound(&chain));
        let background = self.constructor.spec_policy().background;
        let nf = self.formatter.spec_formats().len() as int;
        (
            variant_target(self.formatter, k, dims, background),
            size_dims(dims, self.formatter.spec_sizes()[k / nf]),
            variant_bytes(samples[k], self.formatter.spec_formats()[k % nf], background),
        )
    }

    /// Whether the variant of rank `k`, resampled to `samples[k]`, renders.
    pub open spec fn variant_ok(
        &self,
        analysis: ImageAnalysis,
        chain: FilterChain,
        samples: Seq<Seq<u8>>,
        k: int,
    ) -> bool {
        let v = self.variant_input(analysis, chain, samples, k);
        renders_ok(v.0, v.1, v.2, chain, analysis.metadata)
    }

    /// Whether the chain succeeds on the variant of rank `k`.
    pub open spec fn chain_ok(
        &self,
        analysis: ImageAnalysis,
        chain: FilterChain,
        samples: Seq<Seq<u8>>,
        k: int,
    ) -> bool {
        let v = self.variant_input(analysis, chain, samples, k);
        chain_succeeds(chain.filters(), chain.filters().len() as int, v.1, v.2, analysis.metadata, v.0)
    }

    /// The error of the first filter that fails on the variant of rank `k`.
    pub open spec fn chain_failure(
        &self,
        analysis: ImageAnalysis,
        chain: FilterChain,
        samples: Seq<Seq<u8>>,
        k: int,
    ) -> FiltroError {
        let v = self.variant_input(analysis, chain, samples, k);
        chain_error(chain.filters(), chain.filters().len() as int, v.1, v.2, analysis.metadata, v.0)
    }

    /// Whether the pipeline processes an analysed image to the end whatever
    /// the resampling gives: the working image is prepared, every size
    /// resampled and every variant rendered.
    pub open spec fn succeeds(&self, analysis: ImageAnalysis, chain: FilterChain) -> bool {
        let ns = self.formatter.spec_sizes().len() as int;
        let nf = self.formatter.spec_formats().len() as int;
        &&& self.prepares(analysis, chain)
        &&& forall|k: int| 0 <= k < ns ==> #[trigger] self.sizes_ok(analysis, chain, k)
        &&& forall|w: Seq<u8>, samples: Seq<Seq<u8>>|
            #[trigger] self.resamples(analysis, chain, w, samples) ==> forall|k: int|
                0 <= k < ns * nf ==> #[trigger] self.variant_ok(analysis, chain, samples, k)
    }

    /// `e` is the error of a run that does not succeed: the working image
    /// too large to shrink, a size too large to resample, or, for what the
    /// resampling gave, the first variant that does not render (the error of
    /// the first filter that fails on it, or the encoding error of its
    /// format).
    pub open spec fn run_error(&self, analysis: ImageAnalysis, chain: FilterChain, e: FiltroError) -> bool {
        let src = analysis.buffer.dims();
        let bound = self.constructor.bound(&chain);
        let dims = working_dims(src, bound);
        let ns = self.formatter.spec_sizes().len() as int;
        let nf = self.formatter.spec_formats().len() as int;
        if !self.prepares(analysis, chain) {
            too_large_for(e, working_size(src, bound)->0)
        } else if !(forall|k: int| 0 <= k < ns ==> #[trigger] self.sizes_ok(analysis, chain, k)) {
            exists|k: int|
                0 <= k < ns && !#[trigger] self.sizes_ok(analysis, chain, k) && too_large_for(
                    e,
                    size_dims(dims, self.formatter.spec_sizes()[k]),
                )
        } else {
            exists|w: Seq<u8>, samples: Seq<Seq<u8>>|
                #[trigger] self.resamples(analysis, chain, w, samples) && exists|k: int|
                    0 <= k < ns * nf && (forall|j: int|
                        0 <= j < k ==> #[trigger] self.variant_ok(analysis, chain, samples, j))
                        && !#[trigger] self.variant_ok(analysis, chain, samples, k) && (self.chain_ok(
                        analysis,
                        chain,
                        samples,
                        k,
                    ) ==> encode_error(e, self.formatter.spec_formats()[k % nf])) && (!self.chain_ok(
                        analysis,
                        chain,
                        samples,
                        k,
                    ) ==> e == self.chain_failure(analysis, chain, samples, k))
        }
    }

    /// Resumes the pipeline after the analysis (useful for tests and caches).
    pub fn run_analysis(&self, analysis: ImageAnalysis, chain: &FilterChain) -> (r: Result<
        RenderOutput,
        FiltroError,
    >)
        requires
            analysis.buffer.wf(),
        ensures
            self.succeeds(analysis, *chain) ==> r is Ok,
            r matches Err(e) ==> self.run_error(analysis, *chain, e),
            r matches Ok(out) ==> self.produces(analysis, *chain, out),
    {
        let ghost a = analysis;
        let prepared = match self.constructor.prepare(analysis, chain) {
            Ok(p) => p,
            Err(e) => return Err(e),
        };
        let set = match self.formatter.format(&prepared) {
            Ok(set) => set,
            Err(e) => {
                proof {
                    let k = choose|k: int|
                        0 <= k < self.formatter.spec_sizes().len() && !resizes(
                            prepared.canvas.dims(),
                            size_dims(prepared.canvas.dims(), #[trigger] self.formatter.spec_sizes()[k]),
                        ) && too_large_for(
                            e,
                            size_dims(prepared.canvas.dims(), self.formatter.spec_sizes()[k]),
                        );
                    assert(!self.sizes_ok(a, *chain, k));
                }
                return Err(e);
            },
        };
        let ghost w = prepared.canvas.bytes();
        let ghost samples = choose|samples: Seq<Seq<u8>>|
            #[trigger] self.formatter.declines(prepared, set.variants@, samples);
        proof {
            let nf = self.formatter.spec_formats().len() as int;
            let ns = self.formatter.spec_sizes().len() as int;
            assert(self.formatter.declines(prepared, set.variants@, samples));
            assert forall|k: int| 0 <= k < ns * nf implies resampled(
                w,
                prepared.canvas.dims(),
                size_dims(prepared.canvas.dims(), self.formatter.spec_sizes()[k / nf]),
                #[trigger] samples[k],
            ) by {
                assert(is_variant(
                    set.variants@[k],
                    prepared,
                    self.formatter.spec_sizes()[k / nf],
                    self.formatter.spec_formats()[k % nf],
                    self.formatter.spec_options().quality,
                    samples[k],
                ));
            }
            assert(self.resamples(a, *chain, w, samples));
            assert forall|k: int| 0 <= k < set.variants@.len() implies #[trigger] variant_renders(
                set.variants@,
                k,
                *chain,
                prepared.metadata,
            ) == self.variant_ok(a, *chain, samples, k) && (chain_succeeds(
                chain.filters(),
                chain.filters().len() as int,
                set.variants@[k].canvas.dims(),
                set.variants@[k].canvas.bytes(),
                prepared.metadata,
                set.variants@[k].target,
            ) == self.chain_ok(a, *chain, samples, k)) && chain_error(
                chain.filters(),
                chain.filters().len() as int,
                set.variants@[k].canvas.dims(),
                set.variants@[k].canvas.bytes(),
                prepared.metadata,
                set.variants@[k].target,
            ) == self.chain_failure(a, *chain, samples, k) && set.variants@[k].target.format
                == self.formatter.spec_formats()[k % nf] by {
                assert(is_variant(
                    set.variants@[k],
                    prepared,
                    self.formatter.spec_sizes()[k / nf],
                    self.formatter.spec_formats()[k % nf],
                    self.formatter.spec_options().quality,
                    samples[k],
                ));
            }
            assert forall|k: int| 0 <= k < ns implies #[trigger] self.sizes_ok(a, *chain, k) by {
                assert(resizes(
                    prepared.canvas.dims(),
                    size_dims(prepared.canvas.dims(), self.formatter.spec_sizes()[k]),
                ));
            }
        }
        let ghost vs = set.variants@;
        let out = match self.renderer.render(set, chain, &prepared.metadata) {
            Ok(out) => out,
            Err(e) => {
                proof {
                    let k = choose|k: int|
                        0 <= k < vs.len() && (forall|j: int|
                            0 <= j < k ==> #[trigger] variant_renders(vs, j, *chain, prepared.metadata))
                            && !#[trigger] variant_renders(vs, k, *chain, prepared.metadata) && (
                        chain_succeeds(
                            chain.filters(),
                            chain.filters().len() as int,
                            vs[k].canvas.dims(),
                            vs[k].canvas.bytes(),
                            prepared.metadata,
                            vs[k].target,
                        ) ==> encode_error(e, vs[k].target.format)) && (!chain_succeeds(
                            chain.filters(),
                            chain.filters().len() as int,
                            vs[k].canvas.dims(),
                            vs[k].canvas.bytes(),
                            prepared.metadata,
                            vs[k].target,
                        ) ==> e == chain_error(
                            chain.filters(),
                            chain.filters().len() as int,
                            vs[k].canvas.dims(),
                            vs[k].canvas.bytes(),
                            prepared.metadata,
                            vs[k].target,
                        ));
                    assert(!self.variant_ok(a, *chain, samples, k));
                    assert forall|j: int| 0 <= j < k implies #[trigger] self.variant_ok(
                        a,
                        *chain,
                        samples,
                        j,
                    ) by {
                        assert(variant_renders(vs, j, *chain, prepared.metadata));
                    }
                    assert(self.resamples(a, *chain, w, samples));
                }
                return Err(e);
            },
        };
        proof {
            let dims = working_dims(a.buffer.dims(), self.constructor.bound(chain));
            let nf = self.formatter.spec_formats().len() as int;
            let stem = choose|stem: Seq<char>|
                #[trigger] crate::model::pipeline::renderer::renders_all(
                    out.artifacts@,
                    vs,
                    *chain,
                    prepared.metadata,
                    stem,
                ) && (self.renderer.known_stem(prepared.metadata) matches Some(s) ==> stem == s);
            assert forall|k: int| 0 <= k < out.artifacts@.len() implies renders(
                #[trigger] out.artifacts@[k],
                variant_target(self.formatter, k, dims, self.constructor.spec_policy().background),
                size_dims(dims, self.formatter.spec_sizes()[k / nf]),
                variant_bytes(
                    samples[k],
                    self.formatter.spec_formats()[k % nf],
                    self.constructor.spec_policy().background,
                ),
                *chain,
                a.metadata,
                stem,
            ) by {
                assert(is_variant(
                    vs[k],
                    prepared,
                    self.formatter.spec_sizes()[k / nf],
                    self.formatter.spec_formats()[k % nf],
                    self.formatter.spec_options().quality,
                    samples[k],
                ));
            }
            assert(renders_pipeline(
                out.artifacts@,
                self.formatter,
                dims,
                samples,
                self.constructor.spec_policy().background,
                *chain,
                a.metadata,
                stem,
            ));
            assert(self.resamples(a, *chain, w, samples));
        }
        Ok(out)
    }

    /// Processes a stream already in memory, end to end.
    pub fn run_bytes(&self, bytes: &[u8], origin: Origin, chain: &FilterChain) -> (r: Result<
        RenderOutput,
        FiltroError,
    >)
        ensures
            bytes@.len() == 0 ==> r is Err,
            r matches Ok(out) ==> exists|a: ImageAnalysis|
                #[trigger] self.analyzer.analysis_of(bytes@, origin, a) && self.produces(a, *chain, out),
            self.analyzer.analyzes(bytes@) && (forall|a: ImageAnalysis|
                #[trigger] self.analyzer.analysis_of(bytes@, origin, a) ==> self.succeeds(a, *chain))
                ==> r is Ok,
            r matches Err(e) ==> !self.analyzer.analyzes(bytes@) || exists|a: ImageAnalysis|
                #[trigger] self.analyzer.analysis_of(bytes@, origin, a) && !self.succeeds(a, *chain)
                    && self.run_error(a, *chain, e),
    {
        let analysis = match self.analyzer.analyze_bytes(bytes, origin) {
            Ok(a) => a,
            Err(e) => return Err(e),
        };
        let ghost a = analysis;
        let out = match self.run_analysis(analysis, chain) {
            Ok(out) => out,
            Err(e) => {
                assert(self.analyzer.analysis_of(bytes@, origin, a));
                return Err(e);
            },
        };
        assert(self.analyzer.analysis_of(bytes@, origin, a));
        Ok(out)
    }
}

/// Step-by-step construction of a [`Pipeline`], with validation of the
/// settings.
#[derive(Debug, Clone)]
pub struct PipelineBuilder {
    formats: Vec<OutputFormat>,
    sizes: Vec<SizeVariant>,
    quality: Option<u8>,
    max_dimension: Option<u32>,
    max_pixels: Option<Option<u64>>,
    stem: Option<String>,
}

impl Default for PipelineBuilder {
    fn default() -> (b: Self)
        ensures
            b.is_fresh(),
    {
        PipelineBuilder {
            formats: Vec::new(),
            sizes: Vec::new(),
            quality: None,
            max_dimension: None,
            max_pixels: None,
            stem: None,
        }
    }
}

impl PipelineBuilder {
    pub closed spec fn spec_formats(&self) -> Seq<OutputFormat> {
        self.formats@
    }

    pub closed spec fn spec_sizes(&self) -> Seq<SizeVariant> {
        self.sizes@
    }

    pub closed spec fn spec_quality(&self) -> Option<u8> {
        self.quality
    }

    pub closed spec fn spec_max_dimension(&self) -> Option<u32> {
        self.max_dimension
    }

    pub closed spec fn spec_max_pixels(&self) -> Option<Option<u64>> {
        self.max_pixels
    }

    pub closed spec fn spec_stem(&self) -> Option<Seq<char>> {
        match self.stem {
            Some(s) => Some(s@),
            None => None,
        }
    }

    /// Nothing set yet.
    pub open spec fn is_fresh(&self) -> bool {
        &&& self.spec_formats().len() == 0
        &&& self.spec_sizes().len() == 0
        &&& self.spec_quality() is None
        &&& self.spec_max_dimension() is None
        &&& self.spec_max_pixels() is None
        &&& self.spec_stem() is None
    }

    pub fn formats(self, formats: Vec<OutputFormat>) -> (b: Self)
        ensures
            b.spec_formats() == formats@,
            b.spec_sizes() == self.spec_sizes(),
            b.spec_quality() == self.spec_quality(),
            b.spec_max_dimension() == self.spec_max_dimension(),
            b.spec_max_pixels() == self.spec_max_pixels(),
            b.spec_stem() == self.spec_stem(),
    {
        PipelineBuilder { formats, ..self }
    }

    pub fn sizes(self, sizes: Vec<SizeVariant>) -> (b: Self)
        ensures
            b.spec_formats() == self.spec_formats(),
            b.spec_sizes() == sizes@,
            b.spec_quality() == self.spec_quality(),
            b.spec_max_dimension() == self.spec_max_dimension(),
            b.spec_max_pixels() == self.spec_max_pixels(),
            b.spec_stem() == self.spec_stem(),
    {
        PipelineBuilder { sizes, ..self }
    }

    pub fn quality(self, quality: u8) -> (b: Self)
        ensures
            b.spec_formats() == self.spec_formats(),
            b.spec_sizes() == self.spec_sizes(),
            b.spec_quality() == Some(quality),
            b.spec_max_dimension() == self.spec_max_dimension(),
            b.spec_max_pixels() == self.spec_max_pixels(),
            b.spec_stem() == self.spec_stem(),
    {
        PipelineBuilder { quality: Some(quality), ..self }
    }

    /// Bounds the longest side of the working image.
    pub fn max_dimension(self, max_dimension: Option<u32>) -> (b: Self)
        ensures
            b.spec_formats() == self.spec_formats(),
            b.spec_sizes() == self.spec_sizes(),
            b.spec_quality() == self.spec_quality(),
            b.spec_max_dimension() == max_dimension,
            b.spec_max_pixels() == self.spec_max_pixels(),
            b.spec_stem() == self.spec_stem(),
    {
        PipelineBuilder { max_dimension, ..self }
    }

    /// Bounds the decompressed size accepted by the Analyzer.
    pub fn max_pixels(self, max_pixels: Option<u64>) -> (b: Self)
        ensures
            b.spec_formats() == self.spec_formats(),
            b.spec_sizes() == self.spec_sizes(),
            b.spec_quality() == self.spec_quality(),
            b.spec_max_dimension() == self.spec_max_dimension(),
            b.spec_max_pixels() == Some(max_pixels),
            b.spec_stem() == self.spec_stem(),
    {
        PipelineBuilder { max_pixels: Some(max_pixels), ..self }
    }

    pub fn stem(self, stem: &str) -> (b: Self)
        ensures
            b.spec_stem() == Some(stem@),
            b.spec_formats() == self.spec_formats(),
            b.spec_sizes() == self.spec_sizes(),
            b.spec_quality() == self.spec_quality(),
            b.spec_max_dimension() == self.spec_max_dimension(),
            b.spec_max_pixels() == self.spec_max_pixels(),
    {
        PipelineBuilder { stem: Some(str_to_string(stem)), ..self }
    }

    /// Validates the settings and assembles the pipeline.
    pub fn build(self) -> (r: Result<Pipeline, FiltroError>)
        ensures
            r is Ok <==> (self.spec_quality() matches Some(q) ==> 1 <= q <= 100),
            r matches Err(e) ==> e matches FiltroError::Config(m) && m@
                == Formatter::quality_text(self.spec_quality()->0),
            r matches Ok(p) ==> {
                &&& p.analyzer.limit() == (match self.spec_max_pixels() {
                    Some(l) => l,
                    None => Some(100_000_000u64),
                })
                &&& p.constructor.spec_policy() == (ConstructionPolicy {
                    max_dimension: self.spec_max_dimension(),
                    background: Rgba8 { r: 255, g: 255, b: 255, a: 255 },
                })
                &&& p.formatter.spec_formats() == (if self.spec_formats().len() == 0 {
                    seq![OutputFormat::Png]
                } else {
                    dedup(self.spec_formats())
                })
                &&& p.formatter.spec_sizes() == (if self.spec_sizes().len() == 0 {
                    seq![SizeVariant::Original]
                } else {
                    self.spec_sizes()
                })
                &&& p.formatter.spec_options() == (FormatOptions {
                    quality: match self.spec_quality() {
                        Some(q) => q,
                        None => 85,
                    },
                    background: Rgba8 { r: 255, g: 255, b: 255, a: 255 },
                })
                &&& p.renderer.spec_stem() == self.spec_stem()
            },
    {
        let mut analyzer = Analyzer::new();
        if let Some(max_pixels) = self.max_pixels {
            analyzer = analyzer.with_max_pixels(max_pixels);
        }
        let constructor = Constructor::with_policy(
            ConstructionPolicy { max_dimension: self.max_dimension, background: Rgba8::WHITE() },
        );
        let mut formatter = Formatter::new();
        if self.formats.len() > 0 {
            formatter = formatter.with_formats(self.formats)?;
        }
        formatter = formatter.with_sizes(self.sizes);
        if let Some(quality) = self.quality {
            formatter = formatter.with_quality(quality)?;
        }
        let renderer = match self.stem {
            Some(stem) => Renderer::new().with_stem(stem.as_str()),
            None => Renderer::new(),
        };
        Ok(Pipeline { analyzer, constructor, formatter, renderer })
    }
}

} // verus!
