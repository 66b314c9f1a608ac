//! Stage 2 — **Constructor**.
//!
//! Receives the analysis and the requirements of the filter chain and
//! derives a consistent working image: the only place where the source image
//! is normalised before processing. The Constructor knows no concrete
//! filter: it only reads [`FilterRequirements`].

use vstd::prelude::*;

use crate::model::codec::{
    kernel_bounded, resampling_keeps_a_uniform_colour, resize, resampled, resizes, uniform,
};
use crate::model::error::FiltroError;
use crate::model::filter::contract::{
    chain_requirements, stricter, stricter_bound, FilterChain, FilterRequirements,
};
use crate::model::pipeline::analyzer::{ImageAnalysis, ImageMetadata};
use crate::model::pixel::{Dimensions, PixelBuffer, Rgba8};

verus! {

/// Preparation policy, independent of the filters.
#[derive(Debug, Clone, Copy, PartialEq, Eq, Structural)]
pub struct ConstructionPolicy {
    /// Longest side of the working image (`None` = original size).
    pub max_dimension: Option<u32>,
    /// Background colour used when transparency must be removed.
    pub background: Rgba8,
}

impl Default for ConstructionPolicy {
    fn default() -> (p: Self)
        ensures
            p == (ConstructionPolicy {
                max_dimension: None,
                background: Rgba8 { r: 255, g: 255, b: 255, a: 255 },
            }),
    {
        ConstructionPolicy { max_dimension: None, background: Rgba8::WHITE() }
    }
}

/// Image ready to be declined by the Formatter, then rendered.
#[derive(Debug, Clone, PartialEq)]
pub struct PreparedImage {
    /// Description of the source (original dimensions included).
    pub metadata: ImageMetadata,
    /// Working image, RGBA8.
    pub canvas: PixelBuffer,
    /// Merged requirements of the chain, handed to the next stages.
    pub requirements: FilterRequirements,
    /// Background colour kept for formats without alpha.
    pub background: Rgba8,
    /// Original dimensions when the image was shrunk, `None` otherwise.
    pub resized_from: Option<Dimensions>,
}

impl PreparedImage {
    pub fn dimensions(&self) -> (d: Dimensions)
        ensures
            d == self.canvas.dims(),
    {
        self.canvas.dimensions()
    }
}

/// The preparation stage.
#[derive(Debug, Clone)]
pub struct Constructor {
    policy: ConstructionPolicy,
}

impl Default for Constructor {
    fn default() -> (c: Self)
        ensures
            c.spec_policy() == (ConstructionPolicy {
                max_dimension: None,
                background: Rgba8 { r: 255, g: 255, b: 255, a: 255 },
            }),
    {
        Constructor { policy: ConstructionPolicy::default() }
    }
}

/// The working-image size for a bound: `None` when no shrinking is needed.
pub open spec fn working_size(dims: Dimensions, bound: Option<u32>) -> Option<Dimensions> {
    match bound {
        Some(max_side) => dims.spec_scaled_to_fit(max_side),
        None => None,
    }
}

impl Constructor {
    pub closed spec fn spec_policy(&self) -> ConstructionPolicy {
        self.policy
    }

    pub fn new() -> (c: Self)
        ensures
            c.spec_policy() == (ConstructionPolicy {
                max_dimension: None,
                background: Rgba8 { r: 255, g: 255, b: 255, a: 255 },
            }),
    {
        Constructor::default()
    }

    pub fn with_policy(policy: ConstructionPolicy) -> (c: Self)
        ensures
            c.spec_policy() == policy,
    {
        Constructor { policy }
    }

    pub fn policy(&self) -> (p: ConstructionPolicy)
        ensures
            p == self.spec_policy(),
    {
        self.policy
    }

    /// The bound applied to a chain: the stricter of the policy's and the
    /// chain's.
    pub open spec fn bound(&self, chain: &FilterChain) -> Option<u32> {
        stricter(
            self.spec_policy().max_dimension,
            chain_requirements(chain.filters(), chain.filters().len() as int).max_dimension,
        )
    }

    /// Prepares the working image.
    ///
    /// The bound kept is the stricter of the application's policy and the
    /// requirements of the filter chain; the image is shrunk to it when it
    /// does not fit.
    pub fn prepare(&self, analysis: ImageAnalysis, chain: &FilterChain) -> (r: Result<
        PreparedImage,
        FiltroError,
    >)
        requires
            analysis.buffer.wf(),
        ensures
            r is Ok <==> (working_size(analysis.buffer.dims(), self.bound(chain)) matches Some(t)
                ==> resizes(analysis.buffer.dims(), t)),
            r matches Err(e) ==> (e matches FiltroError::InvalidImage(m) && m@ == "image trop grande : "@
                + working_size(analysis.buffer.dims(), self.bound(chain))->0.text()),
            r matches Ok(p) ==> {
                &&& p.metadata == analysis.metadata
                &&& p.requirements == chain_requirements(
                    chain.filters(),
                    chain.filters().len() as int,
                )
                &&& p.background == self.spec_policy().background
                &&& p.canvas.wf()
                &&& match working_size(analysis.buffer.dims(), self.bound(chain)) {
                    Some(target) => {
                        &&& p.resized_from == Some(analysis.buffer.dims())
                        &&& p.canvas.dims() == target
                        &&& resampled(
                            analysis.buffer.bytes(),
                            analysis.buffer.dims(),
                            target,
                            p.canvas.bytes(),
                        )
                    },
                    None => {
                        &&& p.resized_from is None
                        &&& p.canvas.dims() == analysis.buffer.dims()
                        &&& p.canvas.bytes() == analysis.buffer.bytes()
                    },
                }
            },
            r matches Ok(p) ==> forall|c: Rgba8|
                #[trigger] uniform(analysis.buffer.bytes(), analysis.buffer.dims(), c) && (
                p.resized_from is None || kernel_bounded(analysis.buffer.dims(), p.canvas.dims()))
                    ==> uniform(p.canvas.bytes(), p.canvas.dims(), c),
    {
        let requirements = chain.requirements();
        let (metadata, canvas) = analysis.into_parts();
        let bound = stricter_bound(self.policy.max_dimension, requirements.max_dimension);
        let mut resized_from: Option<Dimensions> = None;
        let mut canvas = canvas;
        if let Some(max_side) = bound {
            if let Some(target) = canvas.dimensions().scaled_to_fit(max_side) {
                resized_from = Some(canvas.dimensions());
                let resized = match resize(&canvas, target) {
                    Ok(c) => c,
                    Err(e) => return Err(e),
                };
                proof {
                    assert forall|c: Rgba8|
                        #[trigger] uniform(canvas.bytes(), canvas.dims(), c) && kernel_bounded(
                            canvas.dims(),
                            target,
                        ) implies uniform(resized.bytes(), target, c) by {
                        resampling_keeps_a_uniform_colour(
                            canvas.bytes(),
                            canvas.dims(),
                            target,
                            resized.bytes(),
                            c,
                        );
                    }
                }
                canvas = resized;
            }
        }
        Ok(
            PreparedImage {
                metadata,
                canvas,
                requirements,
                background: self.policy.background,
                resized_from,
            },
        )
    }
}

} // verus!
