//! Filtro: image processing organised as four stable stages, plus a set of
//! filters that live outside those stages.
//!
//! | Stage | Role | Input | Output |
//! |-------|------|-------|--------|
//! | [`Analyzer`] | decodes and describes the image | bytes | [`ImageAnalysis`] |
//! | [`Constructor`] | prepares the working image | analysis + filter requirements | [`PreparedImage`] |
//! | [`Formatter`] | declines formats and sizes | prepared image | [`FormatSet`] |
//! | [`Renderer`] | applies the filters and encodes | variants + chain | [`RenderOutput`] |
//!
//! The filters shipped with the project are grouped in [`filters`]: that
//! module only uses the public API below, and no stage of the pipeline
//! refers to it.

pub mod controller;
pub mod filters;
pub mod model;
pub mod red;
pub mod rounding;
pub mod text;
pub mod view;

pub use crate::model::error::FiltroError;
pub use crate::model::filter::contract::{Filter, FilterChain, FilterContext, FilterRequirements};
pub use crate::model::filter::registry::{
    FilterFactory, FilterParams, FilterRegistry, FilterRequest, ParamSpec,
};
pub use crate::model::pipeline::analyzer::{
    Analyzer, ColorStats, ImageAnalysis, ImageMetadata, Origin, SourceFormat,
};
pub use crate::model::pipeline::constructor::{ConstructionPolicy, Constructor, PreparedImage};
pub use crate::model::pipeline::formatter::{
    FormatOptions, FormatSet, FormattedImage, Formatter, OutputFormat, OutputTarget, SizeVariant,
};
pub use crate::model::pipeline::orchestrator::{Pipeline, PipelineBuilder};
pub use crate::model::pipeline::renderer::{RenderOutput, RenderedArtifact, Renderer};
pub use crate::model::pixel::{Dimensions, PixelBuffer, Rgba8};
pub use crate::model::resolution::Resolution;
