//! The pipeline: four stable stages and their orchestration.
//!
//! | Stage | Module | Input | Output |
//! |-------|--------|-------|--------|
//! | Analyzer | [`analyzer`] | bytes | `ImageAnalysis` |
//! | Constructor | [`constructor`] | analysis + requirements | `PreparedImage` |
//! | Formatter | [`formatter`] | prepared image | `FormatSet` |
//! | Renderer | [`renderer`] | variants + chain | `RenderOutput` |

pub mod analyzer;
pub mod formatter;
pub mod constructor;
pub mod renderer;
pub mod orchestrator;
