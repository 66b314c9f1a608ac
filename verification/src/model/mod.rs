//! The processing core: error type, pixel types, the four pipeline stages and
//! the filter contract.
//!
//! `codec` (bridge to the `image` library) and `resolution` (density
//! metadata) serve the pipeline stages.

pub mod codec;
pub mod error;
pub mod pipeline;
pub mod pixel;
pub mod resolution;
pub mod filter;
