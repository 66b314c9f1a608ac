//! The filter **contract** and the filter directory — no concrete filter.
//!
//! * [`contract`] describes what a filter *is* for the core;
//! * [`registry`] configures and instantiates filters from a textual
//!   expression.

pub mod contract;
pub mod registry;
