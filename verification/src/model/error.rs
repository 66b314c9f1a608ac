//! The single error type of the processing core.
//!
//! No public function of the crate panics on a processing path: every
//! failure comes back as a [`FiltroError`].

use std::path::PathBuf;
use vstd::prelude::*;

verus! {

/// `std::path::PathBuf`, carried opaquely by the library.
#[verifier::external_type_specification]
#[verifier::external_body]
pub struct ExPathBuf(PathBuf);

/// `std::io::Error`, carried opaquely by the library.
#[verifier::external_type_specification]
#[verifier::external_body]
pub struct ExIoError(std::io::Error);

/// `image::ImageError`, carried opaquely by the library.
#[verifier::external_type_specification]
#[verifier::external_body]
pub struct ExImageError(image::ImageError);

/// Errors of the Analyzer → Constructor → Formatter → Renderer chain.
#[allow(inconsistent_fields)]
#[derive(Debug)]
pub enum FiltroError {
    /// Reading or writing the file system failed.
    Io { path: PathBuf, source: std::io::Error },
    /// Decoding the source image failed.
    Decode { origin: String, source: image::ImageError },
    /// Encoding to an output format failed.
    Encode { format: String, source: image::ImageError },
    /// Inconsistent pixel data (zero dimensions, badly sized buffer…).
    InvalidImage(String),
    /// No registered filter carries this identifier.
    UnknownFilter { name: String, available: String },
    /// A parameter is present but unusable.
    InvalidParameter { filter: String, name: String, reason: String },
    /// A mandatory parameter is missing.
    MissingParameter { filter: String, name: String },
    /// A filter refused to process the image.
    FilterFailed { filter: String, reason: String },
    /// Unrecognised output format.
    UnknownFormat(String),
    /// Inconsistent configuration given by the caller (CLI, API…).
    Config(String),
}

impl FiltroError {
    /// Shortcut for an input/output error.
    pub fn io(path: PathBuf, source: std::io::Error) -> (r: Self)
        ensures
            r == (FiltroError::Io { path, source }),
    {
        FiltroError::Io { path, source }
    }

    /// Shortcut for a filter failure reported by an outside implementation.
    pub fn filter_failed(filter: &str, reason: &str) -> (r: Self)
        ensures
            r matches FiltroError::FilterFailed { filter: f, reason: m } && f@ == filter@ && m@
                == reason@,
    {
        FiltroError::FilterFailed { filter: filter.to_owned(), reason: reason.to_owned() }
    }
}

} // verus!
