//! Library-level error type.

use vstd::prelude::*;

verus! {

/// `std::io::Error`, carried through opaquely.
#[verifier::external_type_specification]
#[verifier::external_body]
pub struct ExIoError(std::io::Error);

/// Errors returned by the library API.
#[non_exhaustive]
#[derive(Debug)]
pub enum Error {
    /// A Default-mode-only setting was combined with Strict mode. Returned by
    /// `PeeBuilder::build` only, before any I/O, so no sink is touched.
    CompatibilityViolation(&'static str),
    /// The builder was configured into an impossible state. Returned by
    /// `PeeBuilder::build` only.
    InvalidBuilderConfiguration(&'static str),
    /// A sink's write failed while write errors were not ignored. Carries the
    /// registration index of the failing sink and its I/O error. Every other
    /// live sink has received the complete current chunk.
    #[non_exhaustive]
    SinkWriteFailed { sink_index: usize, source: std::io::Error },
    /// An I/O error of the reader or of the process layer.
    Io(std::io::Error),
}

impl Error {
    /// The error for a sink whose write failed while write errors were not
    /// ignored.
    pub fn sink_write_failed(sink_index: usize, source: std::io::Error) -> (r: Error)
        ensures
            r == (Error::SinkWriteFailed { sink_index, source }),
    {
        Error::SinkWriteFailed { sink_index, source }
    }
}

} // verus!
