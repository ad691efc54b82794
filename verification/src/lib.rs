//! Fan one input stream out to N sinks, in the manner of moreutils `pee`.
//!
//! The library holds the decisions of a run: the builder's validation, which
//! sinks stay live as chunks are written, how the compatibility mode is
//! resolved, how Strict-mode arguments are scanned, how child exit codes are
//! aggregated, and how captured child output is laid out.
//!
//! Pipeline safety: when a sink fails a chunk, every other live sink receives
//! the complete chunk, in registration order, before the failing sink leaves
//! the live set.

use vstd::prelude::*;

pub mod aggregate;
pub mod capture;
pub mod error;
pub mod fanout;
pub mod mode;
pub mod strict;
mod text;

pub use error::Error;

use fanout::FanOut;

verus! {

/// Whether to apply the Default-mode extensions or Strict moreutils parity.
#[non_exhaustive]
#[derive(Debug, Clone, Copy, PartialEq, Eq, Structural)]
pub enum CompatibilityMode {
    /// `--help`, `--version`, `--capture` and `completions` are honored;
    /// exit codes aggregate by `max`.
    Default,
    /// moreutils parity: exit codes aggregate by bitwise OR.
    Strict,
}

impl Default for CompatibilityMode {
    fn default() -> (r: Self)
        ensures
            r == CompatibilityMode::Default,
    {
        CompatibilityMode::Default
    }
}

/// Default fan-out chunk size (64 KiB).
pub const BUFSIZ: usize = 65536;

/// The message of the build error for Strict mode with capture on.
pub open spec fn strict_capture_message() -> Seq<char> {
    "--capture not honored in Strict mode"@
}

/// Builder for [`Pee`], over sinks of type `S`.
#[non_exhaustive]
#[derive(Debug)]
pub struct PeeBuilder<S> {
    sinks: Vec<S>,
    compat: CompatibilityMode,
    capture: bool,
    ignore_write_errors: bool,
}

impl<S> PeeBuilder<S> {
    /// The registered sinks, in registration order.
    pub closed spec fn sinks_view(self) -> Seq<S> {
        self.sinks@
    }

    /// The chosen compatibility mode.
    pub closed spec fn compat_view(self) -> CompatibilityMode {
        self.compat
    }

    /// Whether capture mode was requested.
    pub closed spec fn capture_view(self) -> bool {
        self.capture
    }

    /// Whether sink write errors only drop the failing sink.
    pub closed spec fn ignore_view(self) -> bool {
        self.ignore_write_errors
    }

    /// A builder with no sinks, Default mode, capture off and write errors ignored.
    #[must_use]
    pub fn new() -> (r: Self)
        ensures
            r.sinks_view() == Seq::<S>::empty(),
            r.compat_view() == CompatibilityMode::Default,
            !r.capture_view(),
            r.ignore_view(),
    {
        PeeBuilder {
            sinks: Vec::new(),
            compat: CompatibilityMode::Default,
            capture: false,
            ignore_write_errors: true,
        }
    }

    /// Register a sink after those already registered.
    #[must_use]
    pub fn sink(self, sink: S) -> (r: Self)
        ensures
            r.sinks_view() == self.sinks_view().push(sink),
            r.compat_view() == self.compat_view(),
            r.capture_view() == self.capture_view(),
            r.ignore_view() == self.ignore_view(),
    {
        let mut b = self;
        b.sinks.push(sink);
        b
    }

    /// Set the compatibility mode.
    #[must_use]
    pub fn compat(self, compat: CompatibilityMode) -> (r: Self)
        ensures
            r.sinks_view() == self.sinks_view(),
            r.compat_view() == compat,
            r.capture_view() == self.capture_view(),
            r.ignore_view() == self.ignore_view(),
    {
        let mut b = self;
        b.compat = compat;
        b
    }

    /// Set the capture flag. Sinks already capture, so the library only checks
    /// it against Strict mode when building.
    #[must_use]
    pub fn capture(self, capture: bool) -> (r: Self)
        ensures
            r.sinks_view() == self.sinks_view(),
            r.compat_view() == self.compat_view(),
            r.capture_view() == capture,
            r.ignore_view() == self.ignore_view(),
    {
        let mut b = self;
        b.capture = capture;
        b
    }

    /// Set the write-error policy. When `false`, the first sink write error
    /// ends the run as `Error::SinkWriteFailed`.
    #[must_use]
    pub fn ignore_write_errors(self, ignore: bool) -> (r: Self)
        ensures
            r.sinks_view() == self.sinks_view(),
            r.compat_view() == self.compat_view(),
            r.capture_view() == self.capture_view(),
            r.ignore_view() == ignore,
    {
        let mut b = self;
        b.ignore_write_errors = ignore;
        b
    }

    /// Validate and build a [`Pee`]: Strict mode with capture on is refused.
    pub fn build(self) -> (r: Result<Pee<S>, Error>)
        ensures
            r is Err <==> (self.compat_view() == CompatibilityMode::Strict && self.capture_view()),
            r matches Err(e) ==> (e matches Error::CompatibilityViolation(m) && m@
                == strict_capture_message()),
            r matches Ok(p) ==> {
                &&& p.sinks_view() == self.sinks_view()
                &&& p.compat_view() == self.compat_view()
                &&& p.capture_view() == self.capture_view()
                &&& p.ignore_view() == self.ignore_view()
            },
    {
        let strict = match self.compat {
            CompatibilityMode::Strict => true,
            CompatibilityMode::Default => false,
        };
        if strict && self.capture {
            return Err(Error::CompatibilityViolation("--capture not honored in Strict mode"));
        }
        Ok(
            Pee {
                sinks: self.sinks,
                compat: self.compat,
                capture: self.capture,
                ignore_write_errors: self.ignore_write_errors,
            },
        )
    }
}

impl<S> Default for PeeBuilder<S> {
    fn default() -> (r: Self)
        ensures
            r.sinks_view() == Seq::<S>::empty(),
            r.compat_view() == CompatibilityMode::Default,
            !r.capture_view(),
            r.ignore_view(),
    {
        Self::new()
    }
}

/// The configuration of one run, built by [`PeeBuilder`].
#[non_exhaustive]
#[derive(Debug)]
pub struct Pee<S> {
    sinks: Vec<S>,
    compat: CompatibilityMode,
    capture: bool,
    ignore_write_errors: bool,
}

impl<S> Pee<S> {
    /// The sinks, in registration order.
    pub closed spec fn sinks_view(self) -> Seq<S> {
        self.sinks@
    }

    /// The compatibility mode.
    pub closed spec fn compat_view(self) -> CompatibilityMode {
        self.compat
    }

    /// Whether capture mode was requested.
    pub closed spec fn capture_view(self) -> bool {
        self.capture
    }

    /// Whether sink write errors only drop the failing sink.
    pub closed spec fn ignore_view(self) -> bool {
        self.ignore_write_errors
    }

    /// The compatibility mode.
    pub fn compat(&self) -> (r: CompatibilityMode)
        ensures
            r == self.compat_view(),
    {
        self.compat
    }

    /// Whether capture mode was requested.
    pub fn capture(&self) -> (r: bool)
        ensures
            r == self.capture_view(),
    {
        self.capture
    }

    /// Whether sink write errors only drop the failing sink.
    pub fn ignore_write_errors(&self) -> (r: bool)
        ensures
            r == self.ignore_view(),
    {
        self.ignore_write_errors
    }

    /// The number of registered sinks.
    pub fn sink_count(&self) -> (r: usize)
        ensures
            r == self.sinks_view().len(),
    {
        self.sinks.len()
    }

    /// The sinks, for the loop that writes to them.
    pub fn sinks_mut(&mut self) -> (r: &mut Vec<S>)
        ensures
            r@ == old(self).sinks_view(),
            final(self).sinks_view() == final(r)@,
            final(self).compat_view() == old(self).compat_view(),
            final(self).capture_view() == old(self).capture_view(),
            final(self).ignore_view() == old(self).ignore_view(),
    {
        &mut self.sinks
    }

    /// The live set of a new run over these sinks: every sink, in registration
    /// order, under this run's write-error policy.
    pub fn start_fanout(&self) -> (r: FanOut)
        ensures
            r.live_view() == Seq::new(self.sinks_view().len(), |i: int| i as usize),
            r.sink_count_view() == self.sinks_view().len(),
            r.ignores_write_errors() == self.ignore_view(),
    {
        FanOut::new(self.sinks.len(), self.ignore_write_errors)
    }
}

} // verus!
