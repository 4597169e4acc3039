use vstd::prelude::*;

use crate::error::VisualizerError;

verus! {

/// What a plotting backend must offer before it can be attached to a link.
///
/// The plotting operations themselves work on floating-point samples and are added by the
/// application layer on top of this trait.
pub trait Backend: Sized {
    /// A fresh backend.
    fn new() -> Self;

    /// Whether preparing a backend of this kind never fails; a kind that does not say so
    /// may fail.
    open spec fn initializes_infallibly() -> bool {
        false
    }

    /// Whether preparing the backend `before` can give `r`; a kind that does not say
    /// otherwise can give any result.
    open spec fn may_prepare(before: Self, r: Result<(), VisualizerError>) -> bool {
        true
    }

    /// Prepares the backend; called once when the link opens.
    fn initialize(&mut self) -> (r: Result<(), VisualizerError>)
        ensures
            Self::initializes_infallibly() ==> r is Ok,
            Self::may_prepare(*old(self), r),
    ;
}

/// A backend that draws nothing.
pub struct NullBackend {}

/// Plot settings of [`NullBackend`]: there are none.
#[derive(Clone, Copy, Default, PartialEq, Eq, Debug, Structural)]
pub struct NullPlotConfig {}

impl Backend for NullBackend {
    fn new() -> (r: Self) {
        NullBackend {}
    }

    open spec fn initializes_infallibly() -> bool {
        true
    }

    open spec fn may_prepare(before: Self, r: Result<(), VisualizerError>) -> bool {
        r is Ok
    }

    fn initialize(&mut self) -> (r: Result<(), VisualizerError>)
        ensures
            r == Ok::<(), VisualizerError>(()),
    {
        Ok(())
    }
}

} // verus!
