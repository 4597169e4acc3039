use vstd::prelude::*;

verus! {

/// What can go wrong while plotting or computing a field.
#[derive(Debug, Clone, Copy, PartialEq, Eq, Structural)]
pub enum VisualizerError {
    /// The plot range spans no line and no plane.
    InvalidPlotRange,
    /// The backend cannot do what was asked.
    NotSupported,
}

} // verus!
