//! Link that emulates AUTD3 devices in software, reads back what they were told to output,
//! and lays out the points at which an acoustic field is observed and plotted.

mod backend;
mod emulator;
mod error;
mod plot_range;
mod visualizer;

pub use backend::{Backend, NullBackend, NullPlotConfig};
pub use emulator::{Drive, Segment};
pub use error::VisualizerError;
pub use plot_range::{field_plot, is_1d, is_2d, observe_points, Axis, FieldPlot};
pub use visualizer::{
    concat_drive_lists, concat_intensities, concat_phases, Visualizer, VisualizerBuilder,
};
