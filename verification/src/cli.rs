//! The resolved command-line options the selection and rendering logic works
//! from. Argument parsing itself happens outside the library; this is the
//! plain record it produces.
use vstd::prelude::*;

verus! {

/// A tool to generate interactive scatter plots from various data formats.
pub struct Cli {
    /// The input file or folder to scan for data.
    pub input_path: String,
    /// Directory to save the generated HTML plots; next to each input when
    /// absent.
    pub output: Option<String>,
    /// Name of the column to use as the X axis; the highest-priority choice.
    pub index: Option<String>,
    /// Use the first column as the X axis; overridden by `index`.
    pub use_first_column: bool,
    /// The columns to plot on the Y axis; all numeric columns when absent.
    pub columns: Option<Vec<String>>,
    /// A custom plot title; the input file name when absent.
    pub title: Option<String>,
    /// Downsample series with more points than this; no downsampling when
    /// absent.
    pub downsample: Option<usize>,
    /// Keep the initial, globally padded Y range on zoom.
    pub no_autoscale_y: bool,
    /// Enable chart animations.
    pub animations: bool,
    /// Decimal places for numeric display; negative means unlimited.
    pub max_decimals: i32,
    /// The string in a text column that marks a vertical reference line.
    pub special_marker: String,
    /// Series with more points than this render in the fast, reduced-detail
    /// mode.
    pub large_mode_threshold: usize,
    /// Print what was detected while processing.
    pub debug: bool,
    /// Use the light theme instead of the default dark one.
    pub white_theme: bool,
}

} // verus!
