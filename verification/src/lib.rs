//! Core logic of a scatter-plot generator: tables of typed columns are built
//! from parsed file contents, string columns are coerced to numeric or
//! datetime kinds by heuristics, X and Y axis series are selected, large
//! series are reduced bucket-wise, and plot-ready point lists are emitted.
//! File reading, floating-point arithmetic and HTML assembly live outside
//! this library.
pub mod audio;
pub mod cli;
pub mod coerce;
pub mod csv;
pub mod datetime;
pub mod downsample;
pub mod error;
pub mod excel;
pub mod numlit;
pub mod paths;
pub mod prepare;
pub mod render;
pub mod select;
pub mod split;
pub mod table;
pub mod text;
