//! A width-aware text-grid layout engine.
//!
//! The crate renders structured data — scalars, nested sequences, nested
//! ordered maps — as fixed-width, border-drawn text grids. Its parts, leaf
//! first:
//!
//! - [`width`]: a pluggable measure of a string's rendered display width;
//! - [`cell`]: the per-cell text model that splits text into display lines
//!   and caches per-line and overall widths;
//! - [`grid`]: the builder that turns a rectangular matrix of cells into one
//!   bordered text block;
//! - [`value`]: the recursive converter from a tagged value tree to a grid.
//!   A scalar child of a container appears inline, its text between single
//!   spaces; a container child's rendered sub-grid becomes an opaque
//!   multi-line cell of its parent.

pub mod cell;
pub mod grid;
pub mod value;
pub mod width;

pub use cell::CellInfo;
pub use cell::StrWithWidth;
pub use cell::create_cell_info;
pub use cell::update_cell_info;
pub use grid::Style;
pub use grid::build_grid;
pub use value::Orientation;
pub use value::Value;
pub use value::render;
pub use width::CharCountWidth;
pub use width::WidthFunc;
