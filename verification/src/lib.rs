//! A software 2D rasterization library.
//!
//! Drawing primitives (points, lines, filled polygons, ellipses, circles,
//! arcs, boxes and rounded rectangles) are implemented as pixel-level
//! algorithms over an in-memory raster surface ([`canvas::Canvas`]).
//! Every operation carries a contract that pins down the exact sequence of
//! pixel writes it performs, expressed as a specification-level trace.

pub mod arc;
pub mod canvas;
pub mod ellipse;
pub mod intmath;
pub mod laws;
pub mod polygon;
pub mod primitives;
pub mod quadrants;
pub mod rect;
pub mod rounded;
pub mod thick;
pub mod types;

pub use canvas::Canvas;
pub use types::BlendMode;
pub use types::Color;
pub use types::DrawError;
pub use types::Point;
