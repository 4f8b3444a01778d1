//! Glyph outline transforms: record a path into contours, replay it, and
//! embolden or slant it. Coordinates are a type parameter: the geometry that
//! needs arithmetic on them comes in as closures.

pub mod path;
pub mod outline;
pub mod embolden;

pub use path::{Verb, Segment};
pub use outline::{Contour, Outline, Recorder, record};
pub use embolden::{embolden_contour, embolden_points, is_closed};
