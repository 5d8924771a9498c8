//! Validity repair for integer tile-space geometry.
//!
//! Geometries produced by clipping and simplifying map data against tile
//! boundaries can be topologically invalid: rings that cross themselves,
//! rings wound the wrong way, rings that touch themselves at a vertex.
//! This crate classifies how line segments meet using exact integer
//! arithmetic, decides whether a geometry is valid, and repairs invalid
//! polygons into a set of simple, correctly oriented polygons.
//!
//! The coordinate space is tile-local: the Y axis grows downward, so a
//! valid exterior ring is wound clockwise and a valid interior ring
//! counter-clockwise, the inverse of the planar convention.

pub mod geom;
pub mod intersect;
pub mod validity;
pub mod cleanup;
pub mod inject;
pub mod dissolve;
pub mod rings;
pub mod repair;
