//! Discrete core of a software 3D renderer: the decisions of the geometry
//! pipeline, generic in the vertex type.
//!
//! The numeric layer (vectors, matrices, distances, intersections) is supplied
//! by the caller as plain functions on its own vertex type. This crate owns
//! what is decided from their results: which side of a plane counts as
//! inside, how a triangle is split by a plane, how a working set is clipped
//! against a list of planes, in which order triangles are painted, in which
//! order the stages of a frame run, and how a face list is resolved against
//! a vertex list. Where a decision rests on the sign or the order of
//! single-precision numbers, it is read off their bit patterns.

pub mod bits;
pub mod clip;
pub mod clip_lemmas;
pub mod color;
pub mod depth;
pub mod fields;
pub mod frame;
pub mod mesh;
pub mod pass_lemmas;
pub mod passes;
pub mod side;
pub mod triangle;
pub mod viewport;

pub use clip::{clip_classified, clipping, plan_clipping, Corner};
pub use color::Color;
pub use depth::{depth_key, depth_order, depth_sort};
pub use frame::frame;
pub use mesh::{parse_line, Mesh, MeshError, ObjLine};
pub use passes::{clip_against_planes, clip_pass};
pub use side::Side;
pub use triangle::Triangle;
pub use viewport::{screen_planes, PixelPlane, PixelVector};
