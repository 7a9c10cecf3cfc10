//! Verified core of a small 3D-asset pipeline.
//!
//! The library models the data that a scene renderer feeds to a GPU:
//! a model description parsed from text, per-vertex tangent-space data
//! synthesized from the triangles, packed per-instance transforms, a
//! presentable-surface configuration reconciled to window sizes, and an
//! asset manager that latches a one-way readiness flag.
//!
//! All geometry is carried in fixed-point integers (millionths of a unit),
//! so every algorithm here is exact and provable; an embedding program
//! converts to the floating-point layout its GPU expects at the boundary.

pub mod asset;
pub mod fixed;
pub mod geometry;
pub mod model;
pub mod mtl;
pub mod obj;
pub mod resources;
pub mod surface;
pub mod text;
