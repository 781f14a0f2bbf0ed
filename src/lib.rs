//! A fixed-point model of a 2D point-light shadow pipeline: a polar occlusion
//! map is ray-marched over an occluder layer, and per-fragment shadow and glow
//! masks are derived from it.
pub mod fixed;
pub mod occluder;
pub mod occlusion;
pub mod light;
pub mod mask;
pub mod pipeline;
