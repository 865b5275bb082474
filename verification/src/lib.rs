//! A fixed-point path tracer for one fixed scene: a room with extruded
//! sculpted text, window openings, and an emissive sun plane.  All arithmetic
//! is 16.16 fixed point, so every stage — the vector algebra, the
//! signed-distance scene field, the sphere-marching intersector, the bounce
//! integrator, and the tone mapper — carries a proved contract.  Randomness
//! enters only through uniform draws; every function that consumes them has a
//! deterministic core whose result is pinned exactly.

pub mod fx;
pub mod vec3;
pub mod scene;
pub mod march;
pub mod entropy;
pub mod trace;
pub mod tone;
pub mod camera;
