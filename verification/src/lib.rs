//! The structural core of a ray tracer: bounding boxes, the bounding volume
//! hierarchy over them as a tree and as a flat array, nearest-hit search,
//! the choices that intersection routines, materials and the path integrator
//! make, scene bookkeeping, and the pixel grid with its plain-text encoding.
//!
//! Coordinates, colours and ray parameters enter this crate as *order keys*:
//! `i32` values that compare exactly as the real numbers they stand for, with
//! key 0 for the number 0.  Everything here reads them through comparisons,
//! minima and maxima only, so a result computed over keys is the result over
//! the numbers.  Arithmetic on the numbers themselves is left to the caller.
//! The module `keys` gives the key of a single-precision number from its bit
//! pattern; the constants of this crate are such keys.

pub mod aabb;
pub mod bvh;
pub mod camera;
pub mod flat_bvh;
pub mod frame_counter;
pub mod hit;
pub mod hitable_list;
pub mod image;
pub mod intersection;
pub mod keys;
pub mod material;
pub mod model_loader;
pub mod random;
pub mod renderer_cpu;
pub mod scene;
pub mod scene_data;
pub mod sorting;
pub mod triangle;
