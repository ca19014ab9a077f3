//! A small path tracer for scenes of spheres, in fixed-point arithmetic.
//!
//! Rays leave a pinhole camera, are tested against the scene and scattered
//! at random where they hit, and bring back the light of the sky. The sums of
//! light for the pixels are gathered in a frame buffer and turned into bytes.
//! Threads, channels and files are left to the program that uses the library:
//! the scheduler only decides which pixel goes to which worker.

pub mod camera;
pub mod frame;
pub mod orchestrator;
pub mod random;
pub mod ray;
pub mod render;
pub mod scalar;
pub mod scheduler;
pub mod shading;
pub mod shape;
pub mod vec3;
