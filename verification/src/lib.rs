//! Fixed-timestep simulation core for stress-testing a rendering front-end.
//!
//! The crate owns a pooled particle simulation and a scene-object store,
//! advances them tick by tick, and exports visible state as flat numeric
//! buffers. All quantities are fixed-point integers (milliunits); callers
//! that prefer floating point convert at the boundary.

pub mod fixed;
pub mod metrics;
pub mod particles;
pub mod rng;
pub mod scene;
