//! The batching core of a 3D renderer's opaque and transparent passes: which
//! entities each frame draws, how their per-instance records are grouped by
//! material and mesh, how GPU buffers are sized, and which commands draw them.
//! Graphics-device work is left to the caller, who performs the steps and
//! uploads these functions decide.

pub mod batch;
pub mod buffer;
pub mod change;
pub mod draw;
pub mod frame;
pub mod gather;
pub mod ordered;
pub mod pass;
pub mod pbm;
pub mod pipeline;
pub mod submodules;
