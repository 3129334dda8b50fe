//! The planning side of a raw-image pipeline that runs on the GPU.
//!
//! Stages declare the buffers they need; the solver turns the declarations into
//! a plan of physical buffers, in which scratch buffers that are never alive at
//! the same time share storage; the stages are constructed against the plan, and
//! each frame is recorded as a sequence of compute dispatches for the host to
//! carry out.

pub mod allocation;
pub mod descriptor;
pub mod laws;
pub mod operations;
pub mod pass;
pub mod pipeline;
pub mod plan;
pub mod push;
pub mod setup;
pub mod shader;
pub mod solver;
pub mod uniqueness;
