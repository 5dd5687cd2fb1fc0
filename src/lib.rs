//! Synchronization layer between an entity/component world and a native
//! 2D rigid-body and particle engine: the handle registry, the per-tick
//! lifecycle pipeline, contact events, ray-cast and region-query
//! dispatch, joint-kind dispatch and the fixed-timestep scheduler.
pub mod body;
pub mod contacts;
pub mod fixture;
pub mod joints;
pub mod pipeline;
pub mod query;
pub mod ray_cast;
pub mod registry;
pub mod schedule;
pub mod seqs;
