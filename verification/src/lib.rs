//! Core of a distributed boosting trainer: a double-buffered sample loader
//! with effective-sample-size tracking, a weak-learner search with an
//! adaptive target edge, and the head-side model-sync protocol that
//! validates worker packets and extends the global model.
//!
//! Real-valued quantities (scores, weights, edges) are carried as
//! fixed-point integers scaled by [`fixed::SCALE`].

use vstd::prelude::*;

pub mod bins;
pub mod booster;
pub mod buffer_loader;
pub mod channel;
pub mod data;
pub mod digits;
pub mod fixed;
pub mod gamma;
pub mod learner;
pub mod model_sync;
pub mod packet;
pub mod scheduler;
pub mod scoring;
pub mod test_helper;
pub mod tree;

verus! {

} // verus!
