//! Sample snapshots of a music project: the descriptor scan that finds the
//! audio files a project refers to, the plan that mirrors them into a snapshot
//! directory, and the steps that record the snapshot in a version history.

pub mod bytes;
pub mod path;
pub mod descriptor;
pub mod snapshot;
pub mod history;
