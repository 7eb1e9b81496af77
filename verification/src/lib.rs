//! Batch archival of camera raw files: the naming rules, the selection of
//! candidates, the collision-free choice of destination names and the
//! per-file sequence of steps, each with a machine-checked contract.

pub mod batch;
pub mod codec;
pub mod digits;
pub mod name;
pub mod outcome;
pub mod path;
pub mod protocol;
pub mod select;
pub mod unique;
pub mod worker;
