//! Verified core of an automatic commit tool.
//!
//! The library turns the raw per-file status lines of a working tree into
//! normalized change records, partitions those records into commit units
//! (whole directories where every tracked file changed the same way,
//! individual files otherwise), and plans the stage/commit/push sequence
//! for the units.  Everything that talks to a real version-control tool
//! lives outside the library; the functions here are pure over the values
//! such collaborators hand in.

pub mod config;
pub mod error;
pub mod grouping;
pub mod laws;
pub mod orchestrate;
pub mod paths;
pub mod status;
pub mod types;

pub use types::ChangeType;
pub use types::GitStatus;
