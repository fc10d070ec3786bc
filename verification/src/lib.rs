//! Matching of reference specifications against the references a remote advertises.

pub mod bytes;
pub mod find;
pub mod match_group;
pub mod object_id;
pub mod refspec;

pub use match_group::MatchGroup;
pub use refspec::{Mode, Operation, RefSpecRef};
