//! What the tasks draw on: the reference dictionary, and the handling of
//! advisories.

pub mod cpe_dictionary;
pub mod vex;
