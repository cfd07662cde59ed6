//! Finding out who speaks when in a recorded meeting.

pub mod audio;
pub mod commands;
pub mod labels;
pub mod laws;
pub mod overlap;
pub mod run;
pub mod search;
pub mod sidecar;
