//! The table of meetings: what to ask of the database, in what order, and
//! what follows from its replies.
//!
//! Every operation is a task. A task names the one action that it waits for;
//! the reply to that action leads to the next task or to the result.

pub mod laws;
pub mod protocol;
pub mod tables;
pub mod task;
