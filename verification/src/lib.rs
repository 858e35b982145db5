//! A small verified to-do list manager: an ordered list of tasks whose
//! `position` field always equals the task's index, a canonical textual
//! persistence format with a proved save/load round trip, and the command
//! parsing behind a line-based front end.

pub mod digits;
pub mod strutil;
pub mod task;
pub mod codec;
pub mod store;
pub mod command;
