//! A session-scoped task list: an ordered store of free-text tasks, a
//! line-oriented command interpreter over it, and the flat-file form the
//! store is persisted in.
pub mod codec;
pub mod command;
pub mod store;
pub mod task;
pub mod text;
