//! Storage core of a small version-control tool: a content-addressed object
//! store, a staging index, a single-parent commit history and a branch layer,
//! all held as in-memory values whose operations are verified.

pub mod table;
pub mod text;
pub mod objects;
pub mod outcome;
pub mod config;
pub mod ignore;
pub mod repository;
pub mod branches;
pub mod commands;
pub mod history;
