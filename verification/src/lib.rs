//! A task list: tasks with priorities, due times and a done/pending status,
//! and the operations that add, mark, edit, delete, search, sort and report them.

pub mod model;
pub mod text;
pub mod due;
pub mod ops;
pub mod query;
pub mod report;
pub mod laws;
