//! An in-memory task store: records keyed by integer identifiers, with
//! add, list, delete, mark-complete and fetch operations, each proved
//! against a model of the store as a finite map.

pub mod laws;
pub mod todo;

pub use todo::{TaskView, TodoDetail, TodoError, TodoRepository};
