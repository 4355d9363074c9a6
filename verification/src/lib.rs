//! A verified core for a small command-line to-do list manager.
//!
//! Tasks live in an ordered list; the six commands of the surface (`help`,
//! `add`, `list`, `complete`, `remove`, `clear`) parse, mutate, render and
//! persist that list. The list is persisted as one pretty-printed JSON array;
//! the writer and the reader of that format are verified here, together with
//! a proof that reading back what was written yields the same list.

pub mod chars;
pub mod cmd;
pub mod digits;
pub mod json;
pub mod laws;
pub mod reader;
pub mod render;
pub mod task;
pub mod writer;

pub use task::Task;
pub use task::TaskList;
