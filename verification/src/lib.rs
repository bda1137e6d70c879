//! A verified hero store: the row semantics behind a small CRUD service.
//!
//! [`hero`] holds the hero entity and its pre-insert payload; [`store`] holds
//! the table of rows with the five operations (fetch, create, read, update,
//! delete); [`laws`] states and proves how the operations interact.

pub mod hero;
pub mod laws;
pub mod store;
