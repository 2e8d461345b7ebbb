//! A small todo-record library: the record model, its JSON storage encoding,
//! an in-memory model of the key-value store, and the per-operation request
//! policy (list, create, update, delete) with verified contracts.

pub mod codec;
pub mod handlers;
pub mod models;
pub mod routes;
pub mod store;

use vstd::prelude::*;

verus! {

} // verus!
