//! A verified task tracker core: a store of tasks with monotonically
//! increasing identifiers, its four mutations, a listing renderer, and the
//! JSON document the store is persisted as, with a proof that parsing a
//! written document yields the store it came from.

pub mod codec;
pub mod render;
pub mod todo;
