//! A live index of the files on a volume: dense parallel arrays of entries
//! with a sparse map from record number to position, kept current by change
//! events, searched by substring, sorted by name or size, and able to rebuild
//! each entry's path from its parent links.
use vstd::prelude::*;

pub mod codec;
pub mod text;
pub mod filesystem;
pub mod order;
pub mod query;
pub mod path;
pub mod load;
pub mod laws;
pub mod events;
