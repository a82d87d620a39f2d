//! Storage layer of a graph database node: the superblock codec, the
//! catalogs kept in the header record, and the device open protocol.

pub mod codec;
pub mod error;
pub mod freelist;
pub mod goblist;
pub mod graphlist;
pub mod header;
pub mod devsize;
pub mod disk;
