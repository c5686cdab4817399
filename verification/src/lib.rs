//! Tile addressing for web maps, and a pool that keeps one renderer per
//! map definition, each behind a pair of rendezvous channels.

pub mod channel;
pub mod coordinates;
pub mod extent;
pub mod mapfile;
pub mod mappool;
pub mod text;
pub mod worker;

pub use crate::extent::Extent;
