//! A deliberately wasteful memory allocator that backs every allocation with
//! its own memory-mapped file.
//!
//! The crate is organised around a small allocation engine: a reentrancy
//! guard decides whether a request may take the file-backed path at all, a
//! registry tracks every live allocation by its base address, and a path
//! provider hands out collision-free backing-file locations.  The engine
//! itself only does bookkeeping over plain values; opening, mapping and
//! deleting the backing files is left to the embedding program, which feeds
//! the results back into the engine.

pub mod engine;
pub mod graphics;
pub mod guard;
pub mod layout;
pub mod paths;
pub mod registry;
pub mod text;

pub use engine::StupidAlloc;
