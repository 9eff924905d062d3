//! A read-only projection of a typed node archive onto the four operations of
//! a filesystem protocol: `lookup`, `getattr`, `readdir` and `read`.

pub mod archive;
pub mod attr;
pub mod clock;
pub mod content;
pub mod endian;
pub mod filesystem;
pub mod laws;
pub mod listing;
pub mod names;
pub mod registry;
pub mod search;
pub mod state;
pub mod text;
