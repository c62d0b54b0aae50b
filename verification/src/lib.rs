//! Abbreviation stores: short names mapped to longer texts, kept as a JSON
//! object in a file, with lookup through a local store that falls back to a
//! global one.
//!
//! The library computes and decides; it opens no file. A caller reads and
//! writes the bytes of the store files and hands them over.
//!
//! - [`order`]: the order in which names are listed.
//! - [`mapping`]: a mapping from names to texts.
//! - [`codec`]: mappings as the bytes of a store file.
//! - [`resolver`]: the resolution of requested names against two mappings.
//! - [`store`]: where stores live, and what adding, listing and copying make
//!   of their bytes.
//! - [`dispatch`]: the choice of what an invocation does.
//! - [`error`]: the failures and their diagnostics.

pub mod codec;
pub mod dispatch;
pub mod error;
pub mod mapping;
pub mod order;
pub mod resolver;
pub mod store;
