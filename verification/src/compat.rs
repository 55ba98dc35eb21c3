//! Compatibility layer for legacy string-based WebUI consumers: staged node
//! creation, mounting into the core node tree, CSS-like style keys, hex
//! colours, listener registration and lifecycle flags.

pub mod types;
pub mod parse;
pub mod state;
