//! Manager core for an installable game modification: a round-trip-faithful
//! key/value settings store, a release catalog, a content-addressed archive
//! cache, and the install/uninstall policy engine, with their contracts
//! verified by Verus.

pub mod archive;
pub mod breaker;
pub mod cache;
pub mod ini;
pub mod manage;
pub mod settings;
pub mod text;
