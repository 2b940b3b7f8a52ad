//! A per-category store of trading-card records with a coupled image-file
//! naming scheme.
//!
//! Each category ("game") owns one collection: a mapping from an integer
//! identity to a record. The library covers identity assignment, the CRUD
//! operations on a collection, the document form in which a collection is
//! persisted, the naming and indexing convention for image files attached to
//! a record, and the sanitization of user text that becomes part of a
//! filename. File and network access live outside the library; callers hand
//! in the values read and carry out the writes.

pub mod collection;
pub mod config;
pub mod encode;
pub mod enums;
pub mod errors;
pub mod filename;
pub mod magic;
pub mod pokemon;
pub mod sanitize;
pub mod text;
