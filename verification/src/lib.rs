//! An embeddable, schema-light document store.
//!
//! Documents are structured values grouped into named collections; each
//! document gets an auto-assigned, monotonically increasing sequence number.
//! Collections enforce a capacity bound and composite uniqueness constraints,
//! and persist to a simple per-collection two-file format behind a dirty flag.

pub mod assoc;
pub mod codec;
pub mod laws;
pub mod store;
pub mod tree;
pub mod error;
pub mod value;

pub use error::JsonStoreError;
pub use store::JsonStore;
pub use tree::{Info, Tree};
pub use value::Value;
