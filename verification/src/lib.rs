//! A content-addressed expression store for a small Lisp dialect.
//!
//! The store owns every expression node, every continuation frame, and every
//! interned symbol and string.  Each node is addressed two ways: by a typed
//! pointer (a tag and a dense table index) and by a scalar pointer (the tag
//! and a Poseidon hash of the node's transitive content, both as elements of
//! the BLS12-381 scalar field).  Interning keeps structurally equal nodes in
//! the same slot, so typed pointers are equal exactly when the expressions
//! they denote are; hashing memoizes every digest and records the scalar
//! pointer of each hashed node in a reverse map for content-addressed lookup.

pub mod cache;
pub mod expr;
pub mod field;
pub mod fmt;
pub mod model;
pub mod poseidon;
pub mod ptr;
pub mod store;
pub mod strutil;
pub mod tables;
pub mod tags;
