//! Interning of recurring identity values, and the decisions around loading
//! and durably saving a document.
pub mod export;
pub mod indexed_cache;
