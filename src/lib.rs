//! Pointer-inference core of a binary analysis: the intermediate-representation
//! types it consumes, the abstract state kept per program point, and the
//! resolution of variadic call arguments from format strings.
pub mod table;
pub mod ir;
pub mod sub;
pub mod data;
pub mod object;
pub mod state;
pub mod memory_image;
pub mod arguments;
pub mod snapshot;
