//! Generation of editor code-snippet definitions for C++ competitive
//! programming: input reading, output writing and grid traversal templates,
//! enumerated over a catalog of scalar types and argument counts, and
//! serialized as one JSON document.

pub mod types;
pub mod text;
pub mod catalog;
pub mod snippet;
pub mod cursor;
pub mod names;
pub mod decode;
