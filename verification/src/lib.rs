//! A single-file encrypted container: a fixed-width binary header, an
//! authenticated envelope around the payload, and chunk arithmetic for
//! streaming large payloads.

pub mod chunk_management;
pub mod datatype;
pub mod error;
pub mod header_binary_v0;
pub mod header_v0;
pub mod payload;
pub mod primitives;
pub mod wire;
