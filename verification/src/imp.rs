//! The codec implementations for the built-in wire types: fixed-width
//! integers, booleans, strings, vectors, streams and flag sets.

pub mod builtin;
pub mod collections;
pub mod fixed;
pub mod special;
