//! A schema-driven binary serialization toolchain: a compact wire format
//! with encode / decode / recognize operations for primitives and
//! composites, and a schema compiler that tokenizes schema text, resolves
//! names across imported files, and lowers every reachable file to a
//! canonical project model.

pub mod base;
pub mod bytes;
pub mod codegen;
pub mod compiler;
pub mod config;
pub mod errors;
pub mod imp;
pub mod laws;
pub mod project;
pub mod schema;
pub mod traits;
pub mod values;

pub use errors::{DecodingError, InvalidPrefix, UnexpectedEof, ValueError};
pub use traits::{Decodable, Encodable, IsFlag, WireDecode, WireEncode};
pub use imp::collections::{Stream, StreamIter};
pub use imp::special::Flags;
pub use values::{Float, Float32, Float64, Sint, Uint};
