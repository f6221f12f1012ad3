//! The byte-level wire format of the primitives: unsigned varints, zig-zag
//! signed varints, byte-reversed float varints, booleans and packed boolean
//! runs, and discriminants, together with the bit-level helpers the
//! composite codecs use.

pub mod boolean;
pub mod float;
pub mod sint;
pub mod uint;
pub mod utils;
