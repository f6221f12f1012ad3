//! The code generator: types ordered so that each comes after everything
//! it structurally embeds, and the emission of target-language source for
//! a compiled project.

pub mod order;
pub mod rust;
