//! Concrete wire types following the generated-type codec protocol: the
//! shapes a compiled schema emits for structs, enums and flag enums. A
//! struct encodes a packed presence bitmap for its optional fields and
//! then each field in declaration order; an enum encodes a strict
//! one-byte discriminant (its variant's declaration index) and then the
//! variant's fields; a flag enum becomes a `Flags` alias with bit indices
//! in declaration order.

pub mod nested;
pub mod parts;
pub mod person;
pub mod record;
