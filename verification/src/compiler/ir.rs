//! The abstract item model a parsed schema file lowers to: struct, enum
//! and flag definitions with their fields, and the imports beside them.

use vstd::prelude::*;

verus! {

/// A type reference as written: a name and its generic arguments.
#[derive(Debug)]
pub struct TypeData {
    pub name: String,
    pub generics: Vec<TypeData>,
}

/// A named field with its written type.
#[derive(Debug)]
pub struct FieldData {
    pub name: String,
    pub ty: TypeData,
}

/// A named enum variant with its fields.
#[derive(Debug)]
pub struct VariantData {
    pub name: String,
    pub fields: Vec<FieldData>,
}

/// A named flag of a flag enum.
#[derive(Debug)]
pub struct FlagData {
    pub name: String,
}

/// A struct definition.
#[derive(Debug)]
pub struct StructData {
    pub name: String,
    pub fields: Vec<FieldData>,
}

/// An enum definition.
#[derive(Debug)]
pub struct EnumData {
    pub name: String,
    pub variants: Vec<VariantData>,
}

/// A flag enum definition.
#[derive(Debug)]
pub struct FlagsData {
    pub name: String,
    pub flags: Vec<FlagData>,
}

/// Any top-level item definition.
#[derive(Debug)]
pub enum ItemData {
    Struct(StructData),
    Enum(EnumData),
    Flags(FlagsData),
}

impl ItemData {
    /// The item's declared name, whatever its shape.
    pub open spec fn spec_name(&self) -> Seq<char> {
        match self {
            ItemData::Struct(d) => d.name@,
            ItemData::Enum(d) => d.name@,
            ItemData::Flags(d) => d.name@,
        }
    }

    pub fn name(&self) -> (r: &str)
        ensures
            r@ == self.spec_name(),
    {
        match self {
            ItemData::Struct(d) => d.name.as_str(),
            ItemData::Enum(d) => d.name.as_str(),
            ItemData::Flags(d) => d.name.as_str(),
        }
    }

    pub fn name_ref(&self) -> (r: &String)
        ensures
            r@ == self.spec_name(),
    {
        match self {
            ItemData::Struct(d) => &d.name,
            ItemData::Enum(d) => &d.name,
            ItemData::Flags(d) => &d.name,
        }
    }
}

/// One alias of an import: the imported name, and the name it is brought
/// in under.
#[derive(Debug)]
pub struct AliasData {
    pub from: String,
    pub to: String,
}

/// An import: either every public name of the imported file, or a list of
/// aliases; the path is as written, relative to the importing file.
#[derive(Debug)]
pub struct ImportData {
    pub star: bool,
    pub aliases: Vec<AliasData>,
    pub path: String,
}

} // verus!
