//! The canonical project model a compiled schema lowers to: modules with
//! stable dense identifiers, user types in definition order, and type
//! references that name either a built-in kind or a user type.

use vstd::prelude::*;

verus! {

/// A target language for generated source.
#[derive(Debug, Clone, Copy, PartialEq, Eq, Structural)]
pub enum Language {
    Rust,
}

impl Language {
    /// The file extension of the language's source files.
    pub fn extension(&self) -> (r: &'static str)
        ensures
            r@ == "rs"@,
    {
        match self {
            Language::Rust => "rs",
        }
    }
}

/// A built-in type kind of the schema language.
#[derive(Debug, Clone, Copy, PartialEq, Eq, Structural)]
pub enum BuiltinType {
    Bool,
    U8,
    U16,
    U32,
    U64,
    I8,
    I16,
    I32,
    I64,
    F32,
    F64,
    Uint,
    Sint,
    Float,
    StringType,
    Vector,
    StreamType,
}

/// The project-unique identifier of a user-defined type.
#[derive(Debug, Clone, Copy, PartialEq, Eq, Structural)]
pub struct UserTypeId(pub usize);

/// A type's identity: a built-in kind or a user type.
#[derive(Debug, Clone, Copy, PartialEq, Eq, Structural)]
pub enum TypeId {
    Builtin(BuiltinType),
    User(UserTypeId),
}

/// A type reference: an identity plus its ordered generic arguments.
#[derive(Debug)]
pub struct Type {
    pub id: TypeId,
    pub generics: Vec<Type>,
}

/// An attribute on a user type or field.
#[derive(Debug, Clone, Copy, PartialEq, Eq, Structural)]
pub enum Attribute {
    NonExhaustive,
}

/// A named field with its type.
#[derive(Debug)]
pub struct Field {
    pub name: String,
    pub ty: Type,
    pub attrs: Vec<Attribute>,
}

/// A named enum variant with its fields.
#[derive(Debug)]
pub struct Variant {
    pub name: String,
    pub fields: Vec<Field>,
    pub attrs: Vec<Attribute>,
}

/// A user-defined struct.
#[derive(Debug)]
pub struct StructType {
    pub id: UserTypeId,
    pub name: String,
    pub fields: Vec<Field>,
    pub attrs: Vec<Attribute>,
}

/// A user-defined enum.
#[derive(Debug)]
pub struct EnumType {
    pub id: UserTypeId,
    pub name: String,
    pub variants: Vec<Variant>,
    pub attrs: Vec<Attribute>,
}

/// A user-defined flag enum.
#[derive(Debug)]
pub struct FlagsType {
    pub id: UserTypeId,
    pub name: String,
    pub flags: Vec<String>,
    pub attrs: Vec<Attribute>,
}

/// Any user-defined type.
#[derive(Debug)]
pub enum UserType {
    Struct(StructType),
    Enum(EnumType),
    Flags(FlagsType),
}

/// The dense identifier of a module within a project.
#[derive(Debug, Clone, Copy, PartialEq, Eq, Structural)]
pub struct ModuleId(pub usize);

/// A module's path components, relative to the root module.
#[derive(Debug)]
pub struct ModulePath(pub Vec<String>);

/// One module: its identifier, path and user types in definition order.
#[derive(Debug)]
pub struct Module {
    pub id: ModuleId,
    pub path: ModulePath,
    pub types: Vec<UserType>,
}

/// A whole project: its ordered modules.
#[derive(Debug)]
pub struct Project {
    pub modules: Vec<Module>,
}

impl UserType {
    /// The type's project-unique identifier, whatever its shape.
    pub open spec fn spec_id(&self) -> UserTypeId {
        match self {
            UserType::Struct(t) => t.id,
            UserType::Enum(t) => t.id,
            UserType::Flags(t) => t.id,
        }
    }

    /// The type's declared name, whatever its shape.
    pub open spec fn spec_name(&self) -> Seq<char> {
        match self {
            UserType::Struct(t) => t.name@,
            UserType::Enum(t) => t.name@,
            UserType::Flags(t) => t.name@,
        }
    }

    pub fn id(&self) -> (r: UserTypeId)
        ensures
            r == self.spec_id(),
    {
        match self {
            UserType::Struct(t) => t.id,
            UserType::Enum(t) => t.id,
            UserType::Flags(t) => t.id,
        }
    }

    pub fn name(&self) -> (r: &str)
        ensures
            r@ == self.spec_name(),
    {
        match self {
            UserType::Struct(t) => t.name.as_str(),
            UserType::Enum(t) => t.name.as_str(),
            UserType::Flags(t) => t.name.as_str(),
        }
    }

    /// The identities of the types this type structurally uses: each
    /// field's type and that type's generic arguments, in order. Flag
    /// enums use nothing.
    pub open spec fn spec_used_types(&self) -> Seq<TypeId> {
        match self {
            UserType::Struct(t) => flat_field_uses(t.fields@),
            UserType::Enum(t) => flat_variant_uses(t.variants@),
            UserType::Flags(_) => Seq::empty(),
        }
    }

    pub fn used_types(&self) -> (r: Vec<TypeId>)
        ensures
            r@ == self.spec_used_types(),
    {
        let mut r: Vec<TypeId> = Vec::new();
        match self {
            UserType::Struct(t) => {
                push_field_uses(&t.fields, &mut r);
                assert(r@ =~= Seq::<TypeId>::empty() + flat_field_uses(t.fields@));
            },
            UserType::Enum(t) => {
                let n = t.variants.len();
                let mut k: usize = 0;
                proof {
                    assert(t.variants@.skip(0) =~= t.variants@);
                }
                while k < n
                    invariant
                        k <= n,
                        n == t.variants@.len(),
                        r@ + flat_variant_uses(t.variants@.skip(k as int)) == flat_variant_uses(
                            t.variants@,
                        ),
                    decreases n - k,
                {
                    let ghost r_before = r@;
                    proof {
                        let tail = t.variants@.skip(k as int);
                        assert(tail[0] == t.variants@[k as int]);
                        assert(tail.skip(1) =~= t.variants@.skip(k + 1));
                    }
                    push_field_uses(&t.variants[k].fields, &mut r);
                    proof {
                        assert(r@ + flat_variant_uses(t.variants@.skip(k + 1))
                            =~= r_before + flat_variant_uses(t.variants@.skip(k as int)));
                    }
                    k = k + 1;
                }
                assert(flat_variant_uses(t.variants@.skip(n as int)) =~= Seq::<TypeId>::empty());
                assert(r@ =~= r@ + flat_variant_uses(t.variants@.skip(n as int)));
            },
            UserType::Flags(_) => {},
        }
        r
    }
}

/// The identities one type reference contributes: its own and its
/// generics', in order.
pub open spec fn type_uses(t: &Type) -> Seq<TypeId> {
    seq![t.id] + Seq::new(t.generics@.len(), |k: int| t.generics@[k].id)
}

/// The identities a run of fields contributes, in declaration order.
pub open spec fn flat_field_uses(fields: Seq<Field>) -> Seq<TypeId>
    decreases fields.len(),
{
    if fields.len() == 0 {
        Seq::empty()
    } else {
        type_uses(&fields[0].ty) + flat_field_uses(fields.skip(1))
    }
}

/// The identities a run of variants contributes, in declaration order.
pub open spec fn flat_variant_uses(variants: Seq<Variant>) -> Seq<TypeId>
    decreases variants.len(),
{
    if variants.len() == 0 {
        Seq::empty()
    } else {
        flat_field_uses(variants[0].fields@) + flat_variant_uses(variants.skip(1))
    }
}

/// Append the identities a run of fields uses.
fn push_field_uses(fields: &Vec<Field>, r: &mut Vec<TypeId>)
    ensures
        final(r)@ == old(r)@ + flat_field_uses(fields@),
{
    let n = fields.len();
    let mut k: usize = 0;
    proof {
        assert(fields@.skip(0) =~= fields@);
    }
    while k < n
        invariant
            k <= n,
            n == fields@.len(),
            r@ + flat_field_uses(fields@.skip(k as int)) == old(r)@ + flat_field_uses(fields@),
        decreases n - k,
    {
        proof {
            let tail = fields@.skip(k as int);
            assert(tail[0] == fields@[k as int]);
            assert(tail.skip(1) =~= fields@.skip(k + 1));
        }
        let ty = &fields[k].ty;
        let ghost r_before = r@;
        r.push(ty.id);
        let m = ty.generics.len();
        let mut g: usize = 0;
        while g < m
            invariant
                g <= m,
                m == ty.generics@.len(),
                r@ == r_before.push(ty.id) + Seq::new(g as nat, |x: int| ty.generics@[x].id),
            decreases m - g,
        {
            r.push(ty.generics[g].id);
            proof {
                assert(r@ =~= r_before.push(ty.id) + Seq::new(
                    (g + 1) as nat,
                    |x: int| ty.generics@[x].id,
                ));
            }
            g = g + 1;
        }
        proof {
            assert(r@ =~= r_before + type_uses(&fields@[k as int].ty));
            assert(r@ + flat_field_uses(fields@.skip(k + 1)) =~= old(r)@ + flat_field_uses(
                fields@,
            ));
        }
        k = k + 1;
    }
    assert(flat_field_uses(fields@.skip(n as int)) =~= Seq::<TypeId>::empty());
    assert(r@ =~= r@ + flat_field_uses(fields@.skip(n as int)));
}

/// `ceil(n_bits / 8)`: how many bytes a bitmap of `n_bits` flags takes.
pub fn byte_size(n_bits: usize) -> (r: usize)
    ensures
        r == crate::base::boolean::spec_byte_size(n_bits as nat),
{
    crate::base::boolean::byte_size(n_bits)
}

} // verus!
