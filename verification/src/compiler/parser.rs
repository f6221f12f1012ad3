//! The schema parser: tokens to top-level items and imports. On a
//! syntactic error the parser records the error and skips tokens until
//! the next `struct`, `enum` or `flags` keyword, then resumes; an unknown
//! top-level token records an error and consumes one token.

use vstd::prelude::*;

use crate::compiler::ir::{
    AliasData, EnumData, FieldData, FlagData, FlagsData, ImportData, ItemData, StructData,
    TypeData, VariantData,
};
use crate::compiler::lexer::{token_views, Token, TokenKind};
use crate::compiler::semantics::clone_string;

verus! {

broadcast use vstd::std_specs::vec::axiom_vec_index_decreases;

/// A parsed type reference, as the model sees it.
pub struct TypeV {
    pub name: Seq<char>,
    pub generics: Seq<TypeV>,
}

/// A parsed field, as the model sees it.
pub struct FieldV {
    pub name: Seq<char>,
    pub ty: TypeV,
}

/// A parsed variant, as the model sees it.
pub struct VariantV {
    pub name: Seq<char>,
    pub fields: Seq<FieldV>,
}

/// A parsed item, as the model sees it.
pub enum ItemV {
    Struct { name: Seq<char>, fields: Seq<FieldV> },
    Enum { name: Seq<char>, variants: Seq<VariantV> },
    Flags { name: Seq<char>, flags: Seq<Seq<char>> },
}

/// A parsed alias, as the model sees it.
pub struct AliasV {
    pub from: Seq<char>,
    pub to: Seq<char>,
}

/// A parsed import, as the model sees it.
pub struct ImportV {
    pub star: bool,
    pub aliases: Seq<AliasV>,
    pub path: Seq<char>,
}

/// The model of a written type.
pub open spec fn type_data_view(t: &TypeData) -> TypeV
    decreases t,
{
    TypeV {
        name: t.name@,
        generics: Seq::new(
            t.generics@.len(),
            |k: int|
                if 0 <= k < t.generics@.len() {
                    type_data_view(&t.generics@[k])
                } else {
                    arbitrary()
                },
        ),
    }
}

/// The model of a written field.
pub open spec fn field_view(f: &FieldData) -> FieldV {
    FieldV { name: f.name@, ty: type_data_view(&f.ty) }
}

/// The models of a run of fields.
pub open spec fn fields_view(fs: Seq<FieldData>) -> Seq<FieldV> {
    Seq::new(fs.len(), |k: int| field_view(&fs[k]))
}

/// The model of a written variant.
pub open spec fn variant_view(v: &VariantData) -> VariantV {
    VariantV { name: v.name@, fields: fields_view(v.fields@) }
}

/// The model of a written item.
pub open spec fn item_view(item: &ItemData) -> ItemV {
    match item {
        ItemData::Struct(d) => ItemV::Struct { name: d.name@, fields: fields_view(d.fields@) },
        ItemData::Enum(d) => ItemV::Enum {
            name: d.name@,
            variants: Seq::new(d.variants@.len(), |k: int| variant_view(&d.variants@[k])),
        },
        ItemData::Flags(d) => ItemV::Flags {
            name: d.name@,
            flags: Seq::new(d.flags@.len(), |k: int| d.flags@[k].name@),
        },
    }
}

/// The models of a run of items.
pub open spec fn items_view(items: Seq<ItemData>) -> Seq<ItemV> {
    Seq::new(items.len(), |k: int| item_view(&items[k]))
}

/// The model of a written import.
pub open spec fn import_view(im: &ImportData) -> ImportV {
    ImportV {
        star: im.star,
        aliases: Seq::new(
            im.aliases@.len(),
            |k: int| AliasV { from: im.aliases@[k].from@, to: im.aliases@[k].to@ },
        ),
        path: im.path@,
    }
}

/// The models of a run of imports.
pub open spec fn imports_view(ims: Seq<ImportData>) -> Seq<ImportV> {
    Seq::new(ims.len(), |k: int| import_view(&ims[k]))
}

/// A token stream as the parser's model sees it.
pub type Toks = Seq<(TokenKind, Seq<char>, int)>;

/// Whether a token opens an item definition.
pub open spec fn is_item_kw(k: TokenKind) -> bool {
    k == TokenKind::KwStruct || k == TokenKind::KwEnum || k == TokenKind::KwFlags
}

/// Parsing a type: a name, then an optional angle-bracketed generic list.
pub open spec fn p_type(t: Toks, i: int) -> Option<(TypeV, int)>
    decreases t.len() - i, 0int,
    when 0 <= i <= t.len()
{
    if i < t.len() && t[i].0 == TokenKind::Ident {
        if i + 1 < t.len() && t[i + 1].0 == TokenKind::Lt {
            match p_gen_list(t, i + 2) {
                None => None,
                Some((gs, j)) => Some((TypeV { name: t[i].1, generics: gs }, j)),
            }
        } else {
            Some((TypeV { name: t[i].1, generics: Seq::empty() }, i + 1))
        }
    } else {
        None
    }
}

/// Parsing the rest of a generic list: types separated by commas, closed
/// by a right angle bracket.
pub open spec fn p_gen_list(t: Toks, i: int) -> Option<(Seq<TypeV>, int)>
    decreases t.len() - i, 1int,
    when 0 <= i <= t.len()
{
    if i >= t.len() {
        None
    } else {
        match p_type(t, i) {
            None => None,
            Some((v, j)) => {
                if !(i < j <= t.len()) {
                    None
                } else if j < t.len() && t[j].0 == TokenKind::Comma {
                    match p_gen_list(t, j + 1) {
                        None => None,
                        Some((gs, k)) => Some((seq![v] + gs, k)),
                    }
                } else if j < t.len() && t[j].0 == TokenKind::Gt {
                    Some((seq![v], j + 1))
                } else {
                    None
                }
            },
        }
    }
}

/// Parsing a field: a name, a colon, a type.
pub open spec fn p_field(t: Toks, i: int) -> Option<(FieldV, int)> {
    if i + 1 < t.len() && t[i].0 == TokenKind::Ident && t[i + 1].0 == TokenKind::Colon {
        match p_type(t, i + 2) {
            None => None,
            Some((ty, j)) => Some((FieldV { name: t[i].1, ty }, j)),
        }
    } else {
        None
    }
}

/// Parsing a struct's (or variant's) body after the opening brace:
/// comma-separated fields, a trailing comma allowed, closed by a brace.
pub open spec fn p_fields(t: Toks, i: int) -> Option<(Seq<FieldV>, int)>
    decreases t.len() - i,
    when 0 <= i <= t.len()
{
    if i >= t.len() {
        None
    } else if t[i].0 == TokenKind::RBrace {
        Some((Seq::empty(), i + 1))
    } else {
        match p_field(t, i) {
            None => None,
            Some((f, j)) => {
                if !(i < j <= t.len()) {
                    None
                } else if j < t.len() && t[j].0 == TokenKind::Comma {
                    match p_fields(t, j + 1) {
                        None => None,
                        Some((fs, k)) => Some((seq![f] + fs, k)),
                    }
                } else if j < t.len() && t[j].0 == TokenKind::RBrace {
                    Some((seq![f], j + 1))
                } else {
                    None
                }
            },
        }
    }
}

/// Parsing a variant: a name, then an optional braced field body. A bare
/// variant ends at the following comma or closing brace.
pub open spec fn p_variant(t: Toks, i: int) -> Option<(VariantV, int)> {
    if i < t.len() && t[i].0 == TokenKind::Ident {
        if i + 1 < t.len() && t[i + 1].0 == TokenKind::LBrace {
            match p_fields(t, i + 2) {
                None => None,
                Some((fs, j)) => Some((VariantV { name: t[i].1, fields: fs }, j)),
            }
        } else if i + 1 < t.len() && (t[i + 1].0 == TokenKind::Comma || t[i + 1].0
            == TokenKind::RBrace) {
            Some((VariantV { name: t[i].1, fields: Seq::empty() }, i + 1))
        } else {
            None
        }
    } else {
        None
    }
}

/// Parsing an enum's body after the opening brace.
pub open spec fn p_variants(t: Toks, i: int) -> Option<(Seq<VariantV>, int)>
    decreases t.len() - i,
    when 0 <= i <= t.len()
{
    if i >= t.len() {
        None
    } else if t[i].0 == TokenKind::RBrace {
        Some((Seq::empty(), i + 1))
    } else {
        match p_variant(t, i) {
            None => None,
            Some((v, j)) => {
                if !(i < j <= t.len()) {
                    None
                } else if j < t.len() && t[j].0 == TokenKind::Comma {
                    match p_variants(t, j + 1) {
                        None => None,
                        Some((vs, k)) => Some((seq![v] + vs, k)),
                    }
                } else if j < t.len() && t[j].0 == TokenKind::RBrace {
                    Some((seq![v], j + 1))
                } else {
                    None
                }
            },
        }
    }
}

/// Parsing a flag enum's body after the opening brace: bare names.
pub open spec fn p_flags_body(t: Toks, i: int) -> Option<(Seq<Seq<char>>, int)>
    decreases t.len() - i,
    when 0 <= i <= t.len()
{
    if i >= t.len() {
        None
    } else if t[i].0 == TokenKind::RBrace {
        Some((Seq::empty(), i + 1))
    } else if t[i].0 == TokenKind::Ident {
        let j = i + 1;
        if j < t.len() && t[j].0 == TokenKind::Comma {
            match p_flags_body(t, j + 1) {
                None => None,
                Some((fs, k)) => Some((seq![t[i].1] + fs, k)),
            }
        } else if j < t.len() && t[j].0 == TokenKind::RBrace {
            Some((seq![t[i].1], j + 1))
        } else {
            None
        }
    } else {
        None
    }
}

/// Parsing one item definition: its keyword, its name, an opening brace,
/// its body.
pub open spec fn p_item(t: Toks, i: int) -> Option<(ItemV, int)> {
    if i + 2 < t.len() && t[i + 1].0 == TokenKind::Ident && t[i + 2].0 == TokenKind::LBrace {
        let name = t[i + 1].1;
        if t[i].0 == TokenKind::KwStruct {
            match p_fields(t, i + 3) {
                None => None,
                Some((fs, j)) => Some((ItemV::Struct { name, fields: fs }, j)),
            }
        } else if t[i].0 == TokenKind::KwEnum {
            match p_variants(t, i + 3) {
                None => None,
                Some((vs, j)) => Some((ItemV::Enum { name, variants: vs }, j)),
            }
        } else if t[i].0 == TokenKind::KwFlags {
            match p_flags_body(t, i + 3) {
                None => None,
                Some((fs, j)) => Some((ItemV::Flags { name, flags: fs }, j)),
            }
        } else {
            None
        }
    } else {
        None
    }
}

/// Parsing one alias: a name, optionally renamed with `as`.
pub open spec fn p_alias(t: Toks, i: int) -> Option<(AliasV, int)> {
    if i < t.len() && t[i].0 == TokenKind::Ident {
        if i + 2 < t.len() && t[i + 1].0 == TokenKind::KwAs && t[i + 2].0 == TokenKind::Ident {
            Some((AliasV { from: t[i].1, to: t[i + 2].1 }, i + 3))
        } else {
            Some((AliasV { from: t[i].1, to: t[i].1 }, i + 1))
        }
    } else {
        None
    }
}

/// Parsing an import's alias list: aliases separated by commas, ending
/// right before the `from` keyword (which stays unconsumed).
pub open spec fn p_alias_list(t: Toks, i: int) -> Option<(Seq<AliasV>, int)>
    decreases t.len() - i,
    when 0 <= i <= t.len()
{
    if i >= t.len() {
        None
    } else {
        match p_alias(t, i) {
            None => None,
            Some((a, j)) => {
                if !(i < j <= t.len()) {
                    None
                } else if j < t.len() && t[j].0 == TokenKind::Comma {
                    match p_alias_list(t, j + 1) {
                        None => None,
                        Some((more, k)) => Some((seq![a] + more, k)),
                    }
                } else if j < t.len() && t[j].0 == TokenKind::KwFrom {
                    Some((seq![a], j))
                } else {
                    None
                }
            },
        }
    }
}

/// Parsing an import: `import` then a star or an alias list, `from`, a
/// path string.
pub open spec fn p_import(t: Toks, i: int) -> Option<(ImportV, int)> {
    if i < t.len() && t[i].0 == TokenKind::KwImport {
        let listed: Option<(bool, Seq<AliasV>, int)> = if i + 1 < t.len() && t[i + 1].0
            == TokenKind::Star {
            Some((true, Seq::empty(), i + 2))
        } else {
            match p_alias_list(t, i + 1) {
                None => None,
                Some((aliases, j)) => Some((false, aliases, j)),
            }
        };
        match listed {
            None => None,
            Some((star, aliases, j)) => {
                if j + 1 < t.len() && t[j].0 == TokenKind::KwFrom && t[j + 1].0
                    == TokenKind::StrLit {
                    Some((ImportV { star, aliases, path: t[j + 1].1 }, j + 2))
                } else {
                    None
                }
            },
        }
    } else {
        None
    }
}

/// The first position at or after `i` whose token opens an item
/// definition, or the stream's end: where recovery resumes.
pub open spec fn skip_to_item(t: Toks, i: int) -> int
    decreases t.len() - i,
    when 0 <= i <= t.len()
{
    if i >= t.len() {
        i
    } else if is_item_kw(t[i].0) {
        i
    } else {
        skip_to_item(t, i + 1)
    }
}

pub proof fn lemma_skip_bounds(t: Toks, i: int)
    requires
        0 <= i <= t.len(),
    ensures
        i <= skip_to_item(t, i) <= t.len(),
    decreases t.len() - i,
{
    if i < t.len() && !is_item_kw(t[i].0) {
        lemma_skip_bounds(t, i + 1);
    }
}

/// Parsing a whole file from position `i`: the items and imports in
/// order, and how many errors were recorded. A failed item or import
/// records one error and resumes at the next item keyword; any other
/// unexpected token records one error and is consumed.
pub open spec fn p_root(t: Toks, i: int) -> (Seq<ItemV>, Seq<ImportV>, nat)
    decreases t.len() - i,
    when 0 <= i <= t.len()
{
    if i >= t.len() {
        (Seq::empty(), Seq::empty(), 0)
    } else if is_item_kw(t[i].0) {
        match p_item(t, i) {
            Some((v, j)) => {
                if i < j <= t.len() {
                    let rest = p_root(t, j);
                    (seq![v] + rest.0, rest.1, rest.2)
                } else {
                    (Seq::empty(), Seq::empty(), 0)
                }
            },
            None => {
                proof {
                    lemma_skip_bounds(t, i + 1);
                }
                let rest = p_root(t, skip_to_item(t, i + 1));
                (rest.0, rest.1, rest.2 + 1)
            },
        }
    } else if t[i].0 == TokenKind::KwImport {
        match p_import(t, i) {
            Some((v, j)) => {
                if i < j <= t.len() {
                    let rest = p_root(t, j);
                    (rest.0, seq![v] + rest.1, rest.2)
                } else {
                    (Seq::empty(), Seq::empty(), 0)
                }
            },
            None => {
                proof {
                    lemma_skip_bounds(t, i + 1);
                }
                let rest = p_root(t, skip_to_item(t, i + 1));
                (rest.0, rest.1, rest.2 + 1)
            },
        }
    } else {
        let rest = p_root(t, i + 1);
        (rest.0, rest.1, rest.2 + 1)
    }
}

/// What a parse produced: the items and imports in source order, and the
/// recorded errors' character positions.
pub struct ParseOutput {
    pub items: Vec<ItemData>,
    pub imports: Vec<ImportData>,
    pub errors: Vec<usize>,
}

/// Parse a type reference.
fn parse_type(t: &Vec<Token>, i: usize) -> (r: Option<(TypeData, usize)>)
    requires
        i <= t@.len(),
    ensures
        match r {
            Some((ty, j)) => p_type(token_views(t@), i as int) == Some(
                (type_data_view(&ty), j as int),
            ) && i < j <= t@.len(),
            None => p_type(token_views(t@), i as int) is None,
        },
    decreases t@.len() - i, 0int,
{
    let ghost tv = token_views(t@);
    if i < t.len() && t[i].kind == TokenKind::Ident {
        let name = clone_string(&t[i].text);
        if i + 1 < t.len() && t[i + 1].kind == TokenKind::Lt {
            match parse_gen_list(t, i + 2) {
                None => None,
                Some((gs, j)) => {
                    let ty = TypeData { name, generics: gs };
                    proof {
                        assert(type_data_view(&ty).generics =~= p_gen_list(tv, i + 2)->Some_0.0);
                        assert(type_data_view(&ty) == p_type(tv, i as int)->Some_0.0);
                    }
                    Some((ty, j))
                },
            }
        } else {
            let ty = TypeData { name, generics: Vec::new() };
            proof {
                assert(type_data_view(&ty).generics =~= Seq::<TypeV>::empty());
                assert(type_data_view(&ty) == p_type(tv, i as int)->Some_0.0);
            }
            Some((ty, i + 1))
        }
    } else {
        None
    }
}

/// Parse the rest of a generic list.
fn parse_gen_list(t: &Vec<Token>, i: usize) -> (r: Option<(Vec<TypeData>, usize)>)
    requires
        i <= t@.len(),
    ensures
        match r {
            Some((gs, j)) => p_gen_list(token_views(t@), i as int) matches Some((vs, jj))
                && vs == Seq::new(gs@.len(), |k: int| type_data_view(&gs@[k])) && jj == j as int
                && i < j <= t@.len(),
            None => p_gen_list(token_views(t@), i as int) is None,
        },
    decreases t@.len() - i, 1int,
{
    let ghost tv = token_views(t@);
    if i >= t.len() {
        return None;
    }
    match parse_type(t, i) {
        None => None,
        Some((v, j)) => {
            if j < t.len() && t[j].kind == TokenKind::Comma {
                match parse_gen_list(t, j + 1) {
                    None => None,
                    Some((mut gs, k)) => {
                        gs.insert(0, v);
                        proof {
                            let vs = p_gen_list(tv, j + 1)->Some_0.0;
                            assert(Seq::new(gs@.len(), |x: int| type_data_view(&gs@[x]))
                                =~= seq![p_type(tv, i as int)->Some_0.0] + vs);
                        }
                        Some((gs, k))
                    },
                }
            } else if j < t.len() && t[j].kind == TokenKind::Gt {
                let mut gs: Vec<TypeData> = Vec::new();
                gs.push(v);
                proof {
                    assert(Seq::new(gs@.len(), |x: int| type_data_view(&gs@[x])) =~= seq![
                        p_type(tv, i as int)->Some_0.0,
                    ]);
                }
                Some((gs, j + 1))
            } else {
                None
            }
        },
    }
}

/// Parse one field.
fn parse_field(t: &Vec<Token>, i: usize) -> (r: Option<(FieldData, usize)>)
    requires
        i <= t@.len(),
    ensures
        match r {
            Some((f, j)) => p_field(token_views(t@), i as int) == Some(
                (field_view(&f), j as int),
            ) && i < j <= t@.len(),
            None => p_field(token_views(t@), i as int) is None,
        },
    decreases t@.len() - i,
{
    if i < t.len() && i + 1 < t.len() && t[i].kind == TokenKind::Ident && t[i + 1].kind
        == TokenKind::Colon {
        let name = clone_string(&t[i].text);
        match parse_type(t, i + 2) {
            None => None,
            Some((ty, j)) => Some((FieldData { name, ty }, j)),
        }
    } else {
        None
    }
}

/// Parse a braced field body.
fn parse_fields(t: &Vec<Token>, i: usize) -> (r: Option<(Vec<FieldData>, usize)>)
    requires
        i <= t@.len(),
    ensures
        match r {
            Some((fs, j)) => p_fields(token_views(t@), i as int) == Some(
                (fields_view(fs@), j as int),
            ) && i < j <= t@.len(),
            None => p_fields(token_views(t@), i as int) is None,
        },
    decreases t@.len() - i,
{
    let ghost tv = token_views(t@);
    if i >= t.len() {
        return None;
    }
    if t[i].kind == TokenKind::RBrace {
        proof {
            assert(fields_view(Seq::<FieldData>::empty()) =~= Seq::<FieldV>::empty());
        }
        return Some((Vec::new(), i + 1));
    }
    match parse_field(t, i) {
        None => None,
        Some((f, j)) => {
            if j < t.len() && t[j].kind == TokenKind::Comma {
                match parse_fields(t, j + 1) {
                    None => None,
                    Some((mut fs, k)) => {
                        let ghost fv = field_view(&f);
                        fs.insert(0, f);
                        proof {
                            assert(fields_view(fs@) =~= seq![fv] + p_fields(
                                tv,
                                j + 1,
                            )->Some_0.0);
                        }
                        Some((fs, k))
                    },
                }
            } else if j < t.len() && t[j].kind == TokenKind::RBrace {
                let ghost fv = field_view(&f);
                let mut fs: Vec<FieldData> = Vec::new();
                fs.push(f);
                proof {
                    assert(fields_view(fs@) =~= seq![fv]);
                }
                Some((fs, j + 1))
            } else {
                None
            }
        },
    }
}

/// Parse one variant.
fn parse_variant(t: &Vec<Token>, i: usize) -> (r: Option<(VariantData, usize)>)
    requires
        i <= t@.len(),
    ensures
        match r {
            Some((v, j)) => p_variant(token_views(t@), i as int) == Some(
                (variant_view(&v), j as int),
            ) && i < j <= t@.len(),
            None => p_variant(token_views(t@), i as int) is None,
        },
    decreases t@.len() - i,
{
    if i < t.len() && t[i].kind == TokenKind::Ident {
        let name = clone_string(&t[i].text);
        if i + 1 < t.len() && t[i + 1].kind == TokenKind::LBrace {
            match parse_fields(t, i + 2) {
                None => None,
                Some((fields, j)) => Some((VariantData { name, fields }, j)),
            }
        } else if i + 1 < t.len() && (t[i + 1].kind == TokenKind::Comma || t[i + 1].kind
            == TokenKind::RBrace) {
            let v = VariantData { name, fields: Vec::new() };
            proof {
                assert(variant_view(&v).fields =~= Seq::<FieldV>::empty());
            }
            Some((v, i + 1))
        } else {
            None
        }
    } else {
        None
    }
}

/// Parse a braced variant body.
fn parse_variants(t: &Vec<Token>, i: usize) -> (r: Option<(Vec<VariantData>, usize)>)
    requires
        i <= t@.len(),
    ensures
        match r {
            Some((vs, j)) => p_variants(token_views(t@), i as int) matches Some((ws, jj)) && ws
                == Seq::new(vs@.len(), |k: int| variant_view(&vs@[k])) && jj == j as int && i < j
                <= t@.len(),
            None => p_variants(token_views(t@), i as int) is None,
        },
    decreases t@.len() - i,
{
    let ghost tv = token_views(t@);
    if i >= t.len() {
        return None;
    }
    if t[i].kind == TokenKind::RBrace {
        let vs: Vec<VariantData> = Vec::new();
        proof {
            assert(Seq::new(vs@.len(), |k: int| variant_view(&vs@[k])) =~= Seq::<
                VariantV,
            >::empty());
        }
        return Some((vs, i + 1));
    }
    match parse_variant(t, i) {
        None => None,
        Some((v, j)) => {
            if j < t.len() && t[j].kind == TokenKind::Comma {
                match parse_variants(t, j + 1) {
                    None => None,
                    Some((mut vs, k)) => {
                        let ghost vv = variant_view(&v);
                        vs.insert(0, v);
                        proof {
                            assert(Seq::new(vs@.len(), |x: int| variant_view(&vs@[x])) =~= seq![vv]
                                + p_variants(tv, j + 1)->Some_0.0);
                        }
                        Some((vs, k))
                    },
                }
            } else if j < t.len() && t[j].kind == TokenKind::RBrace {
                let ghost vv = variant_view(&v);
                let mut vs: Vec<VariantData> = Vec::new();
                vs.push(v);
                proof {
                    assert(Seq::new(vs@.len(), |x: int| variant_view(&vs@[x])) =~= seq![vv]);
                }
                Some((vs, j + 1))
            } else {
                None
            }
        },
    }
}

/// Parse a braced flag body.
fn parse_flags_body(t: &Vec<Token>, i: usize) -> (r: Option<(Vec<FlagData>, usize)>)
    requires
        i <= t@.len(),
    ensures
        match r {
            Some((fs, j)) => p_flags_body(token_views(t@), i as int) matches Some((ws, jj)) && ws
                == Seq::new(fs@.len(), |k: int| fs@[k].name@) && jj == j as int && i < j
                <= t@.len(),
            None => p_flags_body(token_views(t@), i as int) is None,
        },
    decreases t@.len() - i,
{
    let ghost tv = token_views(t@);
    if i >= t.len() {
        return None;
    }
    if t[i].kind == TokenKind::RBrace {
        let fs: Vec<FlagData> = Vec::new();
        proof {
            assert(Seq::new(fs@.len(), |k: int| fs@[k].name@) =~= Seq::<Seq<char>>::empty());
        }
        return Some((fs, i + 1));
    }
    if t[i].kind == TokenKind::Ident {
        let name = clone_string(&t[i].text);
        let j = i + 1;
        if j < t.len() && t[j].kind == TokenKind::Comma {
            match parse_flags_body(t, j + 1) {
                None => None,
                Some((mut fs, k)) => {
                    let ghost nv = name@;
                    fs.insert(0, FlagData { name });
                    proof {
                        assert(Seq::new(fs@.len(), |x: int| fs@[x].name@) =~= seq![nv]
                            + p_flags_body(tv, j + 1)->Some_0.0);
                    }
                    Some((fs, k))
                },
            }
        } else if j < t.len() && t[j].kind == TokenKind::RBrace {
            let ghost nv = name@;
            let mut fs: Vec<FlagData> = Vec::new();
            fs.push(FlagData { name });
            proof {
                assert(Seq::new(fs@.len(), |x: int| fs@[x].name@) =~= seq![nv]);
            }
            Some((fs, j + 1))
        } else {
            None
        }
    } else {
        None
    }
}

/// Parse one item definition.
fn parse_item(t: &Vec<Token>, i: usize) -> (r: Option<(ItemData, usize)>)
    requires
        i <= t@.len(),
    ensures
        match r {
            Some((item, j)) => p_item(token_views(t@), i as int) == Some(
                (item_view(&item), j as int),
            ) && i < j <= t@.len(),
            None => p_item(token_views(t@), i as int) is None,
        },
{
    if i < t.len() && i + 1 < t.len() && i + 2 < t.len() && t[i + 1].kind == TokenKind::Ident && t[
        i + 2].kind == TokenKind::LBrace {
        let name = clone_string(&t[i + 1].text);
        if t[i].kind == TokenKind::KwStruct {
            match parse_fields(t, i + 3) {
                None => None,
                Some((fields, j)) => Some((ItemData::Struct(StructData { name, fields }), j)),
            }
        } else if t[i].kind == TokenKind::KwEnum {
            match parse_variants(t, i + 3) {
                None => None,
                Some((variants, j)) => Some((ItemData::Enum(EnumData { name, variants }), j)),
            }
        } else if t[i].kind == TokenKind::KwFlags {
            match parse_flags_body(t, i + 3) {
                None => None,
                Some((flags, j)) => Some((ItemData::Flags(FlagsData { name, flags }), j)),
            }
        } else {
            None
        }
    } else {
        None
    }
}

/// Parse one import.
fn parse_import(t: &Vec<Token>, i: usize) -> (r: Option<(ImportData, usize)>)
    requires
        i <= t@.len(),
    ensures
        match r {
            Some((im, j)) => p_import(token_views(t@), i as int) == Some(
                (import_view(&im), j as int),
            ) && i < j <= t@.len(),
            None => p_import(token_views(t@), i as int) is None,
        },
{
    let ghost tv = token_views(t@);
    if !(i < t.len() && t[i].kind == TokenKind::KwImport) {
        return None;
    }
    let star: bool;
    let mut aliases: Vec<AliasData> = Vec::new();
    let j: usize;
    if i + 1 < t.len() && t[i + 1].kind == TokenKind::Star {
        star = true;
        j = i + 2;
    } else {
        match parse_alias_list(t, i + 1) {
            None => {
                return None;
            },
            Some((list, jj)) => {
                star = false;
                aliases = list;
                j = jj;
            },
        }
    }
    if j < t.len() && j + 1 < t.len() && t[j].kind == TokenKind::KwFrom && t[j + 1].kind
        == TokenKind::StrLit {
        let path = clone_string(&t[j + 1].text);
        let im = ImportData { star, aliases, path };
        proof {
            if star {
                assert(import_view(&im).aliases =~= Seq::<AliasV>::empty());
            }
            assert(import_view(&im) == p_import(tv, i as int)->Some_0.0);
        }
        Some((im, j + 2))
    } else {
        None
    }
}

/// Parse an import's alias list.
fn parse_alias_list(t: &Vec<Token>, i: usize) -> (r: Option<(Vec<AliasData>, usize)>)
    requires
        i <= t@.len(),
    ensures
        match r {
            Some((list, j)) => p_alias_list(token_views(t@), i as int) matches Some((ws, jj))
                && ws == Seq::new(
                list@.len(),
                |k: int| AliasV { from: list@[k].from@, to: list@[k].to@ },
            ) && jj == j as int && i < j <= t@.len(),
            None => p_alias_list(token_views(t@), i as int) is None,
        },
    decreases t@.len() - i,
{
    let ghost tv = token_views(t@);
    if i >= t.len() {
        return None;
    }
    let (a, j): (AliasData, usize);
    if t[i].kind == TokenKind::Ident {
        if i + 1 < t.len() && i + 2 < t.len() && t[i + 1].kind == TokenKind::KwAs && t[i
            + 2].kind == TokenKind::Ident {
            a = AliasData {
                from: clone_string(&t[i].text),
                to: clone_string(&t[i + 2].text),
            };
            j = i + 3;
        } else {
            a = AliasData { from: clone_string(&t[i].text), to: clone_string(&t[i].text) };
            j = i + 1;
        }
    } else {
        return None;
    }
    if j < t.len() && t[j].kind == TokenKind::Comma {
        match parse_alias_list(t, j + 1) {
            None => None,
            Some((mut list, k)) => {
                let ghost av = AliasV { from: a.from@, to: a.to@ };
                list.insert(0, a);
                proof {
                    assert(Seq::new(
                        list@.len(),
                        |x: int| AliasV { from: list@[x].from@, to: list@[x].to@ },
                    ) =~= seq![av] + p_alias_list(tv, j + 1)->Some_0.0);
                }
                Some((list, k))
            },
        }
    } else if j < t.len() && t[j].kind == TokenKind::KwFrom {
        let ghost av = AliasV { from: a.from@, to: a.to@ };
        let mut list: Vec<AliasData> = Vec::new();
        list.push(a);
        proof {
            assert(Seq::new(
                list@.len(),
                |x: int| AliasV { from: list@[x].from@, to: list@[x].to@ },
            ) =~= seq![av]);
        }
        Some((list, j))
    } else {
        None
    }
}

/// Parse a whole tokenized file: the items and imports in source order,
/// with one recorded error per failed construct (recovery resumes at the
/// next item keyword) or unexpected token. Each error's character
/// position points at the token where parsing stopped.
pub fn parse(t: &Vec<Token>) -> (r: ParseOutput)
    ensures
        ({
            let (items, imports, n_err) = p_root(token_views(t@), 0);
            &&& items_view(r.items@) == items
            &&& imports_view(r.imports@) == imports
            &&& r.errors@.len() == n_err
        }),
{
    let ghost tv = token_views(t@);
    let n = t.len();
    let mut items: Vec<ItemData> = Vec::new();
    let mut imports: Vec<ImportData> = Vec::new();
    let mut errors: Vec<usize> = Vec::new();
    let mut i: usize = 0;
    proof {
        assert(items_view(items@) =~= Seq::<ItemV>::empty());
        assert(imports_view(imports@) =~= Seq::<ImportV>::empty());
    }
    while i < n
        invariant
            i <= n,
            n == tv.len(),
            tv == token_views(t@),
            ({
                let whole = p_root(tv, 0);
                let rest = p_root(tv, i as int);
                &&& items_view(items@) + rest.0 == whole.0
                &&& imports_view(imports@) + rest.1 == whole.1
                &&& errors@.len() + rest.2 == whole.2
            }),
        decreases n - i,
    {
        let kind = t[i].kind;
        if kind == TokenKind::KwStruct || kind == TokenKind::KwEnum || kind == TokenKind::KwFlags {
            match parse_item(t, i) {
                Some((item, j)) => {
                    let ghost iv = item_view(&item);
                    let ghost items0 = items@;
                    items.push(item);
                    proof {
                        assert(items@.drop_last() =~= items0);
                        assert(items_view(items@) =~= items_view(items0).push(iv));
                        assert(items_view(items0).push(iv) + p_root(tv, j as int).0
                            =~= items_view(items0) + (seq![iv] + p_root(tv, j as int).0));
                    }
                    i = j;
                },
                None => {
                    errors.push(t[i].start);
                    proof {
                        lemma_skip_bounds(tv, i + 1);
                    }
                    let mut k: usize = i + 1;
                    while k < n && !(t[k].kind == TokenKind::KwStruct || t[k].kind
                        == TokenKind::KwEnum || t[k].kind == TokenKind::KwFlags)
                        invariant
                            i + 1 <= k <= n,
                            n == tv.len(),
                            tv == token_views(t@),
                            skip_to_item(tv, i + 1) == skip_to_item(tv, k as int),
                        decreases n - k,
                    {
                        k = k + 1;
                    }
                    proof {
                        assert(skip_to_item(tv, k as int) == k);
                    }
                    i = k;
                },
            }
        } else if kind == TokenKind::KwImport {
            match parse_import(t, i) {
                Some((im, j)) => {
                    let ghost iv = import_view(&im);
                    let ghost imports0 = imports@;
                    imports.push(im);
                    proof {
                        assert(imports@.drop_last() =~= imports0);
                        assert(imports_view(imports@) =~= imports_view(imports0).push(iv));
                        assert(imports_view(imports0).push(iv) + p_root(tv, j as int).1
                            =~= imports_view(imports0) + (seq![iv] + p_root(tv, j as int).1));
                    }
                    i = j;
                },
                None => {
                    errors.push(t[i].start);
                    proof {
                        lemma_skip_bounds(tv, i + 1);
                    }
                    let mut k: usize = i + 1;
                    while k < n && !(t[k].kind == TokenKind::KwStruct || t[k].kind
                        == TokenKind::KwEnum || t[k].kind == TokenKind::KwFlags)
                        invariant
                            i + 1 <= k <= n,
                            n == tv.len(),
                            tv == token_views(t@),
                            skip_to_item(tv, i + 1) == skip_to_item(tv, k as int),
                        decreases n - k,
                    {
                        k = k + 1;
                    }
                    proof {
                        assert(skip_to_item(tv, k as int) == k);
                    }
                    i = k;
                },
            }
        } else {
            errors.push(t[i].start);
            i = i + 1;
        }
    }
    ParseOutput { items, imports, errors }
}

} // verus!
