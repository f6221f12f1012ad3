//! Name resolution and lowering: module paths from file paths, type
//! references against a module's scope, and item definitions to the
//! canonical project model.

use vstd::prelude::*;

use crate::compiler::ir::{FieldData, ItemData, TypeData, VariantData};
use crate::project::{
    Attribute, BuiltinType, EnumType, Field, FlagsType, StructType, Type, TypeId, UserType,
    UserTypeId, Variant,
};

verus! {

/// Relies on String::push: it appends exactly the one character.
pub assume_specification [ String::push ](s: &mut String, c: char)
    ensures
        final(s)@ == old(s)@.push(c),
;

/// Relies on str's PartialEq: two string slices compare equal exactly
/// when they spell the same characters.
pub assume_specification [ <str as PartialEq<str>>::eq ](a: &str, b: &str) -> (r: bool)
    ensures
        r == (a@ == b@),
;

/// A module's scope: names bound to interned item identifiers, imports
/// first and the file's own definitions after them, so a later binding
/// shadows an earlier one.
pub type Scope = Vec<(String, usize)>;

/// The identifier `name` is bound to in `scope`: the last binding wins.
pub open spec fn scope_lookup(scope: Seq<(Seq<char>, usize)>, name: Seq<char>) -> Option<usize>
    decreases scope.len(),
{
    if scope.len() == 0 {
        None
    } else {
        let last = scope[scope.len() - 1];
        if last.0 == name {
            Some(last.1)
        } else {
            scope_lookup(scope.drop_last(), name)
        }
    }
}

/// The view of a scope: each binding's name characters and identifier.
pub open spec fn scope_view(scope: &Scope) -> Seq<(Seq<char>, usize)> {
    Seq::new(scope@.len(), |k: int| (scope@[k].0@, scope@[k].1))
}

/// Look a name up in a scope: the last binding wins.
pub fn lookup(scope: &Scope, name: &str) -> (r: Option<usize>)
    ensures
        r == scope_lookup(scope_view(scope), name@),
{
    let n = scope.len();
    let mut k: usize = n;
    proof {
        assert(scope_view(scope).take(n as int) =~= scope_view(scope));
    }
    while k > 0
        invariant
            k <= n,
            n == scope@.len(),
            scope_lookup(scope_view(scope), name@) == scope_lookup(
                scope_view(scope).take(k as int),
                name@,
            ),
        decreases k,
    {
        k = k - 1;
        let ghost pre = scope_view(scope).take(k + 1);
        proof {
            assert(pre.drop_last() =~= scope_view(scope).take(k as int));
            assert(pre[pre.len() - 1] == (scope@[k as int].0@, scope@[k as int].1));
        }
        if scope[k].0.as_str().eq(name) {
            return Some(scope[k].1);
        }
    }
    assert(scope_view(scope).take(0) =~= Seq::<(Seq<char>, usize)>::empty());
    None
}

/// Whether a written character is an ASCII letter.
pub open spec fn is_alpha(c: char) -> bool {
    ('a' <= c && c <= 'z') || ('A' <= c && c <= 'Z')
}

/// Whether a written character is an ASCII letter or digit.
pub open spec fn is_alnum(c: char) -> bool {
    is_alpha(c) || ('0' <= c && c <= '9')
}

/// Drop a trailing `.phenix` suffix.
pub open spec fn strip_phenix(s: Seq<char>) -> Seq<char> {
    if s.len() >= 7 && s.subrange(s.len() - 7, s.len() as int) == ".phenix"@ {
        s.take(s.len() - 7)
    } else {
        s
    }
}

/// Drop leading characters up to the first ASCII letter.
pub open spec fn skip_nonalpha(s: Seq<char>) -> Seq<char>
    decreases s.len(),
{
    if s.len() == 0 {
        s
    } else if is_alpha(s[0]) {
        s
    } else {
        skip_nonalpha(s.drop_first())
    }
}

/// Replace each run of characters that are not ASCII letters or digits
/// with a single underscore. `joined` tells whether the previous written
/// character was already an underscore.
pub open spec fn squash(s: Seq<char>, joined: bool) -> Seq<char>
    decreases s.len(),
{
    if s.len() == 0 {
        Seq::empty()
    } else if is_alnum(s[0]) {
        seq![s[0]] + squash(s.drop_first(), false)
    } else if joined {
        squash(s.drop_first(), true)
    } else {
        seq!['_'] + squash(s.drop_first(), true)
    }
}

/// The normal form of one path component: no `.phenix` suffix, starting
/// at its first letter, runs of other characters joined to underscores.
pub open spec fn normalize_component(s: Seq<char>) -> Seq<char> {
    squash(skip_nonalpha(strip_phenix(s)), false)
}

/// Normalize one path component.
pub fn normalize(component: &str) -> (r: String)
    ensures
        r@ == normalize_component(component@),
{
    let cs = str_to_chars(component);
    let n = cs.len();
    let mut start: usize = 0;
    let stripped_len: usize = if n >= 7 && ends_with_phenix(&cs) {
        n - 7
    } else {
        n
    };
    proof {
        if stripped_len < n {
            assert(cs@.subrange(cs@.len() - 7, cs@.len() as int) =~= ".phenix"@);
            assert(strip_phenix(cs@) =~= cs@.take(stripped_len as int));
        } else {
            assert(strip_phenix(cs@) =~= cs@.take(stripped_len as int));
        }
    }
    let ghost stripped = cs@.take(stripped_len as int);
    proof {
        assert(stripped.skip(0) =~= stripped);
    }
    while start < stripped_len && !is_alpha_exec(cs[start])
        invariant
            start <= stripped_len,
            stripped_len <= n,
            n == cs@.len(),
            stripped == cs@.take(stripped_len as int),
            skip_nonalpha(stripped) == skip_nonalpha(stripped.skip(start as int)),
        decreases stripped_len - start,
    {
        proof {
            let tail = stripped.skip(start as int);
            assert(tail[0] == cs@[start as int]);
            assert(tail.drop_first() =~= stripped.skip(start + 1));
        }
        start = start + 1;
    }
    proof {
        let tail = stripped.skip(start as int);
        if start < stripped_len {
            assert(tail[0] == cs@[start as int]);
            assert(skip_nonalpha(tail) =~= tail);
        } else {
            assert(tail.len() == 0);
            assert(skip_nonalpha(tail) =~= tail);
        }
    }
    let ghost body = skip_nonalpha(stripped);
    let mut out = new_string();
    let mut joined = false;
    let mut k: usize = start;
    proof {
        assert(out@ + squash(stripped.skip(start as int), false) =~= squash(body, false));
    }
    while k < stripped_len
        invariant
            start <= k <= stripped_len,
            stripped_len <= n,
            n == cs@.len(),
            stripped == cs@.take(stripped_len as int),
            body == stripped.skip(start as int),
            out@ + squash(stripped.skip(k as int), joined) == squash(body, false),
        decreases stripped_len - k,
    {
        let c = cs[k];
        proof {
            let tail = stripped.skip(k as int);
            assert(tail[0] == cs@[k as int]);
            assert(tail.drop_first() =~= stripped.skip(k + 1));
        }
        if is_alnum_exec(c) {
            out.push(c);
            joined = false;
        } else if !joined {
            out.push('_');
            joined = true;
        }
        k = k + 1;
    }
    proof {
        assert(squash(stripped.skip(stripped_len as int), joined) =~= Seq::<char>::empty());
        assert(out@ =~= out@ + squash(stripped.skip(stripped_len as int), joined));
    }
    out
}

/// Whether the characters end with `.phenix`.
fn ends_with_phenix(cs: &Vec<char>) -> (r: bool)
    requires
        cs@.len() >= 7,
    ensures
        r == (cs@.subrange(cs@.len() - 7, cs@.len() as int) == ".phenix"@),
{
    let n = cs.len();
    proof {
        reveal_strlit(".phenix");
    }
    let r = cs[n - 7] == '.' && cs[n - 6] == 'p' && cs[n - 5] == 'h' && cs[n - 4] == 'e' && cs[n
        - 3] == 'n' && cs[n - 2] == 'i' && cs[n - 1] == 'x';
    proof {
        if r {
            assert(cs@.subrange(cs@.len() - 7, cs@.len() as int) =~= ".phenix"@);
        } else {
            assert(cs@.subrange(cs@.len() - 7, cs@.len() as int) != ".phenix"@) by {
                if cs@.subrange(cs@.len() - 7, cs@.len() as int) == ".phenix"@ {
                    assert(cs@[cs@.len() - 7] == ".phenix"@[0]);
                    assert(cs@[cs@.len() - 6] == ".phenix"@[1]);
                    assert(cs@[cs@.len() - 5] == ".phenix"@[2]);
                    assert(cs@[cs@.len() - 4] == ".phenix"@[3]);
                    assert(cs@[cs@.len() - 3] == ".phenix"@[4]);
                    assert(cs@[cs@.len() - 2] == ".phenix"@[5]);
                    assert(cs@[cs@.len() - 1] == ".phenix"@[6]);
                }
            }
        }
    }
    r
}

fn is_alpha_exec(c: char) -> (r: bool)
    ensures
        r == is_alpha(c),
{
    ('a' <= c && c <= 'z') || ('A' <= c && c <= 'Z')
}

fn is_alnum_exec(c: char) -> (r: bool)
    ensures
        r == is_alnum(c),
{
    is_alpha_exec(c) || ('0' <= c && c <= '9')
}

/// Relies on str::chars: a string's characters, in order.
#[verifier::external_body]
pub fn str_to_chars(s: &str) -> (r: Vec<char>)
    ensures
        r@ == s@,
{
    s.chars().collect()
}

/// The empty string.
pub fn new_string() -> (r: String)
    ensures
        r@ == Seq::<char>::empty(),
{
    String::new()
}

/// How many leading components two paths share.
pub open spec fn common_prefix_len(a: Seq<Seq<char>>, b: Seq<Seq<char>>) -> int
    decreases a.len(),
{
    if a.len() == 0 || b.len() == 0 {
        0
    } else if a[0] == b[0] {
        1 + common_prefix_len(a.drop_first(), b.drop_first())
    } else {
        0
    }
}

/// The view of a component list.
pub open spec fn components_view(p: Seq<String>) -> Seq<Seq<char>> {
    Seq::new(p.len(), |k: int| p[k]@)
}

/// The module path of a schema file, relative to the root file's
/// directory: a file outside the root directory lowers to the single
/// component `external`; otherwise each remaining component is
/// normalized.
pub open spec fn spec_module_path(root_dir: Seq<Seq<char>>, file: Seq<Seq<char>>) -> Seq<
    Seq<char>,
> {
    let p = common_prefix_len(root_dir, file);
    if p < root_dir.len() {
        seq!["external"@]
    } else {
        Seq::new((file.len() - p) as nat, |k: int| normalize_component(file[p + k]))
    }
}

/// Resolve a module's path components from the root directory's and the
/// module file's components.
pub fn resolve_module_path(root_dir: &Vec<String>, module_file: &Vec<String>) -> (r: Vec<String>)
    ensures
        components_view(r@) == spec_module_path(components_view(root_dir@), components_view(
            module_file@,
        )),
{
    let ghost ra = components_view(root_dir@);
    let ghost fa = components_view(module_file@);
    let mut p: usize = 0;
    proof {
        assert(ra.skip(0) =~= ra);
        assert(fa.skip(0) =~= fa);
    }
    while p < root_dir.len() && p < module_file.len() && root_dir[p].as_str().eq(
        module_file[p].as_str(),
    )
        invariant
            p <= ra.len(),
            p <= fa.len(),
            ra == components_view(root_dir@),
            fa == components_view(module_file@),
            common_prefix_len(ra, fa) == p + common_prefix_len(
                ra.skip(p as int),
                fa.skip(p as int),
            ),
        decreases ra.len() - p,
    {
        proof {
            let ta = ra.skip(p as int);
            let tb = fa.skip(p as int);
            assert(ta[0] == ra[p as int] && tb[0] == fa[p as int]);
            assert(ta.drop_first() =~= ra.skip(p + 1));
            assert(tb.drop_first() =~= fa.skip(p + 1));
        }
        p = p + 1;
    }
    proof {
        let ta = ra.skip(p as int);
        let tb = fa.skip(p as int);
        if p < ra.len() && p < fa.len() {
            assert(ta[0] == ra[p as int] && tb[0] == fa[p as int]);
            assert(common_prefix_len(ta, tb) == 0);
        } else {
            assert(common_prefix_len(ta, tb) == 0);
        }
        assert(common_prefix_len(ra, fa) == p);
    }
    let mut r: Vec<String> = Vec::new();
    if p < root_dir.len() {
        r.push(string_external());
        proof {
            assert(components_view(r@) =~= seq!["external"@]);
        }
        return r;
    }
    let n = module_file.len();
    let mut k: usize = p;
    while k < n
        invariant
            p <= k <= n,
            n == fa.len(),
            p == common_prefix_len(ra, fa),
            p >= ra.len(),
            fa == components_view(module_file@),
            ra == components_view(root_dir@),
            r@.len() == k - p,
            forall|x: int|
                0 <= x < r@.len() ==> r@[x]@ == normalize_component(fa[p + x]),
        decreases n - k,
    {
        let nc = normalize(module_file[k].as_str());
        r.push(nc);
        k = k + 1;
    }
    proof {
        assert(components_view(r@) =~= spec_module_path(ra, fa));
    }
    r
}

/// The string `external`.
fn string_external() -> (r: String)
    ensures
        r@ == "external"@,
{
    let mut s = new_string();
    proof {
        reveal_strlit("external");
    }
    s.push('e');
    s.push('x');
    s.push('t');
    s.push('e');
    s.push('r');
    s.push('n');
    s.push('a');
    s.push('l');
    proof {
        assert(s@ =~= "external"@);
    }
    s
}

/// The built-in kind a written name denotes, if any. Built-in names
/// shadow any user name with the same spelling in every module.
pub open spec fn builtin_of(name: Seq<char>) -> Option<BuiltinType> {
    if name == "bool"@ {
        Some(BuiltinType::Bool)
    } else if name == "u8"@ {
        Some(BuiltinType::U8)
    } else if name == "u16"@ {
        Some(BuiltinType::U16)
    } else if name == "u32"@ {
        Some(BuiltinType::U32)
    } else if name == "u64"@ {
        Some(BuiltinType::U64)
    } else if name == "i8"@ {
        Some(BuiltinType::I8)
    } else if name == "i16"@ {
        Some(BuiltinType::I16)
    } else if name == "i32"@ {
        Some(BuiltinType::I32)
    } else if name == "i64"@ {
        Some(BuiltinType::I64)
    } else if name == "f32"@ {
        Some(BuiltinType::F32)
    } else if name == "f64"@ {
        Some(BuiltinType::F64)
    } else if name == "uint"@ {
        Some(BuiltinType::Uint)
    } else if name == "sint"@ {
        Some(BuiltinType::Sint)
    } else if name == "float"@ {
        Some(BuiltinType::Float)
    } else if name == "string"@ {
        Some(BuiltinType::StringType)
    } else if name == "vector"@ {
        Some(BuiltinType::Vector)
    } else if name == "stream"@ {
        Some(BuiltinType::StreamType)
    } else {
        None
    }
}

/// Whether a written type resolves in a scope: its name is a built-in or
/// bound in scope, and so is each generic argument's.
pub open spec fn resolvable(scope: Seq<(Seq<char>, usize)>, ty: &TypeData) -> bool
    decreases ty,
{
    let head = builtin_of(ty.name@) is Some || scope_lookup(scope, ty.name@) is Some;
    head && (forall|k: int|
        0 <= k < ty.generics@.len() ==> resolvable(scope, &(#[trigger] ty.generics@[k])))
}

/// Whether `out` is the resolution of the written type `ty` in `scope`.
pub open spec fn resolves_to(scope: Seq<(Seq<char>, usize)>, ty: &TypeData, out: &Type) -> bool
    decreases ty,
{
    &&& out.id == (match builtin_of(ty.name@) {
        Some(b) => TypeId::Builtin(b),
        None => match scope_lookup(scope, ty.name@) {
            Some(id) => TypeId::User(UserTypeId(id)),
            None => arbitrary(),
        },
    })
    &&& builtin_of(ty.name@) is None ==> scope_lookup(scope, ty.name@) is Some
    &&& out.generics@.len() == ty.generics@.len()
    &&& forall|k: int|
        0 <= k < ty.generics@.len() ==> resolves_to(
            scope,
            &(#[trigger] ty.generics@[k]),
            &out.generics@[k],
        )
}

/// The first `k` generic arguments are resolved, element by element.
pub open spec fn gens_ok(
    scope: Seq<(Seq<char>, usize)>,
    tys: Seq<TypeData>,
    outs: Seq<Type>,
    k: int,
) -> bool {
    forall|x: int|
        0 <= x < k ==> resolvable(scope, &(#[trigger] tys[x])) && resolves_to(
            scope,
            &tys[x],
            &outs[x],
        )
}

/// Resolve a written type against a scope: built-in names first, then
/// the scope; the resolution fails when any name stays unresolved.
pub fn resolve_type(scope: &Scope, ty: &TypeData) -> (r: Option<Type>)
    ensures
        r is Some <==> resolvable(scope_view(scope), ty),
        match r {
            Some(t) => resolves_to(scope_view(scope), ty, &t),
            None => true,
        },
    decreases ty,
{
    let id: TypeId = match builtin_name(ty.name.as_str()) {
        Some(b) => TypeId::Builtin(b),
        None => {
            match lookup(scope, ty.name.as_str()) {
                Some(item) => TypeId::User(UserTypeId(item)),
                None => {
                    return None;
                },
            }
        },
    };
    let mut generics: Vec<Type> = Vec::new();
    let n = ty.generics.len();
    let mut k: usize = 0;
    while k < n
        invariant
            k <= n,
            n == ty.generics@.len(),
            generics@.len() == k,
            gens_ok(scope_view(scope), ty.generics@, generics@, k as int),
        decreases n - k,
    {
        match resolve_type(scope, &ty.generics[k]) {
            Some(t) => {
                let ghost tv = t;
                let ghost g0 = generics@;
                generics.push(t);
                proof {
                    assert(generics@ =~= g0.push(tv));
                    assert(gens_ok(scope_view(scope), ty.generics@, generics@, k + 1)) by {
                        assert forall|x: int|
                            0 <= x < k + 1 implies resolvable(
                            scope_view(scope),
                            &(#[trigger] ty.generics@[x]),
                        ) && resolves_to(scope_view(scope), &ty.generics@[x], &generics@[x]) by {
                            if x < k {
                                assert(generics@[x] == g0[x]);
                                assert(resolvable(scope_view(scope), &ty.generics@[x])
                                    && resolves_to(
                                    scope_view(scope),
                                    &ty.generics@[x],
                                    &generics@[x],
                                )) by {
                                    assert(gens_ok(scope_view(scope), ty.generics@, g0, k as int));
                                }
                            } else {
                                assert(generics@[x] == tv);
                                assert(resolves_to(
                                    scope_view(scope),
                                    &ty.generics@[k as int],
                                    &tv,
                                ));
                            }
                        }
                    }
                }
            },
            None => {
                proof {
                    assert(!resolvable(scope_view(scope), &ty.generics@[k as int]));
                    assert(!resolvable(scope_view(scope), ty));
                }
                return None;
            },
        }
        k = k + 1;
    }
    let r = Type { id, generics };
    proof {
        assert forall|x: int| 0 <= x < ty.generics@.len() implies resolvable(
            scope_view(scope),
            &(#[trigger] ty.generics@[x]),
        ) by {
            assert(gens_ok(scope_view(scope), ty.generics@, r.generics@, n as int));
        }
        assert(resolvable(scope_view(scope), ty));
        assert forall|x: int| 0 <= x < ty.generics@.len() implies resolves_to(
            scope_view(scope),
            &(#[trigger] ty.generics@[x]),
            &r.generics@[x],
        ) by {
            assert(gens_ok(scope_view(scope), ty.generics@, r.generics@, n as int));
        }
        assert(resolves_to(scope_view(scope), ty, &r));
    }
    Some(r)
}

/// The built-in kind a written name denotes.
fn builtin_name(name: &str) -> (r: Option<BuiltinType>)
    ensures
        r == builtin_of(name@),
{
    proof {
        reveal_strlit("bool");
        reveal_strlit("u8");
        reveal_strlit("u16");
        reveal_strlit("u32");
        reveal_strlit("u64");
        reveal_strlit("i8");
        reveal_strlit("i16");
        reveal_strlit("i32");
        reveal_strlit("i64");
        reveal_strlit("f32");
        reveal_strlit("f64");
        reveal_strlit("uint");
        reveal_strlit("sint");
        reveal_strlit("float");
        reveal_strlit("string");
        reveal_strlit("vector");
        reveal_strlit("stream");
    }
    if name.eq("bool") {
        Some(BuiltinType::Bool)
    } else if name.eq("u8") {
        Some(BuiltinType::U8)
    } else if name.eq("u16") {
        Some(BuiltinType::U16)
    } else if name.eq("u32") {
        Some(BuiltinType::U32)
    } else if name.eq("u64") {
        Some(BuiltinType::U64)
    } else if name.eq("i8") {
        Some(BuiltinType::I8)
    } else if name.eq("i16") {
        Some(BuiltinType::I16)
    } else if name.eq("i32") {
        Some(BuiltinType::I32)
    } else if name.eq("i64") {
        Some(BuiltinType::I64)
    } else if name.eq("f32") {
        Some(BuiltinType::F32)
    } else if name.eq("f64") {
        Some(BuiltinType::F64)
    } else if name.eq("uint") {
        Some(BuiltinType::Uint)
    } else if name.eq("sint") {
        Some(BuiltinType::Sint)
    } else if name.eq("float") {
        Some(BuiltinType::Float)
    } else if name.eq("string") {
        Some(BuiltinType::StringType)
    } else if name.eq("vector") {
        Some(BuiltinType::Vector)
    } else if name.eq("stream") {
        Some(BuiltinType::StreamType)
    } else {
        None
    }
}

/// Whether every field of a run resolves.
pub open spec fn fields_resolvable(scope: Seq<(Seq<char>, usize)>, fields: Seq<FieldData>) -> bool {
    forall|k: int| 0 <= k < fields.len() ==> resolvable(scope, &(#[trigger] fields[k]).ty)
}

/// Whether `out` is the lowering of the written fields.
pub open spec fn fields_resolve_to(
    scope: Seq<(Seq<char>, usize)>,
    fields: Seq<FieldData>,
    out: Seq<Field>,
) -> bool {
    &&& out.len() == fields.len()
    &&& forall|k: int|
        0 <= k < fields.len() ==> (#[trigger] out[k]).name@ == fields[k].name@ && resolves_to(
            scope,
            &fields[k].ty,
            &out[k].ty,
        ) && out[k].attrs@.len() == 0
}

/// Lower a run of written fields against a scope.
fn resolve_fields(scope: &Scope, fields: &Vec<FieldData>) -> (r: Option<Vec<Field>>)
    ensures
        r is Some <==> fields_resolvable(scope_view(scope), fields@),
        match r {
            Some(out) => fields_resolve_to(scope_view(scope), fields@, out@),
            None => true,
        },
{
    let mut out: Vec<Field> = Vec::new();
    let n = fields.len();
    let mut k: usize = 0;
    while k < n
        invariant
            k <= n,
            n == fields@.len(),
            out@.len() == k,
            forall|x: int|
                0 <= x < k ==> resolvable(scope_view(scope), &(#[trigger] fields@[x]).ty),
            fields_resolve_to(scope_view(scope), fields@.take(k as int), out@),
        decreases n - k,
    {
        match resolve_type(scope, &fields[k].ty) {
            Some(t) => {
                let name = clone_string(&fields[k].name);
                out.push(Field { name, ty: t, attrs: Vec::new() });
                proof {
                    assert(fields@.take(k + 1)[k as int] == fields@[k as int]);
                    assert forall|x: int| 0 <= x < k + 1 implies (#[trigger] out@[x]).name@
                        == fields@.take(k + 1)[x].name@ && resolves_to(
                        scope_view(scope),
                        &fields@.take(k + 1)[x].ty,
                        &out@[x].ty,
                    ) && out@[x].attrs@.len() == 0 by {
                        assert(fields@.take(k + 1)[x] == fields@[x]);
                    }
                }
            },
            None => {
                return None;
            },
        }
        k = k + 1;
    }
    proof {
        assert(fields@.take(n as int) =~= fields@);
    }
    Some(out)
}

/// Relies on String::clone: the copy spells the same characters.
#[verifier::external_body]
pub fn clone_string(s: &String) -> (r: String)
    ensures
        r@ == s@,
{
    s.clone()
}

/// Whether an item's every written type resolves in scope.
pub open spec fn item_resolvable(scope: Seq<(Seq<char>, usize)>, item: &ItemData) -> bool {
    match item {
        ItemData::Struct(d) => fields_resolvable(scope, d.fields@),
        ItemData::Enum(d) => variants_resolvable(scope, d.variants@),
        ItemData::Flags(_) => true,
    }
}

/// Whether `out` is the lowering of the written item under identifier
/// `id`: the same name and shape, fields resolved in order.
pub open spec fn item_resolves_to(
    scope: Seq<(Seq<char>, usize)>,
    id: usize,
    item: &ItemData,
    out: &UserType,
) -> bool {
    match item {
        ItemData::Struct(d) => out matches UserType::Struct(t) && t.id == UserTypeId(id)
            && t.name@ == d.name@ && fields_resolve_to(scope, d.fields@, t.fields@)
            && t.attrs@.len() == 0,
        ItemData::Enum(d) => out matches UserType::Enum(t) && t.id == UserTypeId(id) && t.name@
            == d.name@ && variants_resolve_to(scope, d.variants@, t.variants@) && t.attrs@.len()
            == 0,
        ItemData::Flags(d) => out matches UserType::Flags(t) && t.id == UserTypeId(id) && t.name@
            == d.name@ && t.flags@.len() == d.flags@.len() && (forall|k: int|
            0 <= k < d.flags@.len() ==> (#[trigger] t.flags@[k])@ == d.flags@[k].name@)
            && t.attrs@.len() == 0,
    }
}


/// Whether every variant's fields resolve.
pub open spec fn variants_resolvable(
    scope: Seq<(Seq<char>, usize)>,
    variants: Seq<VariantData>,
) -> bool {
    forall|k: int|
        0 <= k < variants.len() ==> fields_resolvable(scope, (#[trigger] variants[k]).fields@)
}

/// Whether `out` is the lowering of the written variants.
pub open spec fn variants_resolve_to(
    scope: Seq<(Seq<char>, usize)>,
    variants: Seq<VariantData>,
    out: Seq<Variant>,
) -> bool {
    &&& out.len() == variants.len()
    &&& forall|k: int|
        0 <= k < variants.len() ==> (#[trigger] out[k]).name@ == variants[k].name@
            && fields_resolve_to(scope, variants[k].fields@, out[k].fields@) && out[k].attrs@.len()
            == 0
}

/// Lower a run of written variants against a scope.
fn resolve_variants(scope: &Scope, variants: &Vec<VariantData>) -> (r: Option<Vec<Variant>>)
    ensures
        r is Some <==> variants_resolvable(scope_view(scope), variants@),
        match r {
            Some(out) => variants_resolve_to(scope_view(scope), variants@, out@),
            None => true,
        },
{
    let mut out: Vec<Variant> = Vec::new();
    let n = variants.len();
    let mut k: usize = 0;
    while k < n
        invariant
            k <= n,
            n == variants@.len(),
            out@.len() == k,
            forall|x: int|
                0 <= x < k ==> fields_resolvable(
                    scope_view(scope),
                    (#[trigger] variants@[x]).fields@,
                ),
            variants_resolve_to(scope_view(scope), variants@.take(k as int), out@),
        decreases n - k,
    {
        match resolve_fields(scope, &variants[k].fields) {
            Some(fields) => {
                let name = clone_string(&variants[k].name);
                let v = Variant { name, fields, attrs: Vec::new() };
                let ghost vv = v;
                let ghost o0 = out@;
                out.push(v);
                proof {
                    assert(out@ =~= o0.push(vv));
                    assert(variants@.take(k + 1)[k as int] == variants@[k as int]);
                    assert forall|x: int| 0 <= x < k + 1 implies (#[trigger] out@[x]).name@
                        == variants@.take(k + 1)[x].name@ && fields_resolve_to(
                        scope_view(scope),
                        variants@.take(k + 1)[x].fields@,
                        out@[x].fields@,
                    ) && out@[x].attrs@.len() == 0 by {
                        assert(variants@.take(k + 1)[x] == variants@[x]);
                        if x < k {
                            assert(out@[x] == o0[x]);
                            assert(variants@.take(k as int)[x] == variants@[x]);
                        } else {
                            assert(out@[x] == vv);
                        }
                    }
                }
            },
            None => {
                return None;
            },
        }
        k = k + 1;
    }
    proof {
        assert(variants@.take(n as int) =~= variants@);
    }
    Some(out)
}

/// Lower one item definition to a user type of the project model. An
/// item with any unresolved field type lowers to nothing and is dropped
/// from the output.
pub fn make_def(scope: &Scope, id: usize, item: &ItemData) -> (r: Option<UserType>)
    ensures
        r is Some <==> item_resolvable(scope_view(scope), item),
        match r {
            Some(out) => item_resolves_to(scope_view(scope), id, item, &out),
            None => true,
        },
{
    match item {
        ItemData::Struct(d) => {
            match resolve_fields(scope, &d.fields) {
                Some(fields) => Some(
                    UserType::Struct(
                        StructType {
                            id: UserTypeId(id),
                            name: clone_string(&d.name),
                            fields,
                            attrs: Vec::new(),
                        },
                    ),
                ),
                None => None,
            }
        },
        ItemData::Enum(d) => {
            match resolve_variants(scope, &d.variants) {
                Some(variants) => Some(
                    UserType::Enum(
                        EnumType {
                            id: UserTypeId(id),
                            name: clone_string(&d.name),
                            variants,
                            attrs: Vec::new(),
                        },
                    ),
                ),
                None => None,
            }
        },
        ItemData::Flags(d) => {
            let mut flags: Vec<String> = Vec::new();
            let n = d.flags.len();
            let mut k: usize = 0;
            while k < n
                invariant
                    k <= n,
                    n == d.flags@.len(),
                    flags@.len() == k,
                    forall|x: int| 0 <= x < k ==> (#[trigger] flags@[x])@ == d.flags@[x].name@,
                decreases n - k,
            {
                flags.push(clone_string(&d.flags[k].name));
                k = k + 1;
            }
            Some(
                UserType::Flags(
                    FlagsType {
                        id: UserTypeId(id),
                        name: clone_string(&d.name),
                        flags,
                        attrs: Vec::new(),
                    },
                ),
            )
        },
    }
}

} // verus!
