//! The target-language emitter: a compiled project rendered as source
//! text, modules nested as namespaces mirroring their paths, type names
//! in pascal case and field names in snake case. Emission first checks
//! the type-dependency order: a use-cycle among user types is a hard
//! error, since the wire format does not support self-referential types.
//! The text is emitted raw; pretty-printing is the caller's side.

use convert_case::{Case, Casing};
use vstd::prelude::*;
use vstd::string::StrSliceExecFns;

use crate::codegen::order::{
    cycle_through, flat_types, order_input_wf, type_dependency_order, uses,
};
use crate::project::{
    Attribute, BuiltinType, Field, Language, Module, Project, Type, TypeId, UserType, UserTypeId,
    Variant,
};

verus! {

broadcast use {vstd::std_specs::vec::axiom_vec_index_decreases, crate::compiler::db::lemma_components_view};

/// Relies on String::push_str: it appends exactly the given characters.
pub assume_specification [ String::push_str ](s: &mut String, other: &str)
    ensures
        final(s)@ == old(s)@ + other@,
;

/// The pascal-case spelling of a name, as convert_case computes it.
pub uninterp spec fn pascal_of(s: Seq<char>) -> Seq<char>;

/// The snake-case spelling of a name, as convert_case computes it.
pub uninterp spec fn snake_of(s: Seq<char>) -> Seq<char>;

/// Relies on convert_case's Casing::to_case with Case::Pascal: the result
/// depends on the input's characters alone.
#[verifier::external_body]
fn to_pascal(s: &str) -> (r: String)
    ensures
        r@ == pascal_of(s@),
{
    s.to_case(Case::Pascal)
}

/// Relies on convert_case's Casing::to_case with Case::Snake: the result
/// depends on the input's characters alone.
#[verifier::external_body]
fn to_snake(s: &str) -> (r: String)
    ensures
        r@ == snake_of(s@),
{
    s.to_case(Case::Snake)
}

/// Whether `(m, t)` is a type's position in the project.
pub open spec fn valid_pos(p: &Project, m: int, t: int) -> bool {
    0 <= m < p.modules@.len() && 0 <= t < p.modules@[m].types@.len()
}

/// The position of the type with the given identifier. With distinct
/// identifiers there is at most one.
pub open spec fn spec_type_pos(p: &Project, id: UserTypeId) -> (int, int) {
    choose|mt: (int, int)|
        valid_pos(p, mt.0, mt.1) && (#[trigger] p.modules@[mt.0].types@[mt.1]).spec_id() == id
}

/// With distinct identifiers, any position holding `id` is the position.
proof fn lemma_type_pos_unique(p: &Project, m: int, t: int)
    requires
        order_input_wf(p),
        valid_pos(p, m, t),
    ensures
        spec_type_pos(p, p.modules@[m].types@[t].spec_id()) == (m, t),
{
    let id = p.modules@[m].types@[t].spec_id();
    let witness = (m, t);
    assert(valid_pos(p, witness.0, witness.1) && p.modules@[witness.0].types@[witness.1].spec_id()
        == id);
    let mt = spec_type_pos(p, id);
    assert(valid_pos(p, mt.0, mt.1) && p.modules@[mt.0].types@[mt.1].spec_id() == id);
    if mt != (m, t) {
        crate::codegen::order::lemma_flat_positions(p, m, t);
        crate::codegen::order::lemma_flat_positions(p, mt.0, mt.1);
        assert(false);
    }
}

/// The nested module namespaces, as a tree: one node per path component,
/// carrying the index of the project module that lives there, if any.
pub struct ModuleTree {
    pub module: Option<usize>,
    pub name: String,
    pub children: Vec<ModuleTree>,
}

/// A namespace tree as the model sees it.
#[verifier::ext_equal]
pub struct TreeV {
    pub module: Option<int>,
    pub name: Seq<char>,
    pub children: Seq<TreeV>,
}

/// The model of a namespace tree.
pub open spec fn tree_view(t: &ModuleTree) -> TreeV
    decreases t,
{
    TreeV {
        module: match t.module {
            Some(m) => Some(m as int),
            None => None,
        },
        name: t.name@,
        children: Seq::new(
            t.children@.len(),
            |k: int|
                if 0 <= k < t.children@.len() {
                    tree_view(&t.children@[k])
                } else {
                    arbitrary()
                },
        ),
    }
}

/// The first child with the given name.
pub open spec fn child_idx(children: Seq<TreeV>, name: Seq<char>) -> Option<int>
    decreases children.len(),
{
    if children.len() == 0 {
        None
    } else if children[0].name == name {
        Some(0int)
    } else {
        match child_idx(children.drop_first(), name) {
            Some(k) => Some(k + 1),
            None => None,
        }
    }
}

/// Inserting a module at the node its remaining path components lead to,
/// adding empty nodes along the way; children keep first-insertion order.
pub open spec fn spec_insert(tv: TreeV, path: Seq<Seq<char>>, k: int, m: int) -> TreeV
    decreases path.len() - k,
{
    if k >= path.len() {
        TreeV { module: Some(m), ..tv }
    } else {
        match child_idx(tv.children, path[k]) {
            Some(i) => TreeV {
                children: tv.children.update(i, spec_insert(tv.children[i], path, k + 1, m)),
                ..tv
            },
            None => TreeV {
                children: tv.children.push(
                    spec_insert(
                        TreeV { module: None, name: path[k], children: Seq::empty() },
                        path,
                        k + 1,
                        m,
                    ),
                ),
                ..tv
            },
        }
    }
}

/// The whole namespace tree of a project: every module inserted at its
/// path, in module order.
pub open spec fn spec_build_tree(p: &Project, m: int) -> TreeV
    decreases m,
{
    if m <= 0 {
        TreeV { module: None, name: Seq::empty(), children: Seq::empty() }
    } else {
        spec_insert(
            spec_build_tree(p, m - 1),
            crate::compiler::semantics::components_view(p.modules@[m - 1].path.0@),
            0,
            m - 1,
        )
    }
}

/// Insert a module into the tree at its path.
fn insert(tree: &mut ModuleTree, path: &Vec<String>, k: usize, m: usize)
    requires
        k <= path@.len(),
    ensures
        tree_view(final(tree)) == spec_insert(
            tree_view(old(tree)),
            crate::compiler::semantics::components_view(path@),
            k as int,
            m as int,
        ),
    decreases path@.len() - k,
{
    let ghost pv = crate::compiler::semantics::components_view(path@);
    if k == path.len() {
        tree.module = Some(m);
        proof {
            assert(tree_view(tree) =~~= spec_insert(tree_view(old(tree)), pv, k as int, m as int));
        }
        return ;
    }
    let n = tree.children.len();
    let mut i: usize = 0;
    proof {
        assert(tree_view(tree).children.skip(0) =~= tree_view(tree).children);
        assert(path@.len() == vstd::std_specs::vec::spec_vec_len(path));
    }
    while i < n
        invariant
            i <= n,
            k < path@.len(),
            path@.len() <= usize::MAX,
            pv == crate::compiler::semantics::components_view(path@),
            n == tree.children@.len(),
            *tree == *old(tree),
            child_idx(tree_view(tree).children, pv[k as int]) == (match child_idx(
                tree_view(tree).children.skip(i as int),
                pv[k as int],
            ) {
                Some(x) => Some(x + i),
                None => None::<int>,
            }),
        decreases n - i,
    {
        proof {
            let cs = tree_view(tree).children;
            assert(cs.skip(i as int)[0] == cs[i as int]);
            assert(cs.skip(i as int).drop_first() =~= cs.skip(i + 1));
        }
        if tree.children[i].name.as_str().eq(path[k].as_str()) {
            proof {
                let cs = tree_view(tree).children;
                assert(tree.children@[i as int].name@ == path@[k as int]@);
                assert(pv[k as int] == path@[k as int]@);
                assert(cs[i as int] == tree_view(&tree.children@[i as int]));
                assert(cs[i as int].name == pv[k as int]);
                assert(child_idx(cs.skip(i as int), pv[k as int]) == Some(0int));
                assert(child_idx(cs, pv[k as int]) == Some(i as int));
            }
            let ghost old_children = tree.children@;
            let mut child = tree.children.remove(i);
            let ghost cv = tree_view(&child);
            insert(&mut child, path, k + 1, m);
            let ghost cv2 = tree_view(&child);
            tree.children.insert(i, child);
            proof {
                let before = tree_view(old(tree));
                assert(before.children[i as int] == tree_view(&old(tree).children@[i as int]));
                assert(old(tree).children@[i as int] == old_children[i as int]);
                assert(cv == before.children[i as int]);
                assert(cv2 == spec_insert(before.children[i as int], pv, k + 1, m as int));
                assert(tree.children@ =~= old_children.update(i as int, tree.children@[i as int]));
                assert(tree_view(&tree.children@[i as int]) == cv2);
                assert forall|x: int|
                    0 <= x < tree.children@.len() implies tree_view(tree).children[x]
                    == before.children.update(i as int, cv2)[x] by {
                    if x != i {
                        assert(tree.children@[x] == old_children[x]);
                    }
                }
                assert(tree_view(tree).children =~= before.children.update(i as int, cv2));
                assert(tree_view(tree).module == before.module);
                assert(tree_view(tree).name == before.name);
                assert(tree_view(tree) =~~= spec_insert(before, pv, k as int, m as int));
            }
            return ;
        }
        i = i + 1;
    }
    proof {
        assert(tree_view(tree).children.skip(n as int).len() == 0);
        assert(child_idx(tree_view(tree).children, pv[k as int]) is None);
    }
    let mut child = ModuleTree {
        module: None,
        name: crate::compiler::semantics::clone_string(&path[k]),
        children: Vec::new(),
    };
    proof {
        assert(tree_view(&child).children =~= Seq::<TreeV>::empty());
        assert(tree_view(&child) =~~= TreeV {
            module: None,
            name: pv[k as int],
            children: Seq::empty(),
        });
    }
    insert(&mut child, path, k + 1, m);
    let ghost cv2 = tree_view(&child);
    let ghost old_children = tree.children@;
    tree.children.push(child);
    proof {
        let before = tree_view(old(tree));
        assert(tree.children@ =~= old_children.push(tree.children@[tree.children@.len() - 1]));
        assert(tree_view(&tree.children@[tree.children@.len() - 1]) == cv2);
        assert forall|x: int|
            0 <= x < tree.children@.len() implies tree_view(tree).children[x]
            == before.children.push(cv2)[x] by {
            if x < tree.children@.len() - 1 {
                assert(tree.children@[x] == old_children[x]);
            }
        }
        assert(tree_view(tree).children =~= before.children.push(cv2));
        assert(tree_view(tree) =~~= spec_insert(before, pv, k as int, m as int));
    }
}

/// Build the project's namespace tree.
fn build_tree(p: &Project) -> (r: ModuleTree)
    ensures
        tree_view(&r) == spec_build_tree(p, p.modules@.len() as int),
{
    let mut tree = ModuleTree {
        module: None,
        name: crate::compiler::semantics::new_string(),
        children: Vec::new(),
    };
    proof {
        assert(tree_view(&tree).children =~= Seq::<TreeV>::empty());
        assert(tree_view(&tree) =~~= spec_build_tree(p, 0));
    }
    let nm = p.modules.len();
    let mut m: usize = 0;
    while m < nm
        invariant
            m <= nm,
            nm == p.modules@.len(),
            tree_view(&tree) == spec_build_tree(p, m as int),
        decreases nm - m,
    {
        insert(&mut tree, &p.modules[m].path.0, 0, m);
        m = m + 1;
    }
    tree
}

/// The emitted text of an attribute.
pub open spec fn spec_render_attr(a: Attribute) -> Seq<char> {
    match a {
        Attribute::NonExhaustive => "#[non_exhaustive]"@,
    }
}

/// The emitted text of a run of attributes.
pub open spec fn spec_render_attrs(attrs: Seq<Attribute>) -> Seq<char>
    decreases attrs.len(),
{
    if attrs.len() == 0 {
        Seq::empty()
    } else {
        spec_render_attr(attrs[0]) + spec_render_attrs(attrs.drop_first())
    }
}

/// The emitted text of a type reference: a built-in's target spelling, or
/// a user type's name, prefixed with a module-relative path when it lives
/// in another module; generic arguments in angle brackets.
pub open spec fn spec_render_type(p: &Project, m: int, ty: &Type) -> Seq<char>
    decreases ty, 1int,
{
    let head = match ty.id {
        TypeId::Builtin(b) => spec_builtin_name(b),
        TypeId::User(id) => {
            let (tm, tt) = spec_type_pos(p, id);
            (if tm != m {
                spec_rel_path(p, m, tm) + "::"@
            } else {
                Seq::empty()
            }) + p.modules@[tm].types@[tt].spec_name()
        },
    };
    if ty.generics@.len() > 0 {
        head + "<"@ + join_commas(gen_parts(p, m, ty)) + ">"@
    } else {
        head
    }
}

/// The rendered generic arguments of a type reference.
pub open spec fn gen_parts(p: &Project, m: int, ty: &Type) -> Seq<Seq<char>>
    decreases ty, 0int,
{
    Seq::new(
        ty.generics@.len(),
        |k: int|
            if 0 <= k < ty.generics@.len() {
                spec_render_type(p, m, &ty.generics@[k])
            } else {
                arbitrary()
            },
    )
}

/// Comma-separated parts.
pub open spec fn join_commas(parts: Seq<Seq<char>>) -> Seq<char> {
    if parts.len() == 0 {
        Seq::empty()
    } else {
        parts[0] + join_rest(parts, 1)
    }
}

/// The parts after the first, each behind a comma.
pub open spec fn join_rest(parts: Seq<Seq<char>>, k: int) -> Seq<char>
    decreases parts.len() - k,
{
    if k < 0 || k >= parts.len() {
        Seq::empty()
    } else {
        ","@ + parts[k] + join_rest(parts, k + 1)
    }
}

/// The target spelling of a built-in type.
pub open spec fn spec_builtin_name(b: BuiltinType) -> Seq<char> {
    match b {
        BuiltinType::Bool => "bool"@,
        BuiltinType::U8 => "u8"@,
        BuiltinType::U16 => "u16"@,
        BuiltinType::U32 => "u32"@,
        BuiltinType::U64 => "u64"@,
        BuiltinType::I8 => "i8"@,
        BuiltinType::I16 => "i16"@,
        BuiltinType::I32 => "i32"@,
        BuiltinType::I64 => "i64"@,
        BuiltinType::F32 => "f32"@,
        BuiltinType::F64 => "f64"@,
        BuiltinType::Uint => "::phenix_runtime::Uint"@,
        BuiltinType::Sint => "::phenix_runtime::Sint"@,
        BuiltinType::Float => "::phenix_runtime::Float"@,
        BuiltinType::StringType => "::std::string::String"@,
        BuiltinType::Vector => "::std::vec::Vec"@,
        BuiltinType::StreamType => "::phenix_runtime::Stream"@,
    }
}

/// The module-relative path from one module to another: up to the root
/// with one `super` per component, then down the target's components.
pub open spec fn spec_rel_path(p: &Project, from: int, to: int) -> Seq<char> {
    "self"@ + spec_supers(p.modules@[from].path.0@.len() as int) + spec_downs(
        crate::compiler::semantics::components_view(p.modules@[to].path.0@),
        0,
    )
}

/// One `::super` per level.
pub open spec fn spec_supers(n: int) -> Seq<char>
    decreases n,
{
    if n <= 0 {
        Seq::empty()
    } else {
        "::super"@ + spec_supers(n - 1)
    }
}

/// The descent through the target's components.
pub open spec fn spec_downs(comps: Seq<Seq<char>>, k: int) -> Seq<char>
    decreases comps.len() - k,
{
    if k < 0 || k >= comps.len() {
        Seq::empty()
    } else {
        "::"@ + comps[k] + spec_downs(comps, k + 1)
    }
}

/// The emitted text of one field.
pub open spec fn spec_render_field(p: &Project, m: int, f: &Field, vis: bool) -> Seq<char> {
    (if vis {
        "pub "@
    } else {
        Seq::empty()
    }) + snake_of(f.name@) + ":"@ + spec_render_type(p, m, &f.ty) + ","@
}

/// The emitted text of a run of fields.
pub open spec fn spec_render_fields(p: &Project, m: int, fs: Seq<Field>, vis: bool) -> Seq<char>
    decreases fs.len(),
{
    if fs.len() == 0 {
        Seq::empty()
    } else {
        spec_render_field(p, m, &fs[0], vis) + spec_render_fields(p, m, fs.drop_first(), vis)
    }
}

/// The emitted text of one variant.
pub open spec fn spec_render_variant(p: &Project, m: int, v: &Variant) -> Seq<char> {
    pascal_of(v.name@) + (if v.fields@.len() > 0 {
        " {"@ + spec_render_fields(p, m, v.fields@, false) + "}"@
    } else {
        Seq::empty()
    }) + ","@
}

/// The emitted text of a run of variants.
pub open spec fn spec_render_variants(p: &Project, m: int, vs: Seq<Variant>) -> Seq<char>
    decreases vs.len(),
{
    if vs.len() == 0 {
        Seq::empty()
    } else {
        spec_render_variant(p, m, &vs[0]) + spec_render_variants(p, m, vs.drop_first())
    }
}

/// The derive line every generated struct and enum carries.
pub open spec fn spec_codec_derives() -> Seq<char> {
    "#[derive(Encodable, Decodable, Debug, Clone, PartialEq)]"@
}

/// The emitted text of one user type.
pub open spec fn spec_render_user_type(p: &Project, m: int, ty: &UserType) -> Seq<char> {
    match ty {
        UserType::Struct(st) => spec_codec_derives() + spec_render_attrs(st.attrs@) + "pub struct "@
            + pascal_of(st.name@) + " {"@ + spec_render_fields(p, m, st.fields@, true) + "}"@,
        UserType::Enum(en) => spec_codec_derives() + spec_render_attrs(en.attrs@) + "pub enum "@
            + pascal_of(en.name@) + " {"@ + spec_render_variants(p, m, en.variants@) + "}"@,
        UserType::Flags(fl) => "#[derive(IsFlag, Debug, Clone, Copy, PartialEq)]"@
            + spec_render_attrs(fl.attrs@) + "pub enum "@ + pascal_of(fl.name@) + "Flag"@ + " {"@
            + spec_render_flag_names(fl.flags@) + "}"@ + "#[allow(dead_code)]"@ + "pub type "@
            + pascal_of(fl.name@) + " = ::phenix_runtime::Flags<"@ + pascal_of(fl.name@) + "Flag"@
            + ">;"@,
    }
}

/// The emitted names of a flag enum's flags.
pub open spec fn spec_render_flag_names(flags: Seq<String>) -> Seq<char>
    decreases flags.len(),
{
    if flags.len() == 0 {
        Seq::empty()
    } else {
        pascal_of(flags[0]@) + ","@ + spec_render_flag_names(flags.drop_first())
    }
}

/// The emitted text of one module's types.
pub open spec fn spec_render_types(p: &Project, m: int, k: int) -> Seq<char>
    decreases p.modules@[m].types@.len() - k,
{
    if m < 0 || m >= p.modules@.len() || k < 0 || k >= p.modules@[m].types@.len() {
        Seq::empty()
    } else {
        spec_render_user_type(p, m, &p.modules@[m].types@[k]) + spec_render_types(p, m, k + 1)
    }
}

/// The prelude import every non-empty module starts with.
pub open spec fn spec_module_prelude() -> Seq<char> {
    "use phenix_runtime::prelude::*;"@
}

/// The emitted text of one namespace node: its own module's prelude and
/// types when it has any, then its children, wrapped in a named module
/// block everywhere but at the root.
pub open spec fn spec_render_tree(p: &Project, t: TreeV) -> Seq<char>
    decreases t, 0int,
{
    let own: Seq<char> = match t.module {
        Some(m) => {
            if 0 <= m < p.modules@.len() && p.modules@[m].types@.len() > 0 {
                spec_module_prelude() + spec_render_types(p, m, 0)
            } else {
                Seq::empty()
            }
        },
        None => Seq::empty(),
    };
    let body = own + spec_render_children(p, t.children, 0);
    if t.name.len() == 0 {
        body
    } else {
        "pub mod "@ + t.name + " {"@ + body + "}"@
    }
}

/// The emitted text of a node's children, in first-insertion order.
pub open spec fn spec_render_children(p: &Project, cs: Seq<TreeV>, k: int) -> Seq<char>
    decreases cs, cs.len() - k,
{
    if k < 0 || k >= cs.len() {
        Seq::empty()
    } else {
        spec_render_tree(p, cs[k]) + spec_render_children(p, cs, k + 1)
    }
}

/// The whole project's emitted text.
pub open spec fn spec_generate(p: &Project) -> Seq<char> {
    spec_render_tree(p, spec_build_tree(p, p.modules@.len() as int))
}

/// Whether every user identifier a type reference mentions, at any depth,
/// is declared in the project.
pub open spec fn type_refs_declared(p: &Project, ty: &Type) -> bool
    decreases ty,
{
    &&& (match ty.id {
        TypeId::User(d) => flat_types(p).contains(d),
        TypeId::Builtin(_) => true,
    })
    &&& (forall|k: int|
        0 <= k < ty.generics@.len() ==> type_refs_declared(p, &(#[trigger] ty.generics@[k])))
}

/// Whether every user identifier one user type mentions is declared.
pub open spec fn user_type_refs_declared(p: &Project, ty: &UserType) -> bool {
    match ty {
        UserType::Struct(st) => forall|k: int|
            0 <= k < st.fields@.len() ==> type_refs_declared(p, &(#[trigger] st.fields@[k]).ty),
        UserType::Enum(en) => forall|k: int, x: int|
            0 <= k < en.variants@.len() && 0 <= x < en.variants@[k].fields@.len()
                ==> type_refs_declared(p, &(#[trigger] en.variants@[k].fields@[x]).ty),
        UserType::Flags(_) => true,
    }
}

/// Whether every user identifier the whole project mentions is declared.
pub open spec fn project_refs_declared(p: &Project) -> bool {
    forall|m: int, t: int|
        valid_pos(p, m, t) ==> user_type_refs_declared(p, &(#[trigger] p.modules@[m].types@[t]))
}

/// Emit one type reference.
#[verifier::rlimit(100)]
fn render_type(p: &Project, m: usize, ty: &Type, out: &mut String)
    requires
        order_input_wf(p),
        m < p.modules@.len(),
        type_refs_declared(p, ty),
    ensures
        final(out)@ == old(out)@ + spec_render_type(p, m as int, ty),
    decreases ty,
{
    match ty.id {
        TypeId::Builtin(b) => {
            match b {
                BuiltinType::Bool => out.push_str("bool"),
                BuiltinType::U8 => out.push_str("u8"),
                BuiltinType::U16 => out.push_str("u16"),
                BuiltinType::U32 => out.push_str("u32"),
                BuiltinType::U64 => out.push_str("u64"),
                BuiltinType::I8 => out.push_str("i8"),
                BuiltinType::I16 => out.push_str("i16"),
                BuiltinType::I32 => out.push_str("i32"),
                BuiltinType::I64 => out.push_str("i64"),
                BuiltinType::F32 => out.push_str("f32"),
                BuiltinType::F64 => out.push_str("f64"),
                BuiltinType::Uint => out.push_str("::phenix_runtime::Uint"),
                BuiltinType::Sint => out.push_str("::phenix_runtime::Sint"),
                BuiltinType::Float => out.push_str("::phenix_runtime::Float"),
                BuiltinType::StringType => out.push_str("::std::string::String"),
                BuiltinType::Vector => out.push_str("::std::vec::Vec"),
                BuiltinType::StreamType => out.push_str("::phenix_runtime::Stream"),
            }
        },
        TypeId::User(id) => {
            let (tm, tt) = match crate::codegen::order::find_type_pos(p, id) {
                Some(pos) => pos,
                None => {
                    proof {
                        assert(false);
                    }
                    return ;
                },
            };
            proof {
                lemma_type_pos_unique(p, tm as int, tt as int);
            }
            if tm != m {
                render_rel_path(p, m, tm, out);
                out.push_str("::");
            }
            out.push_str(p.modules[tm].types[tt].name());
        },
    }
    let ghost headv = (match ty.id {
        TypeId::Builtin(b) => spec_builtin_name(b),
        TypeId::User(id) => {
            let (tm, tt) = spec_type_pos(p, id);
            (if tm != m as int {
                spec_rel_path(p, m as int, tm) + "::"@
            } else {
                Seq::empty()
            }) + p.modules@[tm].types@[tt].spec_name()
        },
    });
    proof {
        assert(out@ =~= old(out)@ + headv);
    }
    let n = ty.generics.len();
    if n > 0 {
        let ghost parts = gen_parts(p, m as int, ty);
        out.push_str("<");
        let ghost base = out@;
        render_type(p, m, &ty.generics[0], out);
        let mut k: usize = 1;
        proof {
            assert(parts[0] == spec_render_type(p, m as int, &ty.generics@[0]));
            assert(out@ =~= base + parts[0]);
            assert(out@ + join_rest(parts, 1) =~= base + parts[0] + join_rest(parts, 1));
        }
        while k < n
            invariant
                1 <= k <= n,
                n == ty.generics@.len(),
                order_input_wf(p),
                m < p.modules@.len(),
                type_refs_declared(p, ty),
                parts == gen_parts(p, m as int, ty),
                out@ + join_rest(parts, k as int) == base + parts[0] + join_rest(parts, 1),
            decreases n - k,
        {
            let ghost pre = out@;
            out.push_str(",");
            render_type(p, m, &ty.generics[k], out);
            proof {
                assert(parts[k as int] == spec_render_type(p, m as int, &ty.generics@[k as int]));
                assert(join_rest(parts, k as int) =~= ","@ + parts[k as int] + join_rest(
                    parts,
                    k + 1,
                ));
                assert(out@ =~= pre + ","@ + parts[k as int]);
                assert(out@ + join_rest(parts, k + 1) =~= pre + join_rest(parts, k as int));
            }
            k = k + 1;
        }
        proof {
            assert(join_rest(parts, n as int) =~= Seq::<char>::empty());
            assert(out@ =~= base + join_commas(parts));
        }
        out.push_str(">");
        proof {
            assert(out@ =~= old(out)@ + headv + "<"@ + join_commas(parts) + ">"@);
            assert(spec_render_type(p, m as int, ty) =~= headv + "<"@ + join_commas(parts)
                + ">"@);
            assert(out@ =~= old(out)@ + spec_render_type(p, m as int, ty));
        }
    } else {
        proof {
            assert(spec_render_type(p, m as int, ty) =~= headv);
            assert(out@ =~= old(out)@ + spec_render_type(p, m as int, ty));
        }
    }
}

/// Emit the module-relative path from one module to another.
fn render_rel_path(p: &Project, from: usize, to: usize, out: &mut String)
    requires
        from < p.modules@.len(),
        to < p.modules@.len(),
    ensures
        final(out)@ == old(out)@ + spec_rel_path(p, from as int, to as int),
{
    out.push_str("self");
    let ups = p.modules[from].path.0.len();
    let mut k: usize = 0;
    while k < ups
        invariant
            k <= ups,
            from < p.modules@.len(),
            ups == p.modules@[from as int].path.0@.len(),
            out@ + spec_supers((ups - k) as int) == old(out)@ + "self"@ + spec_supers(ups as int),
        decreases ups - k,
    {
        out.push_str("::super");
        proof {
            assert(spec_supers((ups - k) as int) =~= "::super"@ + spec_supers((ups - k - 1) as int));
            assert(out@ + spec_supers((ups - k - 1) as int) =~= old(out)@ + "self"@ + spec_supers(
                ups as int,
            ));
        }
        k = k + 1;
    }
    proof {
        assert(spec_supers(0) =~= Seq::<char>::empty());
    }
    let comps = &p.modules[to].path.0;
    let nd = comps.len();
    let ghost cv = crate::compiler::semantics::components_view(comps@);
    let mut d: usize = 0;
    while d < nd
        invariant
            d <= nd,
            to < p.modules@.len(),
            comps@ == p.modules@[to as int].path.0@,
            cv == crate::compiler::semantics::components_view(comps@),
            nd == cv.len(),
            out@ + spec_downs(cv, d as int) == old(out)@ + spec_rel_path(p, from as int, to as int),
        decreases nd - d,
    {
        out.push_str("::");
        out.push_str(comps[d].as_str());
        proof {
            assert(spec_downs(cv, d as int) =~= "::"@ + cv[d as int] + spec_downs(cv, d + 1));
        }
        d = d + 1;
    }
    proof {
        assert(spec_downs(cv, nd as int) =~= Seq::<char>::empty());
        assert(out@ =~= out@ + spec_downs(cv, nd as int));
    }
}

/// Emit a run of attributes.
fn render_attrs(attrs: &Vec<Attribute>, out: &mut String)
    ensures
        final(out)@ == old(out)@ + spec_render_attrs(attrs@),
{
    let n = attrs.len();
    let mut k: usize = 0;
    proof {
        assert(attrs@.skip(0) =~= attrs@);
    }
    while k < n
        invariant
            k <= n,
            n == attrs@.len(),
            out@ + spec_render_attrs(attrs@.skip(k as int)) == old(out)@ + spec_render_attrs(
                attrs@,
            ),
        decreases n - k,
    {
        proof {
            let tail = attrs@.skip(k as int);
            assert(tail[0] == attrs@[k as int]);
            assert(tail.drop_first() =~= attrs@.skip(k + 1));
        }
        match attrs[k] {
            Attribute::NonExhaustive => out.push_str("#[non_exhaustive]"),
        }
        k = k + 1;
    }
    proof {
        assert(spec_render_attrs(attrs@.skip(n as int)) =~= Seq::<char>::empty());
        assert(out@ =~= out@ + spec_render_attrs(attrs@.skip(n as int)));
    }
}

/// Emit a run of fields.
fn render_fields(p: &Project, m: usize, fs: &Vec<Field>, vis: bool, out: &mut String)
    requires
        order_input_wf(p),
        m < p.modules@.len(),
        forall|k: int| 0 <= k < fs@.len() ==> type_refs_declared(p, &(#[trigger] fs@[k]).ty),
    ensures
        final(out)@ == old(out)@ + spec_render_fields(p, m as int, fs@, vis),
{
    let n = fs.len();
    let mut k: usize = 0;
    proof {
        assert(fs@.skip(0) =~= fs@);
    }
    while k < n
        invariant
            k <= n,
            n == fs@.len(),
            order_input_wf(p),
            m < p.modules@.len(),
            forall|x: int| 0 <= x < fs@.len() ==> type_refs_declared(p, &(#[trigger] fs@[x]).ty),
            out@ + spec_render_fields(p, m as int, fs@.skip(k as int), vis) == old(out)@
                + spec_render_fields(p, m as int, fs@, vis),
        decreases n - k,
    {
        proof {
            let tail = fs@.skip(k as int);
            assert(tail[0] == fs@[k as int]);
            assert(tail.drop_first() =~= fs@.skip(k + 1));
        }
        if vis {
            out.push_str("pub ");
        }
        let snake = to_snake(fs[k].name.as_str());
        out.push_str(snake.as_str());
        out.push_str(":");
        render_type(p, m, &fs[k].ty, out);
        out.push_str(",");
        k = k + 1;
    }
    proof {
        assert(spec_render_fields(p, m as int, fs@.skip(n as int), vis) =~= Seq::<char>::empty());
        assert(out@ =~= out@ + spec_render_fields(p, m as int, fs@.skip(n as int), vis));
    }
}

/// Emit a run of variants.
fn render_variants(p: &Project, m: usize, vs: &Vec<Variant>, out: &mut String)
    requires
        order_input_wf(p),
        m < p.modules@.len(),
        forall|k: int, x: int|
            0 <= k < vs@.len() && 0 <= x < vs@[k].fields@.len() ==> type_refs_declared(
                p,
                &(#[trigger] vs@[k].fields@[x]).ty,
            ),
    ensures
        final(out)@ == old(out)@ + spec_render_variants(p, m as int, vs@),
{
    let n = vs.len();
    let mut k: usize = 0;
    proof {
        assert(vs@.skip(0) =~= vs@);
    }
    while k < n
        invariant
            k <= n,
            n == vs@.len(),
            order_input_wf(p),
            m < p.modules@.len(),
            forall|y: int, x: int|
                0 <= y < vs@.len() && 0 <= x < vs@[y].fields@.len() ==> type_refs_declared(
                    p,
                    &(#[trigger] vs@[y].fields@[x]).ty,
                ),
            out@ + spec_render_variants(p, m as int, vs@.skip(k as int)) == old(out)@
                + spec_render_variants(p, m as int, vs@),
        decreases n - k,
    {
        proof {
            let tail = vs@.skip(k as int);
            assert(tail[0] == vs@[k as int]);
            assert(tail.drop_first() =~= vs@.skip(k + 1));
        }
        let pascal = to_pascal(vs[k].name.as_str());
        out.push_str(pascal.as_str());
        if vs[k].fields.len() > 0 {
            out.push_str(" {");
            render_fields(p, m, &vs[k].fields, false, out);
            out.push_str("}");
        }
        out.push_str(",");
        k = k + 1;
    }
    proof {
        assert(spec_render_variants(p, m as int, vs@.skip(n as int)) =~= Seq::<char>::empty());
        assert(out@ =~= out@ + spec_render_variants(p, m as int, vs@.skip(n as int)));
    }
}

/// Emit one user type.
fn render_user_type(p: &Project, m: usize, ty: &UserType, out: &mut String)
    requires
        order_input_wf(p),
        m < p.modules@.len(),
        user_type_refs_declared(p, ty),
    ensures
        final(out)@ == old(out)@ + spec_render_user_type(p, m as int, ty),
{
    match ty {
        UserType::Struct(st) => {
            out.push_str("#[derive(Encodable, Decodable, Debug, Clone, PartialEq)]");
            render_attrs(&st.attrs, out);
            out.push_str("pub struct ");
            let pascal = to_pascal(st.name.as_str());
            out.push_str(pascal.as_str());
            out.push_str(" {");
            render_fields(p, m, &st.fields, true, out);
            out.push_str("}");
        },
        UserType::Enum(en) => {
            out.push_str("#[derive(Encodable, Decodable, Debug, Clone, PartialEq)]");
            render_attrs(&en.attrs, out);
            out.push_str("pub enum ");
            let pascal = to_pascal(en.name.as_str());
            out.push_str(pascal.as_str());
            out.push_str(" {");
            render_variants(p, m, &en.variants, out);
            out.push_str("}");
        },
        UserType::Flags(fl) => {
            out.push_str("#[derive(IsFlag, Debug, Clone, Copy, PartialEq)]");
            render_attrs(&fl.attrs, out);
            out.push_str("pub enum ");
            let pascal = to_pascal(fl.name.as_str());
            out.push_str(pascal.as_str());
            out.push_str("Flag");
            out.push_str(" {");
            render_flag_names(&fl.flags, out);
            out.push_str("}");
            out.push_str("#[allow(dead_code)]");
            out.push_str("pub type ");
            out.push_str(pascal.as_str());
            out.push_str(" = ::phenix_runtime::Flags<");
            out.push_str(pascal.as_str());
            out.push_str("Flag");
            out.push_str(">;");
        },
    }
    proof {
        assert(final(out)@ =~= old(out)@ + spec_render_user_type(p, m as int, ty));
    }
}

/// Emit a flag enum's flag names.
fn render_flag_names(flags: &Vec<String>, out: &mut String)
    ensures
        final(out)@ == old(out)@ + spec_render_flag_names(flags@),
{
    let n = flags.len();
    let mut k: usize = 0;
    proof {
        assert(flags@.skip(0) =~= flags@);
    }
    while k < n
        invariant
            k <= n,
            n == flags@.len(),
            out@ + spec_render_flag_names(flags@.skip(k as int)) == old(out)@
                + spec_render_flag_names(flags@),
        decreases n - k,
    {
        proof {
            let tail = flags@.skip(k as int);
            assert(tail[0] == flags@[k as int]);
            assert(tail.drop_first() =~= flags@.skip(k + 1));
        }
        let pascal = to_pascal(flags[k].as_str());
        out.push_str(pascal.as_str());
        out.push_str(",");
        k = k + 1;
    }
    proof {
        assert(spec_render_flag_names(flags@.skip(n as int)) =~= Seq::<char>::empty());
        assert(out@ =~= out@ + spec_render_flag_names(flags@.skip(n as int)));
    }
}

/// Emit one module's types.
fn render_types(p: &Project, m: usize, out: &mut String)
    requires
        order_input_wf(p),
        project_refs_declared(p),
        m < p.modules@.len(),
    ensures
        final(out)@ == old(out)@ + spec_render_types(p, m as int, 0),
{
    let n = p.modules[m].types.len();
    let mut k: usize = 0;
    while k < n
        invariant
            k <= n,
            m < p.modules@.len(),
            n == p.modules@[m as int].types@.len(),
            order_input_wf(p),
            project_refs_declared(p),
            out@ + spec_render_types(p, m as int, k as int) == old(out)@ + spec_render_types(
                p,
                m as int,
                0,
            ),
        decreases n - k,
    {
        proof {
            assert(valid_pos(p, m as int, k as int));
            assert(user_type_refs_declared(p, &p.modules@[m as int].types@[k as int]));
        }
        render_user_type(p, m, &p.modules[m].types[k], out);
        k = k + 1;
    }
    proof {
        assert(spec_render_types(p, m as int, n as int) =~= Seq::<char>::empty());
        assert(out@ =~= out@ + spec_render_types(p, m as int, n as int));
    }
}

/// Emit one namespace node and its descendants.
fn render_tree(p: &Project, t: &ModuleTree, out: &mut String)
    requires
        order_input_wf(p),
        project_refs_declared(p),
    ensures
        final(out)@ == old(out)@ + spec_render_tree(p, tree_view(t)),
    decreases *t,
{
    let is_root = t.name.as_str().unicode_len() == 0;
    if !is_root {
        out.push_str("pub mod ");
        out.push_str(t.name.as_str());
        out.push_str(" {");
    }
    match t.module {
        Some(m) => {
            if m < p.modules.len() && p.modules[m].types.len() > 0 {
                out.push_str("use phenix_runtime::prelude::*;");
                render_types(p, m, out);
            }
        },
        None => {},
    }
    let n = t.children.len();
    let ghost cs = tree_view(t).children;
    let ghost mid = out@;
    let mut k: usize = 0;
    while k < n
        invariant
            k <= n,
            n == t.children@.len(),
            cs == tree_view(t).children,
            cs.len() == n,
            order_input_wf(p),
            project_refs_declared(p),
            out@ == mid + spec_render_children_upto(p, cs, k as int),
        decreases n - k,
    {
        proof {
            assert(cs[k as int] == tree_view(&t.children@[k as int]));
            lemma_children_upto_step(p, cs, k as int);
        }
        render_tree(p, &t.children[k], out);
        k = k + 1;
    }
    proof {
        lemma_children_upto_all(p, cs, 0);
        assert(out@ =~= mid + spec_render_children(p, cs, 0));
    }
    if !is_root {
        out.push_str("}");
    }
    proof {
        assert(final(out)@ =~= old(out)@ + spec_render_tree(p, tree_view(t)));
    }
}

/// The first `k` children's text.
pub open spec fn spec_render_children_upto(p: &Project, cs: Seq<TreeV>, k: int) -> Seq<char>
    decreases k,
{
    if k <= 0 {
        Seq::empty()
    } else {
        spec_render_children_upto(p, cs, k - 1) + spec_render_tree(p, cs[k - 1])
    }
}

proof fn lemma_children_upto_step(p: &Project, cs: Seq<TreeV>, k: int)
    requires
        0 <= k < cs.len(),
    ensures
        spec_render_children_upto(p, cs, k + 1) == spec_render_children_upto(p, cs, k)
            + spec_render_tree(p, cs[k]),
{
}

proof fn lemma_children_upto_all(p: &Project, cs: Seq<TreeV>, k: int)
    requires
        0 <= k <= cs.len(),
    ensures
        spec_render_children_upto(p, cs, cs.len() as int) == spec_render_children_upto(p, cs, k)
            + spec_render_children(p, cs, k),
    decreases cs.len() - k,
{
    if k < cs.len() {
        lemma_children_upto_all(p, cs, k + 1);
        lemma_children_upto_step(p, cs, k);
        assert(spec_render_children(p, cs, k) =~= spec_render_tree(p, cs[k])
            + spec_render_children(p, cs, k + 1));
    } else {
        assert(spec_render_children(p, cs, k) =~= Seq::<char>::empty());
    }
}

/// Generate target-language source for a compiled project, or report one
/// type a use-cycle runs through: the wire format has no self-referential
/// types, so a cycle is a hard error.
pub fn generate(p: &Project, lang: Language) -> (r: Result<String, UserTypeId>)
    requires
        order_input_wf(p),
        project_refs_declared(p),
    ensures
        match r {
            Ok(text) => text@ == spec_generate(p),
            Err(id) => cycle_through(p, id),
        },
        r is Err <==> exists|id: UserTypeId| #[trigger] cycle_through(p, id),
{
    match lang {
        Language::Rust => {},
    }
    match type_dependency_order(p) {
        Ok(ord) => {
            proof {
                assert forall|id: UserTypeId| !(#[trigger] cycle_through(p, id)) by {
                    crate::codegen::order::lemma_order_excludes_cycle(p, ord@, id);
                }
            }
        },
        Err(id) => {
            proof {
                assert(cycle_through(p, id));
            }
            return Err(id);
        },
    }
    let tree = build_tree(p);
    let mut out = crate::compiler::semantics::new_string();
    render_tree(p, &tree, &mut out);
    proof {
        assert(out@ =~= spec_generate(p));
    }
    Ok(out)
}

} // verus!
