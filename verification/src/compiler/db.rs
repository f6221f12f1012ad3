//! The definition database and the compile pass: interned item
//! identities, per-file definitions and imports, module scopes, the
//! reachable-file closure, and the lowering of every reachable file to
//! the project model.

use vstd::prelude::*;

use crate::compiler::ir::{AliasData, ItemData};
use crate::compiler::semantics::{self, clone_string, components_view, Scope};
use crate::project::{Module, ModuleId, ModulePath, Project, UserType};

verus! {

/// One import of a schema file: every defined name of the imported file,
/// or a list of aliases; the path is in components, relative to the
/// importing file's directory.
pub struct FileImport {
    pub star: bool,
    pub aliases: Vec<AliasData>,
    pub path: Vec<String>,
}

/// One schema file handed to the compiler: its path components (the last
/// one names the file) and its parsed items and imports.
pub struct SchemaFile {
    pub path: Vec<String>,
    pub items: Vec<ItemData>,
    pub imports: Vec<FileImport>,
}


/// The component view keeps the component count and each component's
/// characters.
pub broadcast proof fn lemma_components_view(p: Seq<String>)
    ensures
        (#[trigger] components_view(p)).len() == p.len(),
        forall|k: int| 0 <= k < p.len() ==> #[trigger] components_view(p)[k] == p[k]@,
{
}

/// An import path joined onto the importing file's directory: a `..`
/// component steps one directory up, a `.` component stays.
pub open spec fn spec_join_path(base: Seq<Seq<char>>, rel: Seq<Seq<char>>) -> Seq<Seq<char>>
    decreases rel.len(),
{
    if rel.len() == 0 {
        base
    } else if rel[0] == ".."@ {
        spec_join_path(
            if base.len() > 0 {
                base.drop_last()
            } else {
                base
            },
            rel.drop_first(),
        )
    } else if rel[0] == "."@ {
        spec_join_path(base, rel.drop_first())
    } else {
        spec_join_path(base.push(rel[0]), rel.drop_first())
    }
}

/// Join an import path onto the importing file's directory.
pub fn join_path(base: &Vec<String>, rel: &Vec<String>) -> (r: Vec<String>)
    ensures
        components_view(r@) == spec_join_path(components_view(base@), components_view(rel@)),
{
    broadcast use lemma_components_view;
    let mut r: Vec<String> = Vec::new();
    let nb = base.len();
    let mut k: usize = 0;
    proof {
        assert(components_view(r@) =~= components_view(base@).take(0));
    }
    while k < nb
        invariant
            k <= nb,
            nb == base@.len(),
            components_view(r@) == components_view(base@).take(k as int),
        decreases nb - k,
    {
        let ghost r0 = r@;
        let cloned = clone_string(&base[k]);
        let ghost cv = cloned@;
        r.push(cloned);
        proof {
            assert(components_view(r0).len() == r0.len());
            assert(r0.len() == k);
            assert(r@[k as int]@ == cv);
            assert forall|x: int|
                0 <= x < k + 1 implies components_view(r@)[x] == components_view(base@).take(
                k + 1,
            )[x] by {
                if x < k {
                    assert(r@[x] == r0[x]);
                    assert(components_view(r0)[x] == components_view(base@).take(k as int)[x]);
                }
            }
            assert(components_view(r@) =~= components_view(base@).take(k + 1));
        }
        k = k + 1;
    }
    proof {
        assert(components_view(base@).take(nb as int) =~= components_view(base@));
        assert(components_view(rel@).skip(0) =~= components_view(rel@));
    }
    let nr = rel.len();
    let mut j: usize = 0;
    while j < nr
        invariant
            j <= nr,
            nr == rel@.len(),
            spec_join_path(components_view(r@), components_view(rel@).skip(j as int))
                == spec_join_path(components_view(base@), components_view(rel@)),
        decreases nr - j,
    {
        let ghost before = components_view(r@);
        let ghost tail = components_view(rel@).skip(j as int);
        proof {
            assert(tail[0] == rel@[j as int]@);
            assert(tail.drop_first() =~= components_view(rel@).skip(j + 1));
        }
        let c = &rel[j];
        if is_dot_dot(c.as_str()) {
            if r.len() > 0 {
                let ghost r0 = r@;
                let _ = r.pop();
                proof {
                    assert(r@ =~= r0.drop_last());
                    assert forall|x: int|
                        0 <= x < r@.len() implies components_view(r@)[x] == before.drop_last()[x]
                        by {
                        assert(r@[x] == r0[x]);
                        assert(before[x] == components_view(r0)[x]);
                    }
                    assert(components_view(r@) =~= before.drop_last());
                }
            }
        } else if is_dot(c.as_str()) {
        } else {
            let ghost r0 = r@;
            let cloned = clone_string(c);
            let ghost cv = cloned@;
            r.push(cloned);
            proof {
                assert(components_view(r0).len() == r0.len());
                assert(r@[r@.len() - 1]@ == cv);
                assert forall|x: int|
                    0 <= x < r@.len() implies components_view(r@)[x] == before.push(
                    rel@[j as int]@,
                )[x] by {
                    if x < r0.len() {
                        assert(r@[x] == r0[x]);
                        assert(before[x] == components_view(r0)[x]);
                    }
                }
                assert(components_view(r@) =~= before.push(rel@[j as int]@));
            }
        }
        j = j + 1;
    }
    r
}

/// Whether the component is the parent-directory step.
fn is_dot_dot(s: &str) -> (r: bool)
    ensures
        r == (s@ == ".."@),
{
    proof {
        reveal_strlit("..");
    }
    s.eq("..")
}

/// Whether the component is the current-directory step.
fn is_dot(s: &str) -> (r: bool)
    ensures
        r == (s@ == "."@),
{
    proof {
        reveal_strlit(".");
    }
    s.eq(".")
}

/// Whether two component paths spell the same components.
pub fn same_path(a: &Vec<String>, b: &Vec<String>) -> (r: bool)
    ensures
        r == (components_view(a@) == components_view(b@)),
{
    broadcast use lemma_components_view;
    if a.len() != b.len() {
        proof {
            assert(components_view(a@).len() != components_view(b@).len());
        }
        return false;
    }
    let n = a.len();
    let mut k: usize = 0;
    while k < n
        invariant
            k <= n,
            n == a@.len(),
            n == b@.len(),
            forall|x: int| 0 <= x < k ==> components_view(a@)[x] == components_view(b@)[x],
        decreases n - k,
    {
        if !a[k].as_str().eq(b[k].as_str()) {
            proof {
                assert(components_view(a@)[k as int] != components_view(b@)[k as int]);
            }
            return false;
        }
        k = k + 1;
    }
    proof {
        assert(components_view(a@) =~= components_view(b@));
    }
    true
}

/// The index of the first file with the given path, if any.
pub open spec fn spec_find_file(files: Seq<Seq<Seq<char>>>, path: Seq<Seq<char>>) -> Option<int>
    decreases files.len(),
{
    if files.len() == 0 {
        None
    } else if files[0] == path {
        Some(0int)
    } else {
        match spec_find_file(files.drop_first(), path) {
            Some(k) => Some(k + 1),
            None => None,
        }
    }
}

/// The paths of the compiler's files.
pub open spec fn file_paths(files: &Vec<SchemaFile>) -> Seq<Seq<Seq<char>>> {
    Seq::new(files@.len(), |k: int| components_view(files@[k].path@))
}

/// Find the file with the given path.
pub fn find_file(files: &Vec<SchemaFile>, path: &Vec<String>) -> (r: Option<usize>)
    ensures
        match r {
            Some(k) => spec_find_file(file_paths(files), components_view(path@)) == Some(k as int)
                && k < files@.len(),
            None => spec_find_file(file_paths(files), components_view(path@)) is None,
        },
{
    broadcast use lemma_components_view;
    let n = files.len();
    let mut k: usize = 0;
    proof {
        assert(file_paths(files).skip(0) =~= file_paths(files));
    }
    while k < n
        invariant
            k <= n,
            n == files@.len(),
            forall|x: int| 0 <= x < k ==> file_paths(files)[x] != components_view(path@),
            spec_find_file(file_paths(files), components_view(path@)) == (match spec_find_file(
                file_paths(files).skip(k as int),
                components_view(path@),
            ) {
                Some(j) => Some(j + k),
                None => None::<int>,
            }),
        decreases n - k,
    {
        proof {
            let tail = file_paths(files).skip(k as int);
            assert(tail[0] == file_paths(files)[k as int]);
            assert(tail.drop_first() =~= file_paths(files).skip(k + 1));
        }
        if same_path(&files[k].path, path) {
            return Some(k);
        }
        k = k + 1;
    }
    proof {
        assert(file_paths(files).skip(n as int).len() == 0);
    }
    None
}

/// The directory of a file: its path without the file component.
pub fn dir_of(path: &Vec<String>) -> (r: Vec<String>)
    ensures
        path@.len() > 0 ==> components_view(r@) == components_view(path@).drop_last(),
        path@.len() == 0 ==> components_view(r@) == components_view(path@),
{
    broadcast use lemma_components_view;
    let mut r: Vec<String> = Vec::new();
    if path.len() == 0 {
        proof {
            assert(components_view(r@) =~= components_view(path@));
        }
        return r;
    }

    let n = path.len() - 1;
    let mut k: usize = 0;
    proof {
        assert(components_view(r@) =~= components_view(path@).take(0));
    }
    while k < n
        invariant
            k <= n,
            n == path@.len() - 1,
            components_view(r@) == components_view(path@).take(k as int),
        decreases n - k,
    {
        let ghost r0 = r@;
        let cloned = clone_string(&path[k]);
        let ghost cv = cloned@;
        r.push(cloned);
        proof {
            assert(components_view(r0).len() == r0.len());
            assert(r0.len() == k);
            assert(r@[k as int]@ == cv);
            assert forall|x: int|
                0 <= x < k + 1 implies components_view(r@)[x] == components_view(path@).take(
                k + 1,
            )[x] by {
                if x < k {
                    assert(r@[x] == r0[x]);
                    assert(components_view(r0)[x] == components_view(path@).take(k as int)[x]);
                }
            }
            assert(components_view(r@) =~= components_view(path@).take(k + 1));
        }
        k = k + 1;
    }
    proof {
        assert(components_view(path@).take(n as int) =~= components_view(path@).drop_last());
    }
    r
}

/// The file an import of `files[f]` refers to, if its path names one.
pub open spec fn spec_import_target(files: &Vec<SchemaFile>, f: int, im: int) -> Option<int> {
    let base = components_view(files@[f].path@);
    let dir = if base.len() > 0 {
        base.drop_last()
    } else {
        base
    };
    let joined = spec_join_path(dir, components_view(files@[f].imports@[im].path@));
    spec_find_file(file_paths(files), joined)
}

/// The file an import refers to.
pub fn import_target(files: &Vec<SchemaFile>, f: usize, im: usize) -> (r: Option<usize>)
    requires
        f < files@.len(),
        im < files@[f as int].imports@.len(),
    ensures
        match r {
            Some(k) => spec_import_target(files, f as int, im as int) == Some(k as int) && k
                < files@.len(),
            None => spec_import_target(files, f as int, im as int) is None,
        },
{
    let dir = dir_of(&files[f].path);
    let joined = join_path(&dir, &files[f].imports[im].path);
    find_file(files, &joined)
}

/// Every listed file after the root was imported by an earlier listed
/// file.
#[verifier::opaque]
pub open spec fn provenance_ok(files: &Vec<SchemaFile>, r: Seq<usize>) -> bool {
    forall|k: int|
        #![trigger r[k]]
        1 <= k < r.len() ==> exists|j: int, im: int|
            0 <= j < k && 0 <= im < files@[r[j] as int].imports@.len()
                && #[trigger] spec_import_target(files, r[j] as int, im) == Some(r[k] as int)
}

/// The reachable files of a compile: the root first, then every file an
/// already-listed file imports, in first-seen order, each file once.
#[verifier::rlimit(100)]
#[verifier::spinoff_prover]
pub fn reachable_files(files: &Vec<SchemaFile>, root: usize) -> (r: Vec<usize>)
    requires
        root < files@.len(),
    ensures
        r@.len() >= 1,
        r@[0] == root,
        r@.len() <= files@.len(),
        forall|k: int| 0 <= k < r@.len() ==> (#[trigger] r@[k]) < files@.len(),
        forall|k1: int, k2: int| 0 <= k1 < k2 < r@.len() ==> r@[k1] != r@[k2],
        forall|k: int, im: int|
            0 <= k < r@.len() && 0 <= im < files@[r@[k] as int].imports@.len() && (
            #[trigger] spec_import_target(files, r@[k] as int, im)) is Some ==> r@.contains(
                spec_import_target(files, r@[k] as int, im)->Some_0 as usize,
            ),
        provenance_ok(files, r@),
        r@ == spec_reachable(files, root),
{
    let mut r: Vec<usize> = Vec::new();
    r.push(root);
    proof {
        reveal(provenance_ok);
        assert(provenance_ok(files, r@));
        assert(r@ =~= seq![root]);
    }
    let mut i: usize = 0;
    while i < r.len()
        invariant
            files@.len() > 0,
            r@.len() >= 1,
            r@[0] == root,
            i <= r@.len(),
            r@.len() <= files@.len(),
            forall|k: int| 0 <= k < r@.len() ==> (#[trigger] r@[k]) < files@.len(),
            forall|k1: int, k2: int| 0 <= k1 < k2 < r@.len() ==> r@[k1] != r@[k2],
            forall|k: int, im: int|
                0 <= k < i && 0 <= im < files@[r@[k] as int].imports@.len() && (
                #[trigger] spec_import_target(files, r@[k] as int, im)) is Some ==> r@.contains(
                    spec_import_target(files, r@[k] as int, im)->Some_0 as usize,
                ),
            provenance_ok(files, r@),
            spec_reach(files, seq![root], 0) == spec_reach(files, r@, i as int),
        decreases files@.len() - i,
    {
        let f = r[i];
        let ghost r_outer = r@;
        let n_imports = files[f].imports.len();
        let mut im: usize = 0;
        proof {
            assert(r@ =~= spec_absorb(files, r_outer, f as int, 0));
        }
        while im < n_imports
            invariant
                i < r@.len(),
                f == r@[i as int],
                f < files@.len(),
                files@.len() > 0,
                r@.len() >= 1,
                r@[0] == root,
                r@.len() <= files@.len(),
                im <= n_imports,
                n_imports == files@[f as int].imports@.len(),
                forall|k: int| 0 <= k < r@.len() ==> (#[trigger] r@[k]) < files@.len(),
                forall|k1: int, k2: int| 0 <= k1 < k2 < r@.len() ==> r@[k1] != r@[k2],
                forall|k: int, imx: int|
                    0 <= k < i && 0 <= imx < files@[r@[k] as int].imports@.len() && (
                    #[trigger] spec_import_target(files, r@[k] as int, imx)) is Some
                        ==> r@.contains(
                        spec_import_target(files, r@[k] as int, imx)->Some_0 as usize,
                    ),
                forall|imx: int|
                    0 <= imx < im && (#[trigger] spec_import_target(files, f as int, imx)) is Some
                        ==> r@.contains(spec_import_target(files, f as int, imx)->Some_0 as usize),
                provenance_ok(files, r@),
                spec_reach(files, seq![root], 0) == spec_reach(files, r_outer, i as int),
                r@ == spec_absorb(files, r_outer, f as int, im as int),
                i < r_outer.len(),
                f == r_outer[i as int],
                worklist_inv(files, r_outer),
            decreases n_imports - im,
        {
            let ghost r_head = r@;
            match import_target(files, f, im) {
                Some(target) => {
                    let mut seen = false;
                    let mut x: usize = 0;
                    let rn = r.len();
                    while x < rn
                        invariant
                            x <= rn,
                            rn == r@.len(),
                            seen == (exists|y: int| 0 <= y < x && r@[y] == target),
                        decreases rn - x,
                    {
                        if r[x] == target {
                            seen = true;
                        }
                        x = x + 1;
                    }
                    if !seen {
                        let ghost r_before = r@;
                        r.push(target);
                        proof {
                            reveal(provenance_ok);
                            assert(r@[r@.len() - 1] == target);
                            assert(spec_import_target(files, r@[i as int] as int, im as int)
                                == Some(target as int));
                            assert forall|k: int|
                                #![trigger r@[k]]
                                1 <= k < r@.len() implies exists|j: int, imx: int|
                                0 <= j < k && 0 <= imx < files@[r@[j] as int].imports@.len()
                                    && #[trigger] spec_import_target(files, r@[j] as int, imx)
                                    == Some(r@[k] as int) by {
                                assert(provenance_ok(files, r_before));
                                reveal(provenance_ok);
                                if k < r@.len() - 1 {
                                    let (j0, im0) = choose|j: int, imx: int|
                                        0 <= j < k && 0 <= imx < files@[r_before[j] as int].imports@.len()
                                            && #[trigger] spec_import_target(
                                            files,
                                            r_before[j] as int,
                                            imx,
                                        ) == Some(r_before[k] as int);
                                    assert(r@[j0] == r_before[j0] && r@[k] == r_before[k]);
                                    assert(spec_import_target(files, r@[j0] as int, im0) == Some(
                                        r@[k] as int,
                                    ));
                                } else {
                                    assert(spec_import_target(files, r@[i as int] as int, im as int)
                                        == Some(r@[k] as int));
                                }
                            }
                            assert(provenance_ok(files, r@));
                            assert forall|k1: int, k2: int|
                                0 <= k1 < k2 < r@.len() implies r@[k1] != r@[k2] by {
                                if k2 < r@.len() - 1 {
                                    assert(r@[k1] == r_before[k1] && r@[k2] == r_before[k2]);
                                } else {
                                    assert(r@[k1] == r_before[k1]);
                                }
                            }
                            assert(files@.len() == vstd::std_specs::vec::spec_vec_len(files));
                            lemma_distinct_bound(r@, files@.len() as int);
                        }
                    } else {
                        proof {
                            let y = choose|y: int| 0 <= y < r@.len() && r@[y] == target;
                            assert(r@[y] == target);
                        }
                    }
                    proof {
                        assert(r@.contains(target));
                    }
                },
                None => {},
            }
            im = im + 1;
            proof {
                assert(r@ == spec_absorb(files, r_outer, f as int, im as int)) by {
                    assert(spec_absorb(files, r_outer, f as int, im - 1) == r_head);
                }
                assert forall|v: usize| r_head.contains(v) implies r@.contains(v) by {
                    let y = choose|y: int| 0 <= y < r_head.len() && r_head[y] == v;
                    assert(r@[y] == v);
                }
                assert forall|imx: int|
                    0 <= imx < im && (#[trigger] spec_import_target(files, f as int, imx))
                        is Some implies r@.contains(
                    spec_import_target(files, f as int, imx)->Some_0 as usize,
                ) by {
                    if imx < im - 1 {
                        assert(r_head.contains(
                            spec_import_target(files, f as int, imx)->Some_0 as usize,
                        ));
                    }
                }
                assert forall|k: int, imx: int|
                    0 <= k < i && 0 <= imx < files@[r@[k] as int].imports@.len() && (
                    #[trigger] spec_import_target(files, r@[k] as int, imx)) is Some
                        implies r@.contains(
                    spec_import_target(files, r@[k] as int, imx)->Some_0 as usize,
                ) by {
                    assert(r@[k] == r_head[k]);
                    assert(r_head.contains(
                        spec_import_target(files, r_head[k] as int, imx)->Some_0 as usize,
                    ));
                }
            }
        }
        proof {
            assert(r@ == spec_absorb(
                files,
                r_outer,
                r_outer[i as int] as int,
                files@[r_outer[i as int] as int].imports@.len() as int,
            ));
            assert(spec_reach(files, r_outer, i as int) == spec_reach(files, r@, i + 1));
        }
        i = i + 1;
    }
    proof {
        assert(files@.len() == vstd::std_specs::vec::spec_vec_len(files));
        lemma_distinct_bound(r@, files@.len() as int);
        assert(spec_reach(files, r@, i as int) == r@);
    }
    r
}

/// A run of distinct indices below a bound has at most that many entries.
proof fn lemma_distinct_bound(r: Seq<usize>, bound: int)
    requires
        0 <= bound <= usize::MAX,
        forall|k: int| 0 <= k < r.len() ==> (#[trigger] r[k]) < bound,
        forall|k1: int, k2: int| 0 <= k1 < k2 < r.len() ==> r[k1] != r[k2],
    ensures
        r.len() <= bound,
{
    let s = r.to_set();
    assert(s.subset_of(Set::new(|x: usize| x < bound)));
    assert(r.no_duplicates());
    r.unique_seq_to_set();
    lemma_usize_range_set(bound as nat);
    vstd::set_lib::lemma_len_subset(s, Set::new(|x: usize| x < bound));
}

/// The set of indices below a bound is finite with that many members.
proof fn lemma_usize_range_set(bound: nat)
    requires
        bound <= usize::MAX,
    ensures
        Set::new(|x: usize| x < bound).finite(),
        Set::new(|x: usize| x < bound).len() == bound,
    decreases bound,
{
    if bound == 0 {
        let ghost s0 = Set::new(|x: usize| x < 0);
        assert(s0 =~= Set::empty()) by {
            assert forall|x: usize| !(#[trigger] s0.contains(x)) by {}
        }
    } else {
        lemma_usize_range_set((bound - 1) as nat);
        assert(Set::new(|x: usize| x < bound) =~= Set::new(
            |x: usize| x < (bound - 1) as usize,
        ).insert((bound - 1) as usize));
    }
}

/// The identifier of a file's first item: items are interned in file
/// order, densely across all files.
pub open spec fn id_base(files: &Vec<SchemaFile>, f: int) -> int
    decreases f,
{
    if f <= 0 {
        0
    } else {
        id_base(files, f - 1) + files@[f - 1].items@.len()
    }
}

/// How many items all files define together.
pub open spec fn total_items(files: &Vec<SchemaFile>) -> int {
    id_base(files, files@.len() as int)
}

pub proof fn lemma_id_base_nonneg(files: &Vec<SchemaFile>, a: int)
    requires
        0 <= a <= files@.len(),
    ensures
        0 <= id_base(files, a),
    decreases a,
{
    if a > 0 {
        lemma_id_base_nonneg(files, a - 1);
    }
}

pub proof fn lemma_id_base_mono(files: &Vec<SchemaFile>, a: int, b: int)
    requires
        0 <= a <= b <= files@.len(),
    ensures
        id_base(files, a) <= id_base(files, b),
        0 <= id_base(files, a),
    decreases b - a,
{
    lemma_id_base_nonneg(files, a);
    if a < b {
        lemma_id_base_mono(files, a + 1, b);
    }
}

/// The bindings a file's own definitions contribute to a scope: each
/// item's name bound to its interned identifier, in definition order.
pub open spec fn defs_bindings(files: &Vec<SchemaFile>, f: int) -> Seq<(Seq<char>, usize)> {
    Seq::new(
        files@[f].items@.len(),
        |j: int| (files@[f].items@[j].spec_name(), (id_base(files, f) + j) as usize),
    )
}

/// Compute the identifier of a file's first item.
fn compute_id_base(files: &Vec<SchemaFile>, f: usize) -> (r: usize)
    requires
        f <= files@.len(),
        total_items(files) <= usize::MAX,
    ensures
        r == id_base(files, f as int),
{
    let mut acc: usize = 0;
    let mut k: usize = 0;
    while k < f
        invariant
            k <= f,
            f <= files@.len(),
            total_items(files) <= usize::MAX,
            acc == id_base(files, k as int),
        decreases f - k,
    {
        proof {
            assert(files@[k as int].items@.len() == vstd::std_specs::vec::spec_vec_len(
                &files@[k as int].items,
            ));
            lemma_id_base_mono(files, k + 1, files@.len() as int);
            lemma_id_base_mono(files, 0, k as int);
        }
        acc = acc + files[k].items.len();
        k = k + 1;
    }
    acc
}

/// The view of scope bindings held as a vector.
pub open spec fn bindings_view(p: Seq<(String, usize)>) -> Seq<(Seq<char>, usize)> {
    Seq::new(p.len(), |k: int| (p[k].0@, p[k].1))
}

/// The two binding views agree.
pub broadcast proof fn lemma_bindings_view(p: &Scope)
    ensures
        #[trigger] semantics::scope_view(p) == bindings_view(p@),
{
    assert(semantics::scope_view(p) =~= bindings_view(p@));
}

/// Append a file's own definitions to a scope being built.
fn push_defs(files: &Vec<SchemaFile>, f: usize, out: &mut Scope)
    requires
        f < files@.len(),
        total_items(files) <= usize::MAX,
    ensures
        bindings_view(final(out)@) == bindings_view(old(out)@) + defs_bindings(files, f as int),
{
    let base = compute_id_base(files, f);
    let n = files[f].items.len();
    let mut j: usize = 0;
    proof {
        lemma_id_base_mono(files, f as int, f as int);
        lemma_id_base_mono(files, f + 1, files@.len() as int);
        assert(files@[f as int].items@.len() == vstd::std_specs::vec::spec_vec_len(
            &files@[f as int].items,
        ));
    }
    while j < n
        invariant
            j <= n,
            f < files@.len(),
            n == files@[f as int].items@.len(),
            base == id_base(files, f as int),
            base + n <= usize::MAX,
            bindings_view(out@) == bindings_view(old(out)@) + defs_bindings(files, f as int).take(
                j as int,
            ),
        decreases n - j,
    {
        let name = clone_string(files[f].items[j].name_ref());
        let ghost nv = name@;
        let ghost o0 = out@;
        out.push((name, base + j));
        proof {
            assert(out@[out@.len() - 1].0@ == nv);
            assert(bindings_view(out@) =~= bindings_view(o0).push(
                (nv, (id_base(files, f as int) + j) as usize),
            ));
            assert(bindings_view(out@) =~= bindings_view(old(out)@) + defs_bindings(
                files,
                f as int,
            ).take(j + 1));
        }
        j = j + 1;
    }
    proof {
        assert(defs_bindings(files, f as int).take(n as int) =~= defs_bindings(files, f as int));
    }
}

/// The binding one alias contributes: the imported file's definition
/// under the local name, or nothing when the name is not defined there.
pub open spec fn alias_binding(
    files: &Vec<SchemaFile>,
    target: int,
    alias: &crate::compiler::ir::AliasData,
) -> Seq<(Seq<char>, usize)> {
    match semantics::scope_lookup(defs_bindings(files, target), alias.from@) {
        Some(id) => seq![(alias.to@, id)],
        None => Seq::empty(),
    }
}

/// The bindings the first `k` aliases of an import contribute, in order.
pub open spec fn alias_bindings(
    files: &Vec<SchemaFile>,
    target: int,
    aliases: Seq<crate::compiler::ir::AliasData>,
    k: int,
) -> Seq<(Seq<char>, usize)>
    decreases k,
{
    if k <= 0 {
        Seq::empty()
    } else {
        alias_bindings(files, target, aliases, k - 1) + alias_binding(
            files,
            target,
            &aliases[k - 1],
        )
    }
}

/// The bindings one import contributes: every defined name of the
/// imported file for a star import, the aliased names otherwise; an
/// import whose path names no file contributes nothing.
pub open spec fn one_import_bindings(files: &Vec<SchemaFile>, f: int, im: int) -> Seq<
    (Seq<char>, usize),
> {
    match spec_import_target(files, f, im) {
        None => Seq::empty(),
        Some(target) => {
            if files@[f].imports@[im].star {
                defs_bindings(files, target)
            } else {
                alias_bindings(
                    files,
                    target,
                    files@[f].imports@[im].aliases@,
                    files@[f].imports@[im].aliases@.len() as int,
                )
            }
        },
    }
}

/// The bindings a file's first `im` imports contribute, in order.
pub open spec fn import_bindings(files: &Vec<SchemaFile>, f: int, im: int) -> Seq<
    (Seq<char>, usize),
>
    decreases im,
{
    if im <= 0 {
        Seq::empty()
    } else {
        import_bindings(files, f, im - 1) + one_import_bindings(files, f, im - 1)
    }
}

/// A file's scope: the imports' bindings, then its own definitions, so a
/// definition shadows an imported name of the same spelling.
pub open spec fn spec_scope(files: &Vec<SchemaFile>, f: int) -> Seq<(Seq<char>, usize)> {
    import_bindings(files, f, files@[f].imports@.len() as int) + defs_bindings(files, f)
}

/// Look an imported name up among a file's own definitions.
fn lookup_def(files: &Vec<SchemaFile>, target: usize, name: &str) -> (r: Option<usize>)
    requires
        target < files@.len(),
        total_items(files) <= usize::MAX,
    ensures
        r == semantics::scope_lookup(defs_bindings(files, target as int), name@),
{
    let base = compute_id_base(files, target);
    let n = files[target].items.len();
    let ghost defs = defs_bindings(files, target as int);
    proof {
        lemma_id_base_mono(files, target as int, target as int);
        lemma_id_base_mono(files, target + 1, files@.len() as int);
        assert(files@[target as int].items@.len() == vstd::std_specs::vec::spec_vec_len(
            &files@[target as int].items,
        ));
        assert(defs.take(n as int) =~= defs);
    }
    let mut k: usize = n;
    while k > 0
        invariant
            k <= n,
            target < files@.len(),
            n == files@[target as int].items@.len(),
            base == id_base(files, target as int),
            base + n <= usize::MAX,
            defs == defs_bindings(files, target as int),
            semantics::scope_lookup(defs, name@) == semantics::scope_lookup(
                defs.take(k as int),
                name@,
            ),
        decreases k,
    {
        k = k - 1;
        proof {
            let pre = defs.take(k + 1);
            assert(pre.drop_last() =~= defs.take(k as int));
            assert(pre[pre.len() - 1] == (files@[target as int].items@[k as int].spec_name(), (
            base + k) as usize));
        }
        if files[target].items[k].name().eq(name) {
            return Some(base + k);
        }
    }
    proof {
        assert(defs.take(0) =~= Seq::<(Seq<char>, usize)>::empty());
    }
    None
}

/// Build a file's scope: each import's bindings in order, then the file's
/// own definitions.
pub fn build_scope(files: &Vec<SchemaFile>, f: usize) -> (r: Scope)
    requires
        f < files@.len(),
        total_items(files) <= usize::MAX,
    ensures
        bindings_view(r@) == spec_scope(files, f as int),
{
    let mut scope: Scope = Vec::new();
    let n_imports = files[f].imports.len();
    let mut im: usize = 0;
    proof {
        assert(bindings_view(scope@) =~= import_bindings(files, f as int, 0));
    }
    while im < n_imports
        invariant
            im <= n_imports,
            f < files@.len(),
            total_items(files) <= usize::MAX,
            n_imports == files@[f as int].imports@.len(),
            bindings_view(scope@) == import_bindings(files, f as int, im as int),
        decreases n_imports - im,
    {
        match import_target(files, f, im) {
            Some(target) => {
                if files[f].imports[im].star {
                    let ghost before = bindings_view(scope@);
                    push_defs(files, target, &mut scope);
                    proof {
                        assert(bindings_view(scope@) =~= import_bindings(files, f as int, im + 1));
                    }
                } else {
                    let n_aliases = files[f].imports[im].aliases.len();
                    let mut a: usize = 0;
                    let ghost aliases = files@[f as int].imports@[im as int].aliases@;
                    proof {
                        assert(bindings_view(scope@) + alias_bindings(files, target as int, aliases, 0)
                            =~= bindings_view(scope@));
                    }
                    while a < n_aliases
                        invariant
                            a <= n_aliases,
                            f < files@.len(),
                            target < files@.len(),
                            total_items(files) <= usize::MAX,
                            im < n_imports,
                            n_imports == files@[f as int].imports@.len(),
                            aliases == files@[f as int].imports@[im as int].aliases@,
                            n_aliases == aliases.len(),
                            bindings_view(scope@) == import_bindings(files, f as int, im as int)
                                + alias_bindings(files, target as int, aliases, a as int),
                        decreases n_aliases - a,
                    {
                        let alias = &files[f].imports[im].aliases[a];
                        match lookup_def(files, target, alias.from.as_str()) {
                            Some(id) => {
                                let ghost s0 = scope@;
                                let to = clone_string(&alias.to);
                                let ghost tv = to@;
                                scope.push((to, id));
                                proof {
                                    assert(scope@[scope@.len() - 1].0@ == tv);
                                    assert(bindings_view(scope@) =~= bindings_view(s0).push(
                                        (tv, id),
                                    ));
                                    assert(bindings_view(scope@) =~= import_bindings(
                                        files,
                                        f as int,
                                        im as int,
                                    ) + alias_bindings(files, target as int, aliases, a + 1));
                                }
                            },
                            None => {
                                proof {
                                    assert(alias_bindings(files, target as int, aliases, a + 1)
                                        =~= alias_bindings(files, target as int, aliases, a as int)
                                        + alias_binding(files, target as int, &aliases[a as int]));
                                    assert(bindings_view(scope@) =~= import_bindings(
                                        files,
                                        f as int,
                                        im as int,
                                    ) + alias_bindings(files, target as int, aliases, a + 1));
                                }
                            },
                        }
                        a = a + 1;
                    }
                    proof {
                        assert(bindings_view(scope@) =~= import_bindings(files, f as int, im + 1));
                    }
                }
            },
            None => {
                proof {
                    assert(one_import_bindings(files, f as int, im as int) =~= Seq::<
                        (Seq<char>, usize),
                    >::empty());
                    assert(bindings_view(scope@) =~= import_bindings(files, f as int, im + 1));
                }
            },
        }
        im = im + 1;
    }
    push_defs(files, f, &mut scope);
    proof {
        assert(bindings_view(scope@) =~= spec_scope(files, f as int));
    }
    scope
}

/// Whether `types` is the lowering of the first `j` items of file `f`:
/// each item that resolves in scope, lowered in definition order; an item
/// with an unresolved field type is dropped.
pub open spec fn types_lowered(
    files: &Vec<SchemaFile>,
    f: int,
    scope: Seq<(Seq<char>, usize)>,
    j: int,
    types: Seq<crate::project::UserType>,
) -> bool
    decreases j,
{
    if j <= 0 {
        types.len() == 0
    } else {
        let item = files@[f].items@[j - 1];
        if semantics::item_resolvable(scope, &item) {
            &&& types.len() >= 1
            &&& semantics::item_resolves_to(
                scope,
                (id_base(files, f) + j - 1) as usize,
                &item,
                &types.last(),
            )
            &&& types_lowered(files, f, scope, j - 1, types.drop_last())
        } else {
            types_lowered(files, f, scope, j - 1, types)
        }
    }
}

/// Whether a project is the lowering of the given file order: dense
/// module identifiers, the root module's path empty and every other
/// module's path resolved against the root file's directory, and each
/// module's types lowered from its file under that file's scope.
pub open spec fn project_matches(
    files: &Vec<SchemaFile>,
    root: int,
    order: Seq<usize>,
    p: &Project,
) -> bool {
    let root_path = components_view(files@[root].path@);
    let root_dir = if root_path.len() > 0 {
        root_path.drop_last()
    } else {
        root_path
    };
    &&& p.modules@.len() == order.len()
    &&& forall|m: int|
        0 <= m < order.len() ==> {
            let module = #[trigger] p.modules@[m];
            let f = order[m] as int;
            &&& module.id == ModuleId(m as usize)
            &&& components_view(module.path.0@) == (if m == 0 {
                Seq::<Seq<char>>::empty()
            } else {
                semantics::spec_module_path(root_dir, components_view(files@[f].path@))
            })
            &&& types_lowered(
                files,
                f,
                spec_scope(files, f),
                files@[f].items@.len() as int,
                module.types@,
            )
        }
}

/// Compile a root file and everything it reaches to a project: one module
/// per reachable file, in discovery order with the root first.
pub fn compile(files: &Vec<SchemaFile>, root: usize) -> (r: Project)
    requires
        root < files@.len(),
        total_items(files) <= usize::MAX,
    ensures
        ({
            let order = spec_reachable(files, root);
            &&& order.len() >= 1
            &&& order[0] == root
            &&& order.len() <= files@.len()
            &&& (forall|k: int| 0 <= k < order.len() ==> (#[trigger] order[k]) < files@.len())
            &&& (forall|k1: int, k2: int| 0 <= k1 < k2 < order.len() ==> order[k1] != order[k2])
            &&& (forall|k: int, im: int|
                0 <= k < order.len() && 0 <= im < files@[order[k] as int].imports@.len() && (
                #[trigger] spec_import_target(files, order[k] as int, im)) is Some
                    ==> order.contains(
                    spec_import_target(files, order[k] as int, im)->Some_0 as usize,
                ))
            &&& provenance_ok(files, order)
            &&& project_matches(files, root as int, order, &r)
        }),
{
    broadcast use lemma_bindings_view;

    let order = reachable_files(files, root);
    let root_dir = dir_of(&files[root].path);
    let n_modules = order.len();
    let mut modules: Vec<Module> = Vec::new();
    let mut m: usize = 0;
    while m < n_modules
        invariant
            m <= n_modules,
            root < files@.len(),
            total_items(files) <= usize::MAX,
            n_modules == order@.len(),
            forall|k: int| 0 <= k < order@.len() ==> (#[trigger] order@[k]) < files@.len(),
            order@[0] == root,
            components_view(root_dir@) == (if components_view(files@[root as int].path@).len()
                > 0 {
                components_view(files@[root as int].path@).drop_last()
            } else {
                components_view(files@[root as int].path@)
            }),
            modules@.len() == m,
            forall|x: int|
                0 <= x < m ==> {
                    let module = #[trigger] modules@[x];
                    let f = order@[x] as int;
                    &&& module.id == ModuleId(x as usize)
                    &&& components_view(module.path.0@) == (if x == 0 {
                        Seq::<Seq<char>>::empty()
                    } else {
                        semantics::spec_module_path(
                            components_view(root_dir@),
                            components_view(files@[f].path@),
                        )
                    })
                    &&& types_lowered(
                        files,
                        f,
                        spec_scope(files, f),
                        files@[f].items@.len() as int,
                        module.types@,
                    )
                },
        decreases n_modules - m,
    {
        let f = order[m];
        let scope = build_scope(files, f);
        let base = compute_id_base(files, f);
        let n_items = files[f].items.len();
        proof {
            lemma_id_base_mono(files, f as int, f as int);
            lemma_id_base_mono(files, f + 1, files@.len() as int);
            assert(files@[f as int].items@.len() == vstd::std_specs::vec::spec_vec_len(
                &files@[f as int].items,
            ));
        }
        let mut types: Vec<crate::project::UserType> = Vec::new();
        let mut j: usize = 0;
        while j < n_items
            invariant
                j <= n_items,
                f < files@.len(),
                n_items == files@[f as int].items@.len(),
                base == id_base(files, f as int),
                base + n_items <= usize::MAX,
                bindings_view(scope@) == spec_scope(files, f as int),
                semantics::scope_view(&scope) == bindings_view(scope@),
                types_lowered(files, f as int, spec_scope(files, f as int), j as int, types@),
            decreases n_items - j,
        {
            let ghost t0 = types@;
            match semantics::make_def(&scope, base + j, &files[f].items[j]) {
                Some(t) => {
                    let ghost tv = t;
                    types.push(t);
                    proof {
                        assert(types@.drop_last() =~= t0);
                        assert(types@.last() == tv);
                    }
                },
                None => {},
            }
            j = j + 1;
        }
        let path: Vec<String> = if m == 0 {
            Vec::new()
        } else {
            semantics::resolve_module_path(&root_dir, &files[f].path)
        };
        let ghost ms0 = modules@;
        modules.push(Module { id: ModuleId(m), path: ModulePath(path), types });
        proof {
            if m == 0 {
                assert(components_view(modules@[m as int].path.0@) =~= Seq::<Seq<char>>::empty());
            }
            assert forall|x: int| 0 <= x < m + 1 implies {
                let module = #[trigger] modules@[x];
                let ff = order@[x] as int;
                &&& module.id == ModuleId(x as usize)
                &&& components_view(module.path.0@) == (if x == 0 {
                    Seq::<Seq<char>>::empty()
                } else {
                    semantics::spec_module_path(
                        components_view(root_dir@),
                        components_view(files@[ff].path@),
                    )
                })
                &&& types_lowered(
                    files,
                    ff,
                    spec_scope(files, ff),
                    files@[ff].items@.len() as int,
                    module.types@,
                )
            } by {
                if x < m {
                    assert(modules@[x] == ms0[x]);
                }
            }
        }
        m = m + 1;
    }
    let r = Project { modules };
    proof {
        assert(project_matches(files, root as int, order@, &r));
    }
    r
}

/// A worklist entry's invariant: listed files are distinct and in range.
pub open spec fn worklist_inv(files: &Vec<SchemaFile>, r: Seq<usize>) -> bool {
    &&& (forall|k: int| 0 <= k < r.len() ==> (#[trigger] r[k]) < files@.len())
    &&& (forall|k1: int, k2: int| 0 <= k1 < k2 < r.len() ==> r[k1] != r[k2])
}

/// Absorbing the first `im` imports of file `f` into the worklist: each
/// import whose path names an unlisted file appends it.
pub open spec fn spec_absorb(files: &Vec<SchemaFile>, r: Seq<usize>, f: int, im: int) -> Seq<
    usize,
>
    decreases im,
{
    if im <= 0 {
        r
    } else {
        let r2 = spec_absorb(files, r, f, im - 1);
        match spec_import_target(files, f, im - 1) {
            None => r2,
            Some(t) => {
                if r2.contains(t as usize) {
                    r2
                } else {
                    r2.push(t as usize)
                }
            },
        }
    }
}

/// A found file's index is in range.
pub proof fn lemma_find_file_range(files: Seq<Seq<Seq<char>>>, path: Seq<Seq<char>>)
    requires
        spec_find_file(files, path) is Some,
    ensures
        0 <= spec_find_file(files, path)->Some_0 < files.len(),
    decreases files.len(),
{
    if files.len() > 0 && files[0] != path {
        if spec_find_file(files.drop_first(), path) is Some {
            lemma_find_file_range(files.drop_first(), path);
        }
    }
}

/// Absorbing keeps the worklist invariant.
pub proof fn lemma_absorb_inv(files: &Vec<SchemaFile>, r: Seq<usize>, f: int, im: int)
    requires
        worklist_inv(files, r),
    ensures
        worklist_inv(files, spec_absorb(files, r, f, im)),
        r.len() <= spec_absorb(files, r, f, im).len(),
        spec_absorb(files, r, f, im).take(r.len() as int) == r,
    decreases im,
{
    if im > 0 {
        lemma_absorb_inv(files, r, f, im - 1);
        let r2 = spec_absorb(files, r, f, im - 1);
        match spec_import_target(files, f, im - 1) {
            None => {},
            Some(t) => {
                let base = components_view(files@[f].path@);
                let dir = if base.len() > 0 {
                    base.drop_last()
                } else {
                    base
                };
                lemma_find_file_range(
                    file_paths(files),
                    spec_join_path(dir, components_view(files@[f].imports@[im - 1].path@)),
                );
                if !r2.contains(t as usize) {
                    let r3 = r2.push(t as usize);
                    assert forall|k1: int, k2: int|
                        0 <= k1 < k2 < r3.len() implies #[trigger] r3[k1] != #[trigger] r3[k2] by {
                        if k2 == r2.len() {
                            assert(r3[k1] == r2[k1]);
                        }
                    }
                    assert(r3.take(r.len() as int) =~= r);
                }
            },
        }
        assert(spec_absorb(files, r, f, im).take(r.len() as int) =~= r);
    }
}

/// The worklist run to completion from position `i`: each listed file's
/// imports absorbed in turn, in first-seen order.
pub open spec fn spec_reach(files: &Vec<SchemaFile>, r: Seq<usize>, i: int) -> Seq<usize>
    decreases files@.len() + 1 - i,
    when 0 <= i && worklist_inv(files, r) && i <= files@.len() + 1
{
    if i >= r.len() {
        r
    } else {
        proof {
            lemma_distinct_bound_pub(files, r);
            lemma_absorb_inv(
                files,
                r,
                r[i] as int,
                files@[r[i] as int].imports@.len() as int,
            );
        }
        spec_reach(
            files,
            spec_absorb(files, r, r[i] as int, files@[r[i] as int].imports@.len() as int),
            i + 1,
        )
    }
}

/// A distinct in-range worklist has at most one entry per file.
pub proof fn lemma_distinct_bound_pub(files: &Vec<SchemaFile>, r: Seq<usize>)
    requires
        worklist_inv(files, r),
    ensures
        r.len() <= files@.len(),
{
    if r.len() > files@.len() {
        assert(files@.len() == vstd::std_specs::vec::spec_vec_len(files));
        lemma_distinct_bound(r, files@.len() as int);
    }
}

/// The reachable files of a compile, in first-seen order with the root
/// first.
pub open spec fn spec_reachable(files: &Vec<SchemaFile>, root: usize) -> Seq<usize> {
    spec_reach(files, seq![root], 0)
}

} // verus!
