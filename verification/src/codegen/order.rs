//! The type-dependency order: a depth-first walk over used types with
//! temporary and permanent marks, yielding an order that places each type
//! after every type it structurally embeds. A cycle among user types is a
//! hard error: the wire format does not support self-referential types.

use vstd::prelude::*;

use crate::project::{Project, TypeId, UserTypeId};

verus! {

/// Every user type of the project, flattened in module order.
pub open spec fn flat_types(p: &Project) -> Seq<UserTypeId>
    decreases p.modules@.len(),
{
    flat_types_upto(p, p.modules@.len() as int)
}

/// The user types of the first `m` modules, in order.
pub open spec fn flat_types_upto(p: &Project, m: int) -> Seq<UserTypeId>
    decreases m,
{
    if m <= 0 {
        Seq::empty()
    } else {
        flat_types_upto(p, m - 1) + module_type_ids(p, m - 1)
    }
}

/// The type identifiers one module declares, in order.
pub open spec fn module_type_ids(p: &Project, m: int) -> Seq<UserTypeId> {
    Seq::new(p.modules@[m].types@.len(), |t: int| p.modules@[m].types@[t].spec_id())
}

/// Type `a` structurally uses type `b`: some type with identifier `a`
/// mentions `b` among its fields' types or their generic arguments.
pub open spec fn uses(p: &Project, a: UserTypeId, b: UserTypeId) -> bool {
    exists|m: int, t: int|
        0 <= m < p.modules@.len() && 0 <= t < p.modules@[m].types@.len() && (
        #[trigger] p.modules@[m].types@[t]).spec_id() == a
            && p.modules@[m].types@[t].spec_used_types().contains(TypeId::User(b))
}

/// A use-path: each type uses the next.
pub open spec fn chain_ok(p: &Project, c: Seq<UserTypeId>) -> bool {
    forall|k: int| 0 <= k < c.len() - 1 ==> uses(p, #[trigger] c[k], c[k + 1])
}

/// The project's types contain a use-cycle through `id`.
pub open spec fn cycle_through(p: &Project, id: UserTypeId) -> bool {
    exists|c: Seq<UserTypeId>|
        c.len() >= 2 && c[0] == id && c[c.len() - 1] == id && #[trigger] chain_ok(p, c)
}

/// Every entry's uses precede it in the order.
pub open spec fn each_after_its_uses(p: &Project, ord: Seq<UserTypeId>) -> bool {
    forall|k: int, d: UserTypeId|
        0 <= k < ord.len() && #[trigger] uses(p, ord[k], d) ==> exists|j: int|
            0 <= j < k && ord[j] == d
}

/// The order holds exactly the project's types, each once.
pub open spec fn ord_is_permutation(p: &Project, ord: Seq<UserTypeId>) -> bool {
    &&& ord.no_duplicates()
    &&& forall|k: int| 0 <= k < ord.len() ==> flat_types(p).contains(#[trigger] ord[k])
    &&& forall|k: int| 0 <= k < flat_types(p).len() ==> ord.contains(#[trigger] flat_types(p)[k])
}

/// What the walk needs of a project: distinct type identifiers, and every
/// used user identifier declared somewhere. A project that breaks either
/// is rejected before generation.
pub open spec fn order_input_wf(p: &Project) -> bool {
    &&& flat_types(p).no_duplicates()
    &&& forall|m: int, t: int, d: UserTypeId|
        #![trigger p.modules@[m].types@[t].spec_used_types().contains(TypeId::User(d))]
        0 <= m < p.modules@.len() && 0 <= t < p.modules@[m].types@.len()
            && p.modules@[m].types@[t].spec_used_types().contains(TypeId::User(d))
            ==> flat_types(p).contains(d)
}

/// How many types are still unvisited.
pub open spec fn count_zeros(s: Seq<u8>) -> nat
    decreases s.len(),
{
    if s.len() == 0 {
        0
    } else {
        count_zeros(s.drop_last()) + (if s.last() == 0 {
            1nat
        } else {
            0nat
        })
    }
}

proof fn lemma_count_zeros_update(s: Seq<u8>, x: int, v: u8)
    requires
        0 <= x < s.len(),
        v != 0,
    ensures
        count_zeros(s.update(x, v)) == count_zeros(s) - (if s[x] == 0 {
            1int
        } else {
            0int
        }),
    decreases s.len(),
{
    let u = s.update(x, v);
    if x == s.len() - 1 {
        assert(u.drop_last() =~= s.drop_last());
    } else {
        assert(u.drop_last() =~= s.drop_last().update(x, v));
        lemma_count_zeros_update(s.drop_last(), x, v);
    }
}

proof fn lemma_count_zeros_bound(s: Seq<u8>)
    ensures
        count_zeros(s) <= s.len(),
    decreases s.len(),
{
    if s.len() > 0 {
        lemma_count_zeros_bound(s.drop_last());
    }
}

/// The mark/output agreement the walk maintains: a type is permanently
/// marked exactly when it is listed, the listing is duplicate-free, and
/// every listed type's uses precede it.
pub open spec fn dfs_ok(p: &Project, ids: Seq<UserTypeId>, marks: Seq<u8>, out: Seq<
    UserTypeId,
>) -> bool {
    &&& marks.len() == ids.len()
    &&& out.no_duplicates()
    &&& forall|k: int| 0 <= k < out.len() ==> ids.contains(#[trigger] out[k])
    &&& forall|x: int| 0 <= x < ids.len() ==> ((#[trigger] marks[x]) == 2 <==> out.contains(ids[x]))
    &&& forall|x: int| 0 <= x < ids.len() ==> (#[trigger] marks[x]) <= 2
    &&& each_after_its_uses(p, out)
}

/// The walk's stack: the temporarily marked types, each using the next.
pub open spec fn stack_ok(p: &Project, ids: Seq<UserTypeId>, marks: Seq<u8>, st: Seq<
    UserTypeId,
>) -> bool {
    &&& forall|x: int| 0 <= x < ids.len() ==> ((#[trigger] marks[x]) == 1 <==> st.contains(ids[x]))
    &&& forall|k: int| 0 <= k < st.len() ==> ids.contains(#[trigger] st[k])
    &&& chain_ok(p, st)
}

/// Find a type's position in the project.
pub fn find_type_pos(p: &Project, id: UserTypeId) -> (r: Option<(usize, usize)>)
    ensures
        match r {
            Some((m, t)) => m < p.modules@.len() && t < p.modules@[m as int].types@.len()
                && p.modules@[m as int].types@[t as int].spec_id() == id,
            None => !flat_types(p).contains(id),
        },
{
    let nm = p.modules.len();
    let mut m: usize = 0;
    proof {
        assert(flat_types_upto(p, 0) =~= Seq::<UserTypeId>::empty());
    }
    while m < nm
        invariant
            m <= nm,
            nm == p.modules@.len(),
            !flat_types_upto(p, m as int).contains(id),
        decreases nm - m,
    {
        let nt = p.modules[m].types.len();
        let mut t: usize = 0;
        while t < nt
            invariant
                m < nm,
                t <= nt,
                nm == p.modules@.len(),
                nt == p.modules@[m as int].types@.len(),
                forall|x: int|
                    0 <= x < t ==> (#[trigger] p.modules@[m as int].types@[x]).spec_id() != id,
            decreases nt - t,
        {
            if p.modules[m].types[t].id() == id {
                return Some((m, t));
            }
            t = t + 1;
        }
        proof {
            assert(flat_types_upto(p, m + 1) =~= flat_types_upto(p, m as int) + module_type_ids(
                p,
                m as int,
            ));
            assert forall|k: int|
                0 <= k < flat_types_upto(p, m + 1).len() implies #[trigger] flat_types_upto(
                p,
                m + 1,
            )[k] != id by {
                if k >= flat_types_upto(p, m as int).len() {
                    let x = k - flat_types_upto(p, m as int).len();
                    assert(flat_types_upto(p, m + 1)[k] == module_type_ids(p, m as int)[x]);
                    assert(p.modules@[m as int].types@[x].spec_id() != id);
                }
            }
            assert(!flat_types_upto(p, m + 1).contains(id));
        }
        m = m + 1;
    }
    proof {
        assert(flat_types_upto(p, nm as int) == flat_types(p));
    }
    None
}

/// Find an identifier's position in the flattened list.
fn find_index(ids: &Vec<UserTypeId>, id: UserTypeId) -> (r: Option<usize>)
    ensures
        match r {
            Some(x) => x < ids@.len() && ids@[x as int] == id,
            None => !ids@.contains(id),
        },
{
    let n = ids.len();
    let mut x: usize = 0;
    while x < n
        invariant
            x <= n,
            n == ids@.len(),
            forall|k: int| 0 <= k < x ==> ids@[k] != id,
        decreases n - x,
    {
        if ids[x] == id {
            return Some(x);
        }
        x = x + 1;
    }
    None
}

/// Collect the project's type identifiers, flattened in module order.
fn collect_type_ids(p: &Project) -> (r: Vec<UserTypeId>)
    ensures
        r@ == flat_types(p),
{
    let nm = p.modules.len();
    let mut r: Vec<UserTypeId> = Vec::new();
    let mut m: usize = 0;
    proof {
        assert(r@ =~= flat_types_upto(p, 0));
    }
    while m < nm
        invariant
            m <= nm,
            nm == p.modules@.len(),
            r@ == flat_types_upto(p, m as int),
        decreases nm - m,
    {
        let nt = p.modules[m].types.len();
        let mut t: usize = 0;
        while t < nt
            invariant
                m < nm,
                t <= nt,
                nm == p.modules@.len(),
                nt == p.modules@[m as int].types@.len(),
                r@ == flat_types_upto(p, m as int) + module_type_ids(p, m as int).take(t as int),
            decreases nt - t,
        {
            r.push(p.modules[m].types[t].id());
            proof {
                assert(r@ =~= flat_types_upto(p, m as int) + module_type_ids(p, m as int).take(
                    t + 1,
                ));
            }
            t = t + 1;
        }
        proof {
            assert(module_type_ids(p, m as int).take(nt as int) =~= module_type_ids(p, m as int));
            assert(r@ =~= flat_types_upto(p, m + 1));
        }
        m = m + 1;
    }
    proof {
        assert(flat_types_upto(p, nm as int) == flat_types(p));
    }
    r
}

/// With distinct identifiers, whatever `a`'s type uses is exactly what
/// any type with identifier `a` uses.
proof fn lemma_uses_unique(p: &Project, m: int, t: int, d: UserTypeId)
    requires
        order_input_wf(p),
        0 <= m < p.modules@.len(),
        0 <= t < p.modules@[m].types@.len(),
        uses(p, p.modules@[m].types@[t].spec_id(), d),
    ensures
        p.modules@[m].types@[t].spec_used_types().contains(TypeId::User(d)),
{
    let a = p.modules@[m].types@[t].spec_id();
    let (m2, t2) = choose|m2: int, t2: int|
        0 <= m2 < p.modules@.len() && 0 <= t2 < p.modules@[m2].types@.len() && (
        #[trigger] p.modules@[m2].types@[t2]).spec_id() == a
            && p.modules@[m2].types@[t2].spec_used_types().contains(TypeId::User(d));
    if m2 != m || t2 != t {
        lemma_flat_positions(p, m, t);
        lemma_flat_positions(p, m2, t2);
        let k1 = flat_pos(p, m, t);
        let k2 = flat_pos(p, m2, t2);
        assert(k1 != k2);
        assert(flat_types(p)[k1] == flat_types(p)[k2]);
        assert(false);
    }
}

/// The flattened position of one type.
pub open spec fn flat_pos(p: &Project, m: int, t: int) -> int {
    flat_types_upto(p, m).len() + t
}

proof fn lemma_flat_upto_mono(p: &Project, a: int, b: int)
    requires
        0 <= a <= b <= p.modules@.len(),
    ensures
        flat_types_upto(p, a).len() <= flat_types_upto(p, b).len(),
        flat_types_upto(p, a) == flat_types_upto(p, b).take(flat_types_upto(p, a).len() as int),
    decreases b - a,
{
    if a < b {
        lemma_flat_upto_mono(p, a, b - 1);
        assert(flat_types_upto(p, b) == flat_types_upto(p, b - 1) + module_type_ids(p, b - 1));
        assert(flat_types_upto(p, a) =~= flat_types_upto(p, b).take(
            flat_types_upto(p, a).len() as int,
        ));
    } else {
        assert(flat_types_upto(p, a) =~= flat_types_upto(p, b).take(
            flat_types_upto(p, a).len() as int,
        ));
    }
}

/// Each type sits at its flattened position.
pub proof fn lemma_flat_positions(p: &Project, m: int, t: int)
    requires
        0 <= m < p.modules@.len(),
        0 <= t < p.modules@[m].types@.len(),
    ensures
        0 <= flat_pos(p, m, t) < flat_types(p).len(),
        flat_types(p)[flat_pos(p, m, t)] == p.modules@[m].types@[t].spec_id(),
        forall|m2: int, t2: int|
            0 <= m2 < p.modules@.len() && 0 <= t2 < p.modules@[m2].types@.len() && (m2 != m || t2
                != t) ==> flat_pos(p, m2, t2) != flat_pos(p, m, t),
{
    lemma_flat_upto_mono(p, m + 1, p.modules@.len() as int);
    assert(flat_types_upto(p, m + 1) == flat_types_upto(p, m) + module_type_ids(p, m));
    assert(flat_types(p)[flat_pos(p, m, t)] == flat_types_upto(p, m + 1)[flat_pos(p, m, t)]);
    assert forall|m2: int, t2: int|
        0 <= m2 < p.modules@.len() && 0 <= t2 < p.modules@[m2].types@.len() && (m2 != m || t2
            != t) implies flat_pos(p, m2, t2) != flat_pos(p, m, t) by {
        if m2 == m {
        } else if m2 < m {
            lemma_flat_upto_mono(p, m2 + 1, m);
            assert(flat_types_upto(p, m2 + 1) == flat_types_upto(p, m2) + module_type_ids(p, m2));
        } else {
            lemma_flat_upto_mono(p, m + 1, m2);
            assert(flat_types_upto(p, m2 + 1) == flat_types_upto(p, m2) + module_type_ids(p, m2));
        }
    }
}

/// Visit one type: skip it when done, report a cycle when it is already
/// underway, otherwise mark it underway, visit everything it uses, then
/// list it as done.
#[verifier::rlimit(100)]
fn visit(
    p: &Project,
    ids: &Vec<UserTypeId>,
    x: usize,
    marks: &mut Vec<u8>,
    out: &mut Vec<UserTypeId>,
    fuel: usize,
    Ghost(stack): Ghost<Seq<UserTypeId>>,
) -> (r: Result<(), UserTypeId>)
    requires
        order_input_wf(p),
        ids@ == flat_types(p),
        x < ids@.len(),
        dfs_ok(p, ids@, old(marks)@, old(out)@),
        stack_ok(p, ids@, old(marks)@, stack),
        stack.len() > 0 ==> uses(p, stack[stack.len() - 1], ids@[x as int]),
        fuel >= count_zeros(old(marks)@),
    ensures
        match r {
            Ok(()) => {
                &&& dfs_ok(p, ids@, final(marks)@, final(out)@)
                &&& stack_ok(p, ids@, final(marks)@, stack)
                &&& final(marks)@.len() == old(marks)@.len()
                &&& final(marks)@[x as int] == 2
                &&& (forall|y: int|
                    0 <= y < ids@.len() && old(marks)@[y] == 2 ==> final(marks)@[y] == 2)
                &&& (forall|y: int|
                    0 <= y < ids@.len() ==> ((#[trigger] final(marks)@[y]) == 1 <==> old(
                        marks,
                    )@[y] == 1))
                &&& final(out)@.take(old(out)@.len() as int) == old(out)@
                &&& final(out)@.len() >= old(out)@.len()
                &&& count_zeros(final(marks)@) <= count_zeros(old(marks)@)
            },
            Err(id) => cycle_through(p, id),
        },
    decreases fuel,
{
    let ghost ids_v = ids@;
    if marks[x] == 2 {
        proof {
            assert(final(out)@.take(old(out)@.len() as int) =~= old(out)@);
        }
        return Ok(());
    }
    if marks[x] == 1 {
        let id = ids[x];
        proof {
            // the stack runs from the earlier visit of this type down to
            // the type that now uses it again: a cycle
            assert(stack.contains(ids_v[x as int]));
            let k = choose|k: int| 0 <= k < stack.len() && stack[k] == ids_v[x as int];
            let c = stack.subrange(k, stack.len() as int).push(ids_v[x as int]);
            assert(c[0] == ids_v[x as int]);
            assert(c[c.len() - 1] == ids_v[x as int]);
            assert(chain_ok(p, c)) by {
                assert forall|y: int| 0 <= y < c.len() - 1 implies uses(
                    p,
                    #[trigger] c[y],
                    c[y + 1],
                ) by {
                    if y < c.len() - 2 {
                        assert(c[y] == stack[k + y] && c[y + 1] == stack[k + y + 1]);
                    } else {
                        assert(c[y] == stack[stack.len() - 1]);
                    }
                }
            }
            assert(cycle_through(p, ids_v[x as int]));
        }
        return Err(id);
    }
    let ghost marks0 = marks@;
    marks.set(x, 1);
    proof {
        lemma_count_zeros_update(marks0, x as int, 1);
    }
    let ghost stack2 = stack.push(ids_v[x as int]);
    proof {
        assert forall|y: int|
            0 <= y < ids_v.len() implies ((#[trigger] marks@[y]) == 1 <==> stack2.contains(
            ids_v[y],
        )) by {
            if y == x {
                assert(stack2[stack2.len() - 1] == ids_v[x as int]);
            } else {
                if stack2.contains(ids_v[y]) {
                    let k = choose|k: int| 0 <= k < stack2.len() && stack2[k] == ids_v[y];
                    if k < stack.len() {
                        assert(stack.contains(ids_v[y]));
                    } else {
                        lemma_no_dup_index(ids_v, y, x as int);
                    }
                }
                if stack.contains(ids_v[y]) {
                    let k = choose|k: int| 0 <= k < stack.len() && stack[k] == ids_v[y];
                    assert(stack2[k] == ids_v[y]);
                }
            }
        }
        assert(chain_ok(p, stack2)) by {
            assert forall|y: int| 0 <= y < stack2.len() - 1 implies uses(
                p,
                #[trigger] stack2[y],
                stack2[y + 1],
            ) by {
                if y < stack.len() - 1 {
                    assert(stack2[y] == stack[y] && stack2[y + 1] == stack[y + 1]);
                }
            }
        }
    }
    let (m, ti) = match find_type_pos(p, ids[x]) {
        Some(pos) => pos,
        None => {
            proof {
                lemma_contains_index(ids_v, x as int);
                assert(false);
            }
            return Err(ids[x]);
        },
    };
    let used = p.modules[m].types[ti].used_types();
    let nu = used.len();
    let mut u: usize = 0;
    let ghost out_at_entry = out@;
    while u < nu
        invariant
            order_input_wf(p),
            ids@ == flat_types(p),
            ids@ == ids_v,
            x < ids@.len(),
            m < p.modules@.len(),
            ti < p.modules@[m as int].types@.len(),
            p.modules@[m as int].types@[ti as int].spec_id() == ids_v[x as int],
            used@ == p.modules@[m as int].types@[ti as int].spec_used_types(),
            u <= nu,
            nu == used@.len(),
            dfs_ok(p, ids@, marks@, out@),
            stack_ok(p, ids@, marks@, stack2),
            stack2 == stack.push(ids_v[x as int]),
            marks@.len() == ids@.len(),
            marks@[x as int] == 1,
            forall|y: int| 0 <= y < ids@.len() && marks0[y] == 2 ==> marks@[y] == 2,
            forall|y: int|
                0 <= y < ids@.len() ==> ((#[trigger] marks@[y]) == 1 <==> (marks0[y] == 1 || y
                    == x)),
            out@.take(out_at_entry.len() as int) == out_at_entry,
            out@.len() >= out_at_entry.len(),
            out_at_entry == old(out)@,
            count_zeros(marks@) <= count_zeros(marks0) - 1,
            fuel >= 1 + count_zeros(marks@),
            forall|k: int|
                0 <= k < u ==> ((#[trigger] used@[k]) matches TypeId::User(d) ==> out@.contains(
                    d,
                )),
        decreases nu - u,
    {
        let ghost marks_loop = marks@;
        let ghost out_loop = out@;
        match used[u] {
            TypeId::User(d) => {
                proof {
                    assert(used@.contains(TypeId::User(d)));
                    assert(flat_types(p).contains(d));
                    assert(uses(p, ids_v[x as int], d));
                }
                let dx = match find_index(ids, d) {
                    Some(dx) => dx,
                    None => {
                        proof {
                            assert(false);
                        }
                        return Err(d);
                    },
                };
                match visit(p, ids, dx, marks, out, fuel - 1, Ghost(stack2)) {
                    Ok(()) => {
                        proof {
                            assert(marks@[dx as int] == 2);
                            assert(out@.contains(ids_v[dx as int]));
                            assert forall|k: int|
                                0 <= k < u + 1 implies ((#[trigger] used@[k]) matches TypeId::User(
                                dd,
                            ) ==> out@.contains(dd)) by {
                                if k < u {
                                    match used@[k] {
                                        TypeId::User(dd) => {
                                            assert(out_loop.contains(dd));
                                            lemma_contains_take(out_loop, out@, dd);
                                        },
                                        TypeId::Builtin(_) => {},
                                    }
                                }
                            }
                            assert(out@.take(out_at_entry.len() as int) =~= out_at_entry) by {
                                assert(out@.take(out_loop.len() as int) == out_loop);
                                assert(out_at_entry.len() <= out_loop.len());
                                assert forall|z: int|
                                    0 <= z < out_at_entry.len() implies out@.take(
                                    out_at_entry.len() as int,
                                )[z] == out_at_entry[z] by {
                                    assert(out@[z] == out@.take(out_loop.len() as int)[z]);
                                    assert(out_loop[z] == out_loop.take(
                                        out_at_entry.len() as int,
                                    )[z]);
                                }
                            }
                        }
                    },
                    Err(e) => {
                        return Err(e);
                    },
                }
            },
            TypeId::Builtin(_) => {
                proof {
                    assert forall|k: int|
                        0 <= k < u + 1 implies ((#[trigger] used@[k]) matches TypeId::User(dd)
                        ==> out@.contains(dd)) by {}
                }
            },
        }
        u = u + 1;
    }
    let ghost marks_before_perm = marks@;
    marks.set(x, 2);
    proof {
        lemma_count_zeros_update(marks_before_perm, x as int, 2);
    }
    let ghost out_before = out@;
    out.push(ids[x]);
    proof {
        assert(out@[out@.len() - 1] == ids_v[x as int]);
        // the new entry is fresh: it was not permanently marked
        assert(!out_before.contains(ids_v[x as int]));
        assert forall|k1: int, k2: int| 0 <= k1 < k2 < out@.len() implies out@[k1] != out@[k2] by {
            if k2 < out@.len() - 1 {
                assert(out@[k1] == out_before[k1] && out@[k2] == out_before[k2]);
            } else {
                assert(out@[k1] == out_before[k1]);
            }
        }
        // permanent marks agree with the listing again
        assert forall|y: int|
            0 <= y < ids_v.len() implies ((#[trigger] marks@[y]) == 2 <==> out@.contains(
            ids_v[y],
        )) by {
            if y == x {
            } else {
                if out@.contains(ids_v[y]) {
                    let k = choose|k: int| 0 <= k < out@.len() && out@[k] == ids_v[y];
                    if k == out@.len() - 1 {
                        lemma_no_dup_index(ids_v, y, x as int);
                    } else {
                        assert(out_before.contains(ids_v[y]));
                    }
                }
                if marks@[y] == 2 {
                    assert(marks_before_perm[y] == 2);
                    assert(out_before.contains(ids_v[y]));
                    let k = choose|k: int| 0 <= k < out_before.len() && out_before[k] == ids_v[y];
                    assert(out@[k] == ids_v[y]);
                }
            }
        }
        // the freshly listed type comes after everything it uses
        assert(each_after_its_uses(p, out@)) by {
            assert forall|k: int, d: UserTypeId|
                0 <= k < out@.len() && #[trigger] uses(p, out@[k], d) implies exists|j: int|
                0 <= j < k && out@[j] == d by {
                if k < out@.len() - 1 {
                    assert(out@[k] == out_before[k]);
                    let j = choose|j: int| 0 <= j < k && out_before[j] == d;
                    assert(out@[j] == d);
                } else {
                    lemma_uses_unique(p, m as int, ti as int, d);
                    let k2 = choose|k2: int|
                        0 <= k2 < used@.len() && used@[k2] == TypeId::User(d);
                    assert(out_before.contains(d));
                    let j = choose|j: int| 0 <= j < out_before.len() && out_before[j] == d;
                    assert(out@[j] == d);
                }
            }
        }
        // the temporary mark is gone again
        assert forall|y: int|
            0 <= y < ids_v.len() implies ((#[trigger] marks@[y]) == 1 <==> stack.contains(
            ids_v[y],
        )) by {
            if y != x && stack.contains(ids_v[y]) {
                assert(stack2.contains(ids_v[y])) by {
                    let k = choose|k: int| 0 <= k < stack.len() && stack[k] == ids_v[y];
                    assert(stack2[k] == ids_v[y]);
                }
            }
            if y == x && stack.contains(ids_v[x as int]) {
                assert(marks0[x as int] == 1);
                assert(false);
            }
        }
        assert(out@.take(out_at_entry.len() as int) =~= out_at_entry) by {
            assert(out@.take(out_before.len() as int) =~= out_before);
            assert forall|z: int|
                0 <= z < out_at_entry.len() implies out@.take(out_at_entry.len() as int)[z]
                == out_at_entry[z] by {
                assert(out@[z] == out_before[z]);
                assert(out_before[z] == out_before.take(out_at_entry.len() as int)[z]);
            }
        }
    }
    Ok(())
}

/// A duplicate-free listing separates distinct positions.
proof fn lemma_no_dup_index(ids: Seq<UserTypeId>, a: int, b: int)
    requires
        ids.no_duplicates(),
        0 <= a < ids.len(),
        0 <= b < ids.len(),
        a != b,
    ensures
        ids[a] != ids[b],
{
}

/// Whatever a prefix contains, the whole contains.
proof fn lemma_contains_take(prefix: Seq<UserTypeId>, whole: Seq<UserTypeId>, d: UserTypeId)
    requires
        whole.take(prefix.len() as int) == prefix,
        prefix.len() <= whole.len(),
        prefix.contains(d),
    ensures
        whole.contains(d),
{
    let k = choose|k: int| 0 <= k < prefix.len() && prefix[k] == d;
    assert(whole[k] == prefix[k]);
}

/// A listed identifier is contained.
proof fn lemma_contains_index(ids: Seq<UserTypeId>, x: int)
    requires
        0 <= x < ids.len(),
    ensures
        ids.contains(ids[x]),
{
}

/// Order the project's types so that each comes after every type it
/// structurally embeds, or report one type a use-cycle runs through.
pub fn type_dependency_order(p: &Project) -> (r: Result<Vec<UserTypeId>, UserTypeId>)
    requires
        order_input_wf(p),
    ensures
        match r {
            Ok(ord) => ord_is_permutation(p, ord@) && each_after_its_uses(p, ord@),
            Err(id) => cycle_through(p, id),
        },
{
    let ids = collect_type_ids(p);
    let n = ids.len();
    let mut marks: Vec<u8> = Vec::new();
    let mut k: usize = 0;
    while k < n
        invariant
            k <= n,
            marks@.len() == k,
            forall|y: int| 0 <= y < k ==> marks@[y] == 0,
        decreases n - k,
    {
        marks.push(0);
        k = k + 1;
    }
    let mut out: Vec<UserTypeId> = Vec::new();
    let mut x: usize = 0;
    proof {
        lemma_count_zeros_bound(marks@);
        assert(out@.no_duplicates());
        assert(each_after_its_uses(p, out@)) by {
            assert forall|k2: int, d: UserTypeId|
                0 <= k2 < out@.len() && #[trigger] uses(p, out@[k2], d) implies exists|j: int|
                0 <= j < k2 && out@[j] == d by {}
        }
    }
    while x < n
        invariant
            x <= n,
            n == ids@.len(),
            ids@ == flat_types(p),
            order_input_wf(p),
            marks@.len() == n,
            dfs_ok(p, ids@, marks@, out@),
            stack_ok(p, ids@, marks@, Seq::empty()),
            forall|y: int| 0 <= y < x ==> (#[trigger] marks@[y]) == 2,
        decreases n - x,
    {
        proof {
            lemma_count_zeros_bound(marks@);
        }
        match visit(p, &ids, x, &mut marks, &mut out, n, Ghost(Seq::empty())) {
            Ok(()) => {},
            Err(id) => {
                return Err(id);
            },
        }
        x = x + 1;
    }
    proof {
        assert forall|k2: int|
            0 <= k2 < flat_types(p).len() implies out@.contains(
            #[trigger] flat_types(p)[k2],
        ) by {
            assert(marks@[k2] == 2);
        }
    }
    Ok(out)
}

/// The unique position of a listed identifier.
pub open spec fn pos_of(ord: Seq<UserTypeId>, v: UserTypeId) -> int {
    choose|j: int| 0 <= j < ord.len() && ord[j] == v
}

proof fn lemma_pos_of(ord: Seq<UserTypeId>, v: UserTypeId)
    requires
        ord.no_duplicates(),
        ord.contains(v),
    ensures
        0 <= pos_of(ord, v) < ord.len(),
        ord[pos_of(ord, v)] == v,
        forall|j: int| 0 <= j < ord.len() && ord[j] == v ==> j == pos_of(ord, v),
{
    let w = choose|j: int| 0 <= j < ord.len() && ord[j] == v;
    assert(0 <= w < ord.len() && ord[w] == v);
}

/// In an order that places each type after its uses, a use steps strictly
/// backwards.
proof fn lemma_use_descends(p: &Project, ord: Seq<UserTypeId>, a: UserTypeId, b: UserTypeId)
    requires
        ord.no_duplicates(),
        each_after_its_uses(p, ord),
        ord.contains(a),
        ord.contains(b),
        uses(p, a, b),
    ensures
        pos_of(ord, b) < pos_of(ord, a),
{
    lemma_pos_of(ord, a);
    lemma_pos_of(ord, b);
    let pa = pos_of(ord, a);
    assert(uses(p, ord[pa], b));
    let j = choose|j: int| 0 <= j < pa && ord[j] == b;
    assert(j == pos_of(ord, b));
}

/// Walking a use-chain inside such an order descends by at least one
/// position per step.
proof fn lemma_chain_descends(p: &Project, ord: Seq<UserTypeId>, c: Seq<UserTypeId>, k: int)
    requires
        order_input_wf(p),
        ord.no_duplicates(),
        each_after_its_uses(p, ord),
        forall|j: int| 0 <= j < ord.len() ==> flat_types(p).contains(#[trigger] ord[j]),
        forall|j: int| 0 <= j < flat_types(p).len() ==> ord.contains(#[trigger] flat_types(p)[j]),
        chain_ok(p, c),
        0 <= k < c.len(),
        forall|j: int| 0 <= j < c.len() ==> ord.contains(#[trigger] c[j]),
    ensures
        pos_of(ord, c[k]) >= pos_of(ord, c[c.len() - 1]) + (c.len() - 1 - k),
    decreases c.len() - k,
{
    if k < c.len() - 1 {
        assert(uses(p, c[k], c[k + 1]));
        lemma_use_descends(p, ord, c[k], c[k + 1]);
        lemma_chain_descends(p, ord, c, k + 1);
    }
}

/// An order that places each type after its uses rules out use-cycles.
pub proof fn lemma_order_excludes_cycle(p: &Project, ord: Seq<UserTypeId>, id: UserTypeId)
    requires
        order_input_wf(p),
        ord_is_permutation(p, ord),
        each_after_its_uses(p, ord),
    ensures
        !cycle_through(p, id),
{
    if !cycle_through(p, id) {
        return ;
    }
    let c = choose|c: Seq<UserTypeId>|
        c.len() >= 2 && c[0] == id && c[c.len() - 1] == id && #[trigger] chain_ok(p, c);
    assert forall|j: int| 0 <= j < c.len() implies ord.contains(#[trigger] c[j]) by {
        if j < c.len() - 1 {
            // each chain element but the last is some type's identifier
            assert(uses(p, c[j], c[j + 1]));
            let (m, t) = choose|m: int, t: int|
                0 <= m < p.modules@.len() && 0 <= t < p.modules@[m].types@.len() && (
                #[trigger] p.modules@[m].types@[t]).spec_id() == c[j]
                    && p.modules@[m].types@[t].spec_used_types().contains(TypeId::User(c[j + 1]));
            crate::codegen::order::lemma_flat_positions(p, m, t);
            assert(flat_types(p)[flat_pos(p, m, t)] == c[j]);
            assert(flat_types(p).contains(c[j]));
        } else {
            assert(c[j] == c[0]);
            assert(uses(p, c[0], c[1]));
            let (m, t) = choose|m: int, t: int|
                0 <= m < p.modules@.len() && 0 <= t < p.modules@[m].types@.len() && (
                #[trigger] p.modules@[m].types@[t]).spec_id() == c[0]
                    && p.modules@[m].types@[t].spec_used_types().contains(TypeId::User(c[1]));
            crate::codegen::order::lemma_flat_positions(p, m, t);
            assert(flat_types(p)[flat_pos(p, m, t)] == c[0]);
            assert(flat_types(p).contains(c[0]));
        }
    }
    lemma_chain_descends(p, ord, c, 0);
    lemma_pos_of(ord, c[0]);
    assert(pos_of(ord, c[0]) >= pos_of(ord, c[c.len() - 1]) + 1);
    assert(c[c.len() - 1] == c[0]);
    assert(false);
}

} // verus!
