//! Dependencies between modules in the routing graph, and the check that a
//! new link would not close a cycle.
use vstd::prelude::*;

use crate::routing::{InputId, MixedSource, ModuleId, mixed_sources_ids};

verus! {

/// One entry of the routing map: an input and the sources feeding it.
#[derive(Debug, Clone)]
pub struct RoutingEntry {
    pub input: InputId,
    pub sources: Vec<MixedSource>,
}

/// Module ids that feed entry `e` (sources and their modulators).
pub open spec fn entry_sources(e: RoutingEntry) -> Seq<ModuleId> {
    mixed_sources_ids(e.sources@)
}

/// Module `a` reads from module `b`: `b` feeds (or modulates) some input of `a`.
pub open spec fn reads_from(routing: Seq<RoutingEntry>, a: ModuleId, b: ModuleId) -> bool {
    exists|i: int|
        0 <= i < routing.len() && routing[i].input.module_id == a && #[trigger] entry_sources(
            routing[i],
        ).contains(b)
}

/// `p` is a chain of at least one `reads_from` step.
pub open spec fn is_dependency_path(routing: Seq<RoutingEntry>, p: Seq<ModuleId>) -> bool {
    &&& p.len() >= 2
    &&& forall|k: int| 0 <= k < p.len() - 1 ==> #[trigger] reads_from(routing, p[k], p[k + 1])
}

/// Module `a` depends on module `b`, directly or through other modules.
pub open spec fn depends_on(routing: Seq<RoutingEntry>, a: ModuleId, b: ModuleId) -> bool {
    exists|p: Seq<ModuleId>|
        #[trigger] is_dependency_path(routing, p) && p[0] == a && p.last() == b
}

pub open spec fn count_true(s: Seq<bool>) -> nat
    decreases s.len(),
{
    if s.len() == 0 {
        0
    } else {
        count_true(s.drop_last()) + if s.last() {
            1nat
        } else {
            0nat
        }
    }
}

proof fn lemma_count_true_bound(s: Seq<bool>)
    ensures
        count_true(s) <= s.len(),
    decreases s.len(),
{
    if s.len() > 0 {
        lemma_count_true_bound(s.drop_last());
    }
}

proof fn lemma_count_true_set(s: Seq<bool>, i: int)
    requires
        0 <= i < s.len(),
        !s[i],
    ensures
        count_true(s.update(i, true)) == count_true(s) + 1,
    decreases s.len(),
{
    if i == s.len() - 1 {
        assert(s.update(i, true).drop_last() =~= s.drop_last());
    } else {
        assert(s.update(i, true).drop_last() =~= s.drop_last().update(i, true));
        lemma_count_true_set(s.drop_last(), i);
    }
}

proof fn lemma_path_step(routing: Seq<RoutingEntry>, a: ModuleId, x: ModuleId, b: ModuleId)
    requires
        x == a || depends_on(routing, a, x),
        reads_from(routing, x, b),
    ensures
        depends_on(routing, a, b),
{
    if x == a {
        let p = seq![a, b];
        assert(reads_from(routing, p[0], p[1]));
        assert(is_dependency_path(routing, p));
    } else {
        let p = choose|p: Seq<ModuleId>|
            #[trigger] is_dependency_path(routing, p) && p[0] == a && p.last() == x;
        let q = p.push(b);
        assert forall|k: int| 0 <= k < q.len() - 1 implies #[trigger] reads_from(routing, q[k], q[k + 1]) by {
            if k < p.len() - 1 {
                assert(q[k] == p[k] && q[k + 1] == p[k + 1]);
                assert(reads_from(routing, p[k], p[k + 1]));
            } else {
                assert(q[k] == x && q[k + 1] == b);
            }
        }
        assert(is_dependency_path(routing, q));
    }
}

/// If every module in `closed` (and `a`) only reads from modules in `closed`,
/// everything `a` depends on is in `closed`.
proof fn lemma_closed_set(routing: Seq<RoutingEntry>, a: ModuleId, closed: Seq<ModuleId>, p: Seq<ModuleId>)
    requires
        forall|x: ModuleId, b: ModuleId|
            (x == a || closed.contains(x)) && #[trigger] reads_from(routing, x, b) ==> closed.contains(b),
        is_dependency_path(routing, p),
        p[0] == a,
    ensures
        closed.contains(p.last()),
    decreases p.len(),
{
    if p.len() == 2 {
        let k = 0int;
        assert(reads_from(routing, p[k], p[k + 1]));
        assert(p[k + 1] == p.last());
    } else {
        let q = p.drop_last();
        assert forall|k: int| 0 <= k < q.len() - 1 implies #[trigger] reads_from(routing, q[k], q[k + 1]) by {
            assert(reads_from(routing, p[k], p[k + 1]));
        }
        lemma_closed_set(routing, a, closed, q);
        let k: int = p.len() - 2;
        assert(reads_from(routing, p[k], p[k + 1]));
        assert(q.last() == p[k]);
        assert(p[k + 1] == p.last());
    }
}

/// Marks every unexpanded entry of module `x` as expanded and appends its sources to `work`.
fn expand(
    routing: &Vec<RoutingEntry>,
    x: ModuleId,
    expanded: &mut Vec<bool>,
    work: &mut Vec<ModuleId>,
) -> (n: usize)
    requires
        old(expanded)@.len() == routing@.len(),
    ensures
        final(expanded)@.len() == routing@.len(),
        forall|i: int| 0 <= i < routing@.len() ==> #[trigger] final(expanded)@[i] == (old(expanded)@[i] || routing@[i].input.module_id == x),
        count_true(final(expanded)@) == count_true(old(expanded)@) + n,
        final(work)@.len() >= old(work)@.len(),
        final(work)@.subrange(0, old(work)@.len() as int) == old(work)@,
        n == 0 ==> final(work)@ == old(work)@,
        forall|j: int| old(work)@.len() <= j < final(work)@.len() ==> reads_from(routing@, x, #[trigger] final(work)@[j]),
        forall|i: int, b: ModuleId| 0 <= i < routing@.len() && !old(expanded)@[i] && routing@[i].input.module_id == x
            && #[trigger] entry_sources(routing@[i]).contains(b) ==> final(work)@.contains(b),
{
    let ghost w0 = work@;
    let ghost e0 = expanded@;
    let mut n: usize = 0;
    let mut i: usize = 0;
    while i < routing.len()
        invariant
            i <= routing@.len(),
            expanded@.len() == routing@.len(),
            forall|k: int| 0 <= k < i ==> #[trigger] expanded@[k] == (e0[k] || routing@[k].input.module_id == x),
            forall|k: int| i <= k < routing@.len() ==> #[trigger] expanded@[k] == e0[k],
            count_true(expanded@) == count_true(e0) + n,
            n <= i,
            work@.len() >= w0.len(),
            work@.subrange(0, w0.len() as int) == w0,
            n == 0 ==> work@ == w0,
            forall|j: int| w0.len() <= j < work@.len() ==> reads_from(routing@, x, #[trigger] work@[j]),
            forall|k: int, b: ModuleId| 0 <= k < i && !e0[k] && routing@[k].input.module_id == x
                && #[trigger] entry_sources(routing@[k]).contains(b) ==> work@.contains(b),
        decreases routing@.len() - i,
    {
        if !expanded[i] && routing[i].input.module_id == x {
            proof {
                lemma_count_true_set(expanded@, i as int);
            }
            expanded.set(i, true);
            n = n + 1;
            let ids = sources_of(&routing[i]);
            let ghost wb = work@;
            let mut j: usize = 0;
            while j < ids.len()
                invariant
                    i < routing@.len(),
                    ids@ == entry_sources(routing@[i as int]),
                    routing@[i as int].input.module_id == x,
                    j <= ids@.len(),
                    work@ == wb + ids@.take(j as int),
                decreases ids@.len() - j,
            {
                work.push(ids[j]);
                proof {
                    assert(ids@.take(j + 1) =~= ids@.take(j as int).push(ids@[j as int]));
                }
                j = j + 1;
            }
            proof {
                assert(ids@.take(j as int) =~= ids@);
                assert(work@.subrange(0, w0.len() as int) =~= w0) by {
                    assert(wb.subrange(0, w0.len() as int) == w0);
                }
                assert forall|jj: int| w0.len() <= jj < work@.len() implies reads_from(routing@, x, #[trigger] work@[jj]) by {
                    if jj >= wb.len() {
                        let b = work@[jj];
                        assert(ids@[jj - wb.len()] == b);
                        assert(entry_sources(routing@[i as int]).contains(b));
                    } else {
                        assert(work@[jj] == wb[jj]);
                    }
                }
                assert forall|k: int, b: ModuleId| 0 <= k < i + 1 && !e0[k] && routing@[k].input.module_id == x
                    && #[trigger] entry_sources(routing@[k]).contains(b) implies work@.contains(b) by {
                    if k == i {
                        let q = choose|q: int| 0 <= q < ids@.len() && ids@[q] == b;
                        assert(work@[wb.len() + q] == b);
                    } else {
                        assert(wb.contains(b));
                        let q = choose|q: int| 0 <= q < wb.len() && wb[q] == b;
                        assert(work@[q] == b);
                    }
                }
            }
        }
        i = i + 1;
    }
    n
}

/// The module ids feeding one routing entry.
pub(crate) fn sources_of(e: &RoutingEntry) -> (ids: Vec<ModuleId>)
    ensures
        ids@ == entry_sources(*e),
{
    let mut ids: Vec<ModuleId> = Vec::new();
    let mut i: usize = 0;
    while i < e.sources.len()
        invariant
            i <= e.sources@.len(),
            ids@ == mixed_sources_ids(e.sources@.take(i as int)),
        decreases e.sources@.len() - i,
    {
        let s = e.sources[i];
        ids.push(s.module_id);
        if let Some(m) = s.modulation {
            ids.push(m);
        }
        proof {
            let t = e.sources@.take(i + 1);
            assert(t.drop_last() =~= e.sources@.take(i as int));
            assert(t.last() == s);
        }
        i = i + 1;
    }
    proof {
        assert(e.sources@.take(i as int) =~= e.sources@);
    }
    ids
}

/// Whether module `dst_id` depends on module `src_id`, so that making
/// `src_id` read from `dst_id` would close a cycle.
pub fn has_cycle(routing: &Vec<RoutingEntry>, dst_id: ModuleId, src_id: ModuleId) -> (r: bool)
    ensures
        r == depends_on(routing@, dst_id, src_id),
{
    let ghost rs = routing@;
    let mut expanded: Vec<bool> = Vec::new();
    let mut i: usize = 0;
    while i < routing.len()
        invariant
            i <= routing@.len(),
            expanded@ == Seq::new(i as nat, |k: int| false),
        decreases routing@.len() - i,
    {
        expanded.push(false);
        proof {
            assert(expanded@ =~= Seq::new((i + 1) as nat, |k: int| false));
        }
        i = i + 1;
    }
    proof {
        assert(count_true(expanded@) == 0) by {
            lemma_count_all_false(expanded@);
        }
    }
    let mut work: Vec<ModuleId> = Vec::new();
    let mut num_expanded = expand(routing, dst_id, &mut expanded, &mut work);
    let ghost mut processed: Seq<ModuleId> = Seq::empty();
    proof {
        lemma_count_true_bound(expanded@);
        assert forall|j: int| 0 <= j < work@.len() implies depends_on(rs, dst_id, #[trigger] work@[j]) by {
            lemma_path_step(rs, dst_id, dst_id, work@[j]);
        }
    }
    loop
        invariant
            expanded@.len() == rs.len(),
            routing@ == rs,
            count_true(expanded@) == num_expanded,
            num_expanded <= rs.len(),
            forall|j: int| 0 <= j < work@.len() ==> depends_on(rs, dst_id, #[trigger] work@[j]),
            forall|j: int| 0 <= j < processed.len() ==> depends_on(rs, dst_id, #[trigger] processed[j]),
            forall|k: int| 0 <= k < rs.len() && (rs[k].input.module_id == dst_id || processed.contains(rs[k].input.module_id)) ==> #[trigger] expanded@[k],
            forall|k: int, b: ModuleId| 0 <= k < rs.len() && expanded@[k] && #[trigger] entry_sources(rs[k]).contains(b)
                ==> work@.contains(b) || processed.contains(b),
            !processed.contains(src_id),
        decreases rs.len() - num_expanded, work@.len(),
    {
        let ghost wb = work@;
        match work.pop() {
            None => {
                proof {
                    assert forall|x: ModuleId, b: ModuleId|
                        (x == dst_id || processed.contains(x)) && #[trigger] reads_from(rs, x, b) implies processed.contains(b) by {
                        let k = choose|k: int| 0 <= k < rs.len() && rs[k].input.module_id == x && #[trigger] entry_sources(rs[k]).contains(b);
                        assert(expanded@[k]);
                    }
                    if depends_on(rs, dst_id, src_id) {
                        let p = choose|p: Seq<ModuleId>| #[trigger] is_dependency_path(rs, p) && p[0] == dst_id && p.last() == src_id;
                        lemma_closed_set(rs, dst_id, processed, p);
                    }
                }
                return false;
            },
            Some(x) => {
                proof {
                    assert(x == wb[wb.len() - 1]);
                    assert(depends_on(rs, dst_id, wb[wb.len() - 1]));
                }
                if x == src_id {
                    return true;
                }
                let ghost w1 = work@;
                let ghost e1 = expanded@;
                let ghost p0 = processed;
                let n = expand(routing, x, &mut expanded, &mut work);
                proof {
                    lemma_count_true_bound(expanded@);
                    processed = processed.push(x);
                    assert(w1 =~= wb.subrange(0, wb.len() - 1));
                    assert forall|j: int| 0 <= j < work@.len() implies depends_on(rs, dst_id, #[trigger] work@[j]) by {
                        if j >= w1.len() {
                            lemma_path_step(rs, dst_id, x, work@[j]);
                        } else {
                            assert(work@[j] == w1[j]);
                            assert(w1[j] == wb[j]);
                        }
                    }
                    assert forall|j: int| 0 <= j < processed.len() implies depends_on(rs, dst_id, #[trigger] processed[j]) by {
                        if j < p0.len() {
                            assert(processed[j] == p0[j]);
                        }
                    }
                    assert(processed[processed.len() - 1] == x);
                    assert forall|k: int| 0 <= k < rs.len() && (rs[k].input.module_id == dst_id || processed.contains(rs[k].input.module_id)) implies #[trigger] expanded@[k] by {
                        if rs[k].input.module_id != x && rs[k].input.module_id != dst_id {
                            let q = choose|q: int| 0 <= q < processed.len() && processed[q] == rs[k].input.module_id;
                            assert(q < p0.len());
                            assert(p0[q] == rs[k].input.module_id);
                            assert(p0.contains(rs[k].input.module_id));
                            assert(e1[k]);
                        }
                    }
                    assert forall|k: int, b: ModuleId| 0 <= k < rs.len() && expanded@[k] && #[trigger] entry_sources(rs[k]).contains(b)
                        implies work@.contains(b) || processed.contains(b) by {
                        if !e1[k] {
                            assert(work@.contains(b));
                        } else if p0.contains(b) {
                            let q = choose|q: int| 0 <= q < p0.len() && p0[q] == b;
                            assert(processed[q] == b);
                        } else {
                            assert(wb.contains(b));
                            let q = choose|q: int| 0 <= q < wb.len() && wb[q] == b;
                            if q == wb.len() - 1 {
                                assert(processed[processed.len() - 1] == b);
                            } else {
                                assert(w1[q] == b);
                                assert(work@.subrange(0, w1.len() as int)[q] == b);
                                assert(work@[q] == b);
                            }
                        }
                    }
                    assert(!processed.contains(src_id)) by {
                        if processed.contains(src_id) {
                            let q = choose|q: int| 0 <= q < processed.len() && processed[q] == src_id;
                            if q < p0.len() {
                                assert(p0[q] == src_id);
                            }
                        }
                    }
                }
                assert(num_expanded + n <= expanded.len());
                num_expanded = num_expanded + n;
            },
        }
    }
}

proof fn lemma_count_all_false(s: Seq<bool>)
    requires
        forall|k: int| 0 <= k < s.len() ==> !s[k],
    ensures
        count_true(s) == 0,
    decreases s.len(),
{
    if s.len() > 0 {
        lemma_count_all_false(s.drop_last());
    }
}

} // verus!
