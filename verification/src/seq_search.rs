use vstd::prelude::*;

verus! {

/// `i` is the first position of `s` whose element satisfies `p`.
pub open spec fn is_first<A>(s: Seq<A>, p: spec_fn(A) -> bool, i: int) -> bool {
    &&& 0 <= i < s.len()
    &&& p(s[i])
    &&& forall|j: int| 0 <= j < i ==> !p(#[trigger] s[j])
}

/// The first position of `s` whose element satisfies `p`, or `-1` when there is none.
pub open spec fn first_index<A>(s: Seq<A>, p: spec_fn(A) -> bool) -> int {
    if exists|i: int| is_first(s, p, i) {
        choose|i: int| is_first(s, p, i)
    } else {
        -1
    }
}

/// `i` is the last position of `s` whose element satisfies `p`.
pub open spec fn is_last<A>(s: Seq<A>, p: spec_fn(A) -> bool, i: int) -> bool {
    &&& 0 <= i < s.len()
    &&& p(s[i])
    &&& forall|j: int| i < j < s.len() ==> !p(#[trigger] s[j])
}

/// The last position of `s` whose element satisfies `p`, or `-1` when there is none.
pub open spec fn last_index<A>(s: Seq<A>, p: spec_fn(A) -> bool) -> int {
    if exists|i: int| is_last(s, p, i) {
        choose|i: int| is_last(s, p, i)
    } else {
        -1
    }
}

pub proof fn lemma_first_index_is<A>(s: Seq<A>, p: spec_fn(A) -> bool, i: int)
    requires
        is_first(s, p, i),
    ensures
        first_index(s, p) == i,
{
    let k = choose|k: int| is_first(s, p, k);
    assert(is_first(s, p, k));
    if k < i {
        assert(!p(s[k]));
    }
    if i < k {
        assert(!p(s[i]));
    }
}

pub proof fn lemma_first_index_none<A>(s: Seq<A>, p: spec_fn(A) -> bool)
    requires
        forall|j: int| 0 <= j < s.len() ==> !p(#[trigger] s[j]),
    ensures
        first_index(s, p) == -1,
{
    if exists|i: int| is_first(s, p, i) {
        let k = choose|k: int| is_first(s, p, k);
        assert(p(s[k]));
    }
}

/// Whatever `first_index` returns lies in range, satisfies `p`, and nothing before it does.
pub proof fn lemma_first_index_props<A>(s: Seq<A>, p: spec_fn(A) -> bool)
    ensures
        first_index(s, p) >= 0 ==> is_first(s, p, first_index(s, p)),
        first_index(s, p) < 0 ==> first_index(s, p) == -1 && forall|j: int|
            0 <= j < s.len() ==> !p(#[trigger] s[j]),
{
    if first_index(s, p) < 0 {
        assert forall|j: int| 0 <= j < s.len() implies !p(#[trigger] s[j]) by {
            if p(s[j]) {
                lemma_exists_first(s, p, j);
            }
        }
    }
}

/// If some element satisfies `p`, a first one exists.
pub proof fn lemma_exists_first<A>(s: Seq<A>, p: spec_fn(A) -> bool, j: int)
    requires
        0 <= j < s.len(),
        p(s[j]),
    ensures
        exists|i: int| is_first(s, p, i),
    decreases j,
{
    if forall|k: int| 0 <= k < j ==> !p(#[trigger] s[k]) {
        assert(is_first(s, p, j));
    } else {
        let k = choose|k: int| 0 <= k < j && !!p(#[trigger] s[k]);
        lemma_exists_first(s, p, k);
    }
}

pub proof fn lemma_last_index_is<A>(s: Seq<A>, p: spec_fn(A) -> bool, i: int)
    requires
        is_last(s, p, i),
    ensures
        last_index(s, p) == i,
{
    let k = choose|k: int| is_last(s, p, k);
    assert(is_last(s, p, k));
    if k < i {
        assert(!p(s[i]));
    }
    if i < k {
        assert(!p(s[k]));
    }
}

pub proof fn lemma_last_index_none<A>(s: Seq<A>, p: spec_fn(A) -> bool)
    requires
        forall|j: int| 0 <= j < s.len() ==> !p(#[trigger] s[j]),
    ensures
        last_index(s, p) == -1,
{
    if exists|i: int| is_last(s, p, i) {
        let k = choose|k: int| is_last(s, p, k);
        assert(p(s[k]));
    }
}

/// Whatever `last_index` returns lies in range, satisfies `p`, and nothing after it does.
pub proof fn lemma_last_index_props<A>(s: Seq<A>, p: spec_fn(A) -> bool)
    ensures
        last_index(s, p) >= 0 ==> is_last(s, p, last_index(s, p)),
        last_index(s, p) < 0 ==> last_index(s, p) == -1 && forall|j: int|
            0 <= j < s.len() ==> !p(#[trigger] s[j]),
{
    if last_index(s, p) < 0 {
        assert forall|j: int| 0 <= j < s.len() implies !p(#[trigger] s[j]) by {
            if p(s[j]) {
                lemma_exists_last(s, p, j);
            }
        }
    }
}

/// If some element satisfies `p`, a last one exists.
pub proof fn lemma_exists_last<A>(s: Seq<A>, p: spec_fn(A) -> bool, j: int)
    requires
        0 <= j < s.len(),
        p(s[j]),
    ensures
        exists|i: int| is_last(s, p, i),
    decreases s.len() - j,
{
    if forall|k: int| j < k < s.len() ==> !p(#[trigger] s[k]) {
        assert(is_last(s, p, j));
    } else {
        let k = choose|k: int| j < k < s.len() && !!p(#[trigger] s[k]);
        lemma_exists_last(s, p, k);
    }
}

/// Sequences on which `p` holds at the same positions have the same first match.
pub proof fn lemma_first_index_same_pattern<A>(s1: Seq<A>, s2: Seq<A>, p: spec_fn(A) -> bool)
    requires
        s1.len() == s2.len(),
        forall|i: int| 0 <= i < s1.len() ==> p(#[trigger] s1[i]) == p(s2[i]),
    ensures
        first_index(s1, p) == first_index(s2, p),
{
    lemma_first_index_props(s1, p);
    lemma_first_index_props(s2, p);
    let i1 = first_index(s1, p);
    let i2 = first_index(s2, p);
    if i1 >= 0 {
        assert(p(s2[i1]));
        assert forall|j: int| 0 <= j < i1 implies !p(#[trigger] s2[j]) by {
            assert(!p(s1[j]));
        }
        lemma_first_index_is(s2, p, i1);
    } else if i2 >= 0 {
        assert(p(s1[i2]));
    }
}

/// `r` holds the position `i` (`None` when `i` is `-1`).
pub open spec fn found_at(r: Option<usize>, i: int) -> bool {
    match r {
        Some(k) => k as int == i && i >= 0,
        None => i == -1,
    }
}

/// Filtering then mapping a sequence grown by one element.
pub proof fn lemma_filter_map_push<A, B>(s: Seq<A>, x: A, p: spec_fn(A) -> bool, f: spec_fn(A) -> B)
    ensures
        s.push(x).filter(p).map_values(f) == if p(x) {
            s.filter(p).map_values(f).push(f(x))
        } else {
            s.filter(p).map_values(f)
        },
{
    s.lemma_filter_push(x, p);
    if p(x) {
        assert(s.filter(p).push(x).map_values(f) =~= s.filter(p).map_values(f).push(f(x)));
    }
}

} // verus!
