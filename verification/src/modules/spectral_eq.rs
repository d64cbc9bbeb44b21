use vstd::prelude::*;

verus! {

/// The most bands an equalizer holds.
pub const MAX_EQ_FILTERS: usize = 16;

/// The list after moving the band at `from` to position `to`.
pub open spec fn moved<T>(s: Seq<T>, from: int, to: int) -> Seq<T> {
    s.remove(from).insert(to, s[from])
}

/// A move that the list accepts: both positions exist and differ.
pub open spec fn move_applies<T>(s: Seq<T>, from: int, to: int) -> bool {
    0 <= from < s.len() && 0 <= to < s.len() && from != to
}

/// The bands a configuration yields: its first `MAX_EQ_FILTERS` ones.
pub fn limit_filters<T: Copy>(filters: &[T]) -> (r: Vec<T>)
    ensures
        r@ == filters@.take(if filters@.len() < MAX_EQ_FILTERS {
            filters@.len() as int
        } else {
            MAX_EQ_FILTERS as int
        }),
{
    let mut r: Vec<T> = Vec::new();
    let mut i: usize = 0;
    while i < filters.len() && i < MAX_EQ_FILTERS
        invariant
            i <= filters@.len(),
            i <= MAX_EQ_FILTERS,
            r@ == filters@.take(i as int),
        decreases filters@.len() - i,
    {
        r.push(filters[i]);
        proof {
            assert(filters@.take(i + 1) =~= filters@.take(i as int).push(filters@[i as int]));
        }
        i = i + 1;
    }
    r
}

/// Replaces the band at `index`; nothing changes when there is none.
pub fn set_filter<T>(filters: &mut Vec<T>, index: usize, filter: T)
    ensures
        final(filters)@ == if index < old(filters)@.len() {
            old(filters)@.update(index as int, filter)
        } else {
            old(filters)@
        },
{
    if index < filters.len() {
        filters.set(index, filter);
    }
}

/// Appends a band unless the list is full.
pub fn add_filter<T>(filters: &mut Vec<T>, filter: T)
    ensures
        final(filters)@ == if old(filters)@.len() >= MAX_EQ_FILTERS {
            old(filters)@
        } else {
            old(filters)@.push(filter)
        },
{
    if filters.len() >= MAX_EQ_FILTERS {
        return;
    }
    filters.push(filter);
}

/// Removes the band at `index`; nothing changes when there is none.
pub fn remove_filter<T>(filters: &mut Vec<T>, index: usize)
    ensures
        final(filters)@ == if index < old(filters)@.len() {
            old(filters)@.remove(index as int)
        } else {
            old(filters)@
        },
{
    if index < filters.len() {
        filters.remove(index);
    }
}

/// Moves the band at `from` to position `to`; nothing changes unless both
/// positions exist and differ.
pub fn move_filter<T>(filters: &mut Vec<T>, from: usize, to: usize)
    ensures
        final(filters)@ == if move_applies(old(filters)@, from as int, to as int) {
            moved(old(filters)@, from as int, to as int)
        } else {
            old(filters)@
        },
{
    let len: usize = filters.len();
    if from >= len || to >= len || from == to {
        return;
    }
    let filter = filters.remove(from);
    filters.insert(to, filter);
}

/// Moving a band keeps every band: the list is a permutation of the old one.
pub proof fn lemma_move_keeps_bands<T>(s: Seq<T>, from: int, to: int)
    requires
        move_applies(s, from, to),
    ensures
        moved(s, from, to).len() == s.len(),
        moved(s, from, to).to_multiset() == s.to_multiset(),
        moved(s, from, to)[to] == s[from],
{
    broadcast use vstd::seq_lib::group_to_multiset_ensures;
    broadcast use vstd::multiset::group_multiset_axioms;

    s.remove(from).insert_ensures(to, s[from]);
    assert(moved(s, from, to).to_multiset() =~= s.to_multiset());
}

/// Moving a band back to where it came from restores the list.
pub proof fn lemma_move_back_restores<T>(s: Seq<T>, from: int, to: int)
    requires
        move_applies(s, from, to),
    ensures
        move_applies(moved(s, from, to), to, from),
        moved(moved(s, from, to), to, from) == s,
{
    let t = s.remove(from);
    t.insert_ensures(to, s[from]);
    let u = moved(s, from, to);
    assert(u.remove(to) =~= t);
    assert(t.insert(from, s[from]) =~= s);
}

/// The list never grows beyond `MAX_EQ_FILTERS` bands by adding.
pub proof fn lemma_add_keeps_limit<T>(s: Seq<T>, filter: T)
    requires
        s.len() <= MAX_EQ_FILTERS,
    ensures
        (if s.len() >= MAX_EQ_FILTERS {
            s
        } else {
            s.push(filter)
        }).len() <= MAX_EQ_FILTERS,
{
}

} // verus!
