//! Helpers over a single `std::collections::HashMap` beyond what its own
//! specifications give: reading its reserved capacity.

use vstd::prelude::*;

verus! {

use std::collections::HashMap;
use vstd::std_specs::hash::spec_keys_iter;
use vstd::std_specs::hash::spec_hash_map_iter;
use vstd::std_specs::iter::IteratorSpec;
use vstd::std_specs::iter::VerusForLoopWrapper;

broadcast use vstd::std_specs::hash::group_hash_axioms;

/// What it means for a sequence of pairs to list a map's entries exactly:
/// one pair per key, in some order, with the map's value beside each key.
pub open spec fn pairs_match_map(s: Seq<(u64, u64)>, m: Map<u64, u64>) -> bool {
    &&& s.len() == m.dom().len()
    &&& (forall|i: int| 0 <= i < s.len() ==> #[trigger] m.contains_pair(s[i].0, s[i].1))
    &&& (forall|i: int, j: int| 0 <= i < j < s.len() ==> s[i].0 != s[j].0)
    &&& (forall|k: u64| #[trigger] m.contains_key(k) ==> exists|i: int|
        0 <= i < s.len() && s[i].0 == k)
}

/// What it means for a sequence of keys to list a map's domain exactly:
/// each key of the map once, in some order.
pub open spec fn keys_match_map(s: Seq<u64>, m: Map<u64, u64>) -> bool {
    &&& s.len() == m.dom().len()
    &&& (forall|i: int| 0 <= i < s.len() ==> #[trigger] m.contains_key(s[i]))
    &&& (forall|i: int, j: int| 0 <= i < j < s.len() ==> s[i] != s[j])
    &&& (forall|k: u64| #[trigger] m.contains_key(k) ==> exists|i: int|
        0 <= i < s.len() && s[i] == k)
}

/// Every entry of the table, in its own (unspecified) enumeration order.
pub(crate) fn table_pairs(m: &HashMap<u64, u64>) -> (r: Vec<(u64, u64)>)
    ensures
        pairs_match_map(r@, m@),
{
    let ghost gm = *m;
    let mut r: Vec<(u64, u64)> = Vec::new();
    for p in it: m.iter()
        invariant
            it.seq() == spec_hash_map_iter(&gm).remaining(),
            gm == *m,
            r@.len() == it.index(),
            forall|i: int|
                0 <= i < r@.len() ==> r@[i] == (*it.seq()[i].0, *it.seq()[i].1),
    {
        r.push((*p.0, *p.1));
    }
    proof {
        let v = spec_hash_map_iter(m).remaining();
        assert(v.len() == m@.dom().len());
        assert forall|i: int, j: int| 0 <= i < j < r@.len() implies r@[i].0 != r@[j].0 by {
            if r@[i].0 == r@[j].0 {
                assert(m@.contains_key(*v[i].0) && m@[*v[i].0] == *v[i].1);
                assert(m@.contains_key(*v[j].0) && m@[*v[j].0] == *v[j].1);
                assert(v[i] == v[j]);
                assert(!v.no_duplicates());
            }
        }
        assert forall|k: u64| #[trigger] m@.contains_key(k) implies exists|i: int|
            0 <= i < r@.len() && r@[i].0 == k by {
            assert(v.contains((&k, &m@[k])));
            let i = choose|i: int| 0 <= i < v.len() && v[i] == (&k, &m@[k]);
            assert(r@[i].0 == k);
        }
    }
    r
}

/// Some key of a non-empty table.  The table's enumeration order decides
/// which one; callers may rely on nothing beyond membership.
pub(crate) fn pick_key(m: &HashMap<u64, u64>) -> (k: u64)
    requires
        m@.dom().len() > 0,
    ensures
        m@.contains_key(k),
{
    let it = m.keys();
    let mut w = VerusForLoopWrapper::new(it, Ghost(None));
    let r = w.next();
    proof {
        let rem = spec_keys_iter(m).remaining();
        assert(rem.unref()[0] == *rem[0]);
        assert(rem.unref().contains(rem.unref()[0]));
        assert(rem.unref().to_set().contains(*rem[0]));
    }
    *r.unwrap()
}

/// Relies on `HashMap::capacity`: the table can hold at least its current
/// entries without reallocating, so the reported capacity is at least the
/// number of entries it holds.
#[verifier::external_body]
pub(crate) fn table_capacity(m: &HashMap<u64, u64>) -> (c: usize)
    ensures
        c >= m@.dom().len(),
{
    m.capacity()
}

} // verus!
