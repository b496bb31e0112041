//! The dual-table container and its routing logic.
//!
//! The container owns two hash tables.  One of them, the *main* table, takes
//! every new write.  While a reorganization is in flight the other, the
//! *secondary* table, still holds the entries that have not been migrated
//! yet; each bounded step moves one of them into main.  When no
//! reorganization is in flight the secondary table is empty.

use vstd::prelude::*;

verus! {

use std::collections::HashMap;
use std::collections::hash_map::Entry;
use crate::iters::Iter;
use crate::iters::IterMut;
use crate::iters::Keys;
use crate::iters::Values;
use crate::table::keys_match_map;
use crate::table::pairs_match_map;
use crate::table::pick_key;
use crate::table::table_capacity;
use crate::table::table_pairs;
use vstd::std_specs::hash::EntrySpecFns;

broadcast use {vstd::std_specs::hash::group_hash_axioms, vstd::map_lib::group_map_union};

/// The map after binding every pair of `pairs` in order, starting from `m`:
/// for a repeated key the later binding wins.
pub open spec fn insert_all(m: Map<u64, u64>, pairs: Seq<(u64, u64)>) -> Map<u64, u64>
    decreases pairs.len(),
{
    if pairs.len() == 0 {
        m
    } else {
        insert_all(m, pairs.drop_last()).insert(pairs.last().0, pairs.last().1)
    }
}

/// A map from `u64` keys to `u64` values whose rehashes are incremental:
/// a reorganization (begun by `shrink_to_fit`) retires the current main
/// table and then moves at most one entry back per mutating call, so no
/// single call pays for the whole rehash.
pub struct RehashingHashMap {
    hashmap1: HashMap<u64, u64>,
    hashmap2: HashMap<u64, u64>,
    is1main: bool,
    rehashing: bool,
}

impl View for RehashingHashMap {
    type V = Map<u64, u64>;

    /// The logical contents: everything still parked in the secondary
    /// table together with everything in the main table.
    closed spec fn view(&self) -> Map<u64, u64> {
        self.secondary_view().union_prefer_right(self.main_view())
    }
}

impl RehashingHashMap {
    /// Contents of the table that currently receives new writes.
    pub closed spec fn main_view(&self) -> Map<u64, u64> {
        if self.is1main {
            self.hashmap1@
        } else {
            self.hashmap2@
        }
    }

    /// Contents of the retired table: the entries not yet migrated.
    pub closed spec fn secondary_view(&self) -> Map<u64, u64> {
        if self.is1main {
            self.hashmap2@
        } else {
            self.hashmap1@
        }
    }

    /// Whether a reorganization is in flight.
    pub closed spec fn spec_rehashing(&self) -> bool {
        self.rehashing
    }

    /// How many entries still await migration.
    pub open spec fn pending(&self) -> nat {
        self.secondary_view().dom().len()
    }

    /// The container's invariant: every key lives in exactly one of the two
    /// tables, the secondary table is empty whenever no reorganization is in
    /// flight, and the total number of entries fits in a machine word.
    pub open spec fn wf(&self) -> bool {
        &&& self.main_view().dom().finite()
        &&& self.secondary_view().dom().finite()
        &&& self.main_view().dom().disjoint(self.secondary_view().dom())
        &&& !self.spec_rehashing() ==> self.secondary_view() == Map::<u64, u64>::empty()
        &&& self.main_view().dom().len() + self.secondary_view().dom().len() <= usize::MAX
    }

    /// Size additivity: the container holds exactly the entries of its two
    /// tables, so its length is the sum of theirs.
    pub proof fn lemma_size_additivity(&self)
        requires
            self.wf(),
        ensures
            self@.len() == self.main_view().len() + self.secondary_view().len(),
            self@.dom().finite(),
    {
    }

    /// Exclusivity: a key the container holds is in exactly one table, and
    /// it maps there to the value the container reports.
    pub proof fn lemma_exclusivity(&self, k: u64)
        requires
            self.wf(),
        ensures
            self@.contains_key(k) <==> (self.main_view().contains_key(k)
                || self.secondary_view().contains_key(k)),
            !(self.main_view().contains_key(k) && self.secondary_view().contains_key(k)),
            self.main_view().contains_key(k) ==> self@[k] == self.main_view()[k],
            self.secondary_view().contains_key(k) ==> self@[k] == self.secondary_view()[k],
    {
    }

    /// Quiescence: whenever no reorganization is in flight, the secondary
    /// table holds nothing at all and the main table alone is the
    /// container.  (That its storage is also released is a property of the
    /// allocator, checked at runtime by `assert_state`.)
    pub proof fn lemma_quiescence(&self)
        requires
            self.wf(),
            !self.spec_rehashing(),
        ensures
            self.secondary_view() == Map::<u64, u64>::empty(),
            self.pending() == 0,
            self@ == self.main_view(),
    {
        assert(self@ =~= self.main_view());
    }

    pub fn new() -> (r: Self)
        ensures
            r.wf(),
            r@ == Map::<u64, u64>::empty(),
            !r.spec_rehashing(),
    {
        let r = RehashingHashMap {
            hashmap1: HashMap::new(),
            hashmap2: HashMap::new(),
            is1main: true,
            rehashing: false,
        };
        proof {
            assert(r@ =~= Map::<u64, u64>::empty());
        }
        r
    }

    /// An empty container whose main table is pre-sized for `capacity`
    /// entries.
    pub fn with_capacity(capacity: usize) -> (r: Self)
        ensures
            r.wf(),
            r@ == Map::<u64, u64>::empty(),
            !r.spec_rehashing(),
    {
        let r = RehashingHashMap {
            hashmap1: HashMap::with_capacity(capacity),
            hashmap2: HashMap::new(),
            is1main: true,
            rehashing: false,
        };
        proof {
            assert(r@ =~= Map::<u64, u64>::empty());
        }
        r
    }

    fn get_main(&self) -> (m: &HashMap<u64, u64>)
        ensures
            m@ == self.main_view(),
    {
        if self.is1main {
            &self.hashmap1
        } else {
            &self.hashmap2
        }
    }

    fn get_secondary(&self) -> (m: &HashMap<u64, u64>)
        ensures
            m@ == self.secondary_view(),
    {
        if self.is1main {
            &self.hashmap2
        } else {
            &self.hashmap1
        }
    }

    pub fn len(&self) -> (n: usize)
        requires
            self.wf(),
        ensures
            n == self@.len(),
    {
        proof {
            self.lemma_size_additivity();
        }
        self.get_main().len() + self.get_secondary().len()
    }

    pub fn is_empty(&self) -> (r: bool)
        requires
            self.wf(),
        ensures
            r == self@.is_empty(),
    {
        proof {
            self.lemma_size_additivity();
            if self.main_view().is_empty() && self.secondary_view().is_empty() {
                assert(self@.dom() =~= Set::<u64>::empty());
            }
        }
        self.get_main().is_empty() && self.get_secondary().is_empty()
    }

    pub fn is_rehashing(&self) -> (r: bool)
        requires
            self.wf(),
        ensures
            r == self.spec_rehashing(),
    {
        self.rehashing
    }

    fn get_mut_main(&mut self) -> (m: &mut HashMap<u64, u64>)
        ensures
            (*m)@ == old(self).main_view(),
            final(self).main_view() == (*final(m))@,
            final(self).secondary_view() == old(self).secondary_view(),
            final(self).spec_rehashing() == old(self).spec_rehashing(),
    {
        if self.is1main {
            &mut self.hashmap1
        } else {
            &mut self.hashmap2
        }
    }

    fn get_mut_secondary(&mut self) -> (m: &mut HashMap<u64, u64>)
        ensures
            (*m)@ == old(self).secondary_view(),
            final(self).secondary_view() == (*final(m))@,
            final(self).main_view() == old(self).main_view(),
            final(self).spec_rehashing() == old(self).spec_rehashing(),
    {
        if self.is1main {
            &mut self.hashmap2
        } else {
            &mut self.hashmap1
        }
    }

    /// A finite map whose domain has no element is the empty map.
    proof fn lemma_drained(m: Map<u64, u64>)
        requires
            m.dom().finite(),
            m.dom().len() == 0,
        ensures
            m == Map::<u64, u64>::empty(),
    {
        m.dom().lemma_len0_is_empty();
        assert(m =~= Map::<u64, u64>::empty());
    }

    /// Retires the drained secondary table.  Handing the retired table to a
    /// background worker that only frees it would be an equally valid
    /// deallocation strategy; the synchronous release done here is
    /// observably identical and keeps the container free of thread
    /// machinery.
    fn drop_secondary(&mut self)
        requires
            old(self).wf(),
            old(self).pending() == 0,
        ensures
            final(self).wf(),
            !final(self).spec_rehashing(),
            final(self)@ == old(self)@,
            final(self).main_view() == old(self).main_view(),
            final(self).pending() == 0,
    {
        proof {
            Self::lemma_drained(self.secondary_view());
        }
        self.rehashing = false;
        if self.is1main {
            self.hashmap2 = HashMap::new();
        } else {
            self.hashmap1 = HashMap::new();
        }
        proof {
            assert(self@ =~= old(self)@);
        }
    }

    /// One bounded unit of reorganization work.  A no-op when no
    /// reorganization is in flight; otherwise moves one entry from the
    /// secondary table into main, and the moment the last entry is drained
    /// — whether by this move or before this call — retires the secondary
    /// table and ends the reorganization in the same call.
    pub fn rehash(&mut self)
        requires
            old(self).wf(),
        ensures
            final(self).wf(),
            final(self)@ == old(self)@,
            final(self).spec_rehashing() == (old(self).spec_rehashing() && old(self).pending()
                > 1),
            old(self).spec_rehashing() && old(self).pending() > 0 ==> final(self).pending() == old(
                self,
            ).pending() - 1,
            !(old(self).spec_rehashing() && old(self).pending() > 0) ==> final(self).pending()
                == 0,
            final(self).secondary_view().submap_of(old(self).secondary_view()),
            old(self).main_view().submap_of(final(self).main_view()),
    {
        if self.rehashing {
            let sec_len = self.get_secondary().len();
            if sec_len == 0 {
                self.drop_secondary();
                return;
            }
            let k: u64;
            if self.is1main {
                k = pick_key(&self.hashmap2);
                let v = self.hashmap2.remove(&k).unwrap();
                self.hashmap1.insert(k, v);
            } else {
                k = pick_key(&self.hashmap1);
                let v = self.hashmap1.remove(&k).unwrap();
                self.hashmap2.insert(k, v);
            }
            proof {
                assert(self.main_view() == old(self).main_view().insert(
                    k,
                    old(self).secondary_view()[k],
                ));
                assert(self.secondary_view() == old(self).secondary_view().remove(k));
                assert(self@ =~= old(self)@);
            }
            if sec_len == 1 {
                self.drop_secondary();
            }
        }
    }

    /// Begins a reorganization: the current main table is retired with all
    /// its entries, and a fresh main table, pre-sized to the container's
    /// current length, takes every write from now on.  A no-op when a
    /// reorganization is already in flight.  An empty container has nothing
    /// to migrate: its main table's storage is released at once and no
    /// reorganization begins.
    pub fn shrink_to_fit(&mut self)
        requires
            old(self).wf(),
        ensures
            final(self).wf(),
            final(self)@ == old(self)@,
            final(self).spec_rehashing() == (old(self).spec_rehashing() || old(self)@.len() > 0),
            !old(self).spec_rehashing() && old(self)@.len() > 0 ==> final(self).pending() == old(
                self,
            )@.len() && final(self).secondary_view() == old(self)@ && final(self).main_view()
                == Map::<u64, u64>::empty(),
            !old(self).spec_rehashing() && old(self)@.len() == 0 ==> !final(self).spec_rehashing()
                && final(self).pending() == 0,
            old(self).spec_rehashing() ==> *final(self) == *old(self),
    {
        if !self.rehashing {
            proof {
                self.lemma_size_additivity();
                self.lemma_quiescence();
            }
            let n = self.len();
            if n == 0 {
                if self.is1main {
                    self.hashmap1 = HashMap::new();
                } else {
                    self.hashmap2 = HashMap::new();
                }
                proof {
                    assert(self@ =~= old(self)@);
                }
            } else {
                self.rehashing = true;
                self.is1main = !self.is1main;
                proof {
                    assert(self.wf());
                }
                let len = self.len();
                let m = self.get_mut_main();
                m.reserve(len);
                proof {
                    assert(self@ =~= old(self)@);
                }
            }
        }
    }

    /// Drops every entry and abandons any in-flight reorganization: the
    /// main table is cleared and the secondary table is discarded outright.
    pub fn clear(&mut self)
        requires
            old(self).wf(),
        ensures
            final(self).wf(),
            final(self)@ == Map::<u64, u64>::empty(),
            !final(self).spec_rehashing(),
            final(self).pending() == 0,
    {
        let m = self.get_mut_main();
        m.clear();
        self.rehashing = false;
        if self.is1main {
            self.hashmap2 = HashMap::new();
        } else {
            self.hashmap1 = HashMap::new();
        }
        proof {
            assert(self@ =~= Map::<u64, u64>::empty());
        }
    }

    /// The reported capacity: what the main table has reserved, plus the
    /// count of entries still parked in the secondary table.  (The latter is
    /// a count, not a reservation: it is the number of entries that will
    /// eventually land in main.)
    pub fn capacity(&self) -> (c: usize)
        requires
            self.wf(),
        ensures
            c >= self@.len(),
            c >= self.pending(),
    {
        proof {
            self.lemma_size_additivity();
        }
        let main_cap = table_capacity(self.get_main());
        let parked = self.get_secondary().len();
        if usize::MAX - main_cap >= parked {
            main_cap + parked
        } else {
            usize::MAX
        }
    }

    /// Makes room in the main table for at least `additional` more entries,
    /// advancing an in-flight reorganization by one step first.
    pub fn reserve(&mut self, additional: usize)
        requires
            old(self).wf(),
        ensures
            final(self).wf(),
            final(self)@ == old(self)@,
            final(self).spec_rehashing() == (old(self).spec_rehashing() && old(self).pending()
                > 1),
            old(self).spec_rehashing() && old(self).pending() > 0 ==> final(self).pending() == old(
                self,
            ).pending() - 1,
            !(old(self).spec_rehashing() && old(self).pending() > 0) ==> final(self).pending()
                == 0,
    {
        self.rehash();
        let m = self.get_mut_main();
        m.reserve(additional);
    }

    /// Binds `v` to `k` and returns the value previously bound, wherever it
    /// lived: a key written before a reorganization began may still sit in
    /// the secondary table, and it is removed from there so that it never
    /// appears in both tables.  Advances an in-flight reorganization by one
    /// step afterwards.
    pub fn insert(&mut self, k: u64, v: u64) -> (prev: Option<u64>)
        requires
            old(self).wf(),
            old(self)@.contains_key(k) || old(self)@.len() < usize::MAX,
        ensures
            final(self).wf(),
            final(self)@ == old(self)@.insert(k, v),
            prev == if old(self)@.contains_key(k) {
                Some(old(self)@[k])
            } else {
                None::<u64>
            },
            final(self).spec_rehashing() == (old(self).spec_rehashing() && old(
                self,
            ).secondary_view().remove(k).dom().len() > 1),
            old(self).spec_rehashing() && old(self).secondary_view().remove(k).dom().len() > 0
                ==> final(self).pending() == old(self).secondary_view().remove(k).dom().len() - 1,
            !(old(self).spec_rehashing() && old(self).secondary_view().remove(k).dom().len() > 0)
                ==> final(self).pending() == 0,
            final(self).main_view().contains_key(k) && final(self).main_view()[k] == v,
    {
        proof {
            old(self).lemma_size_additivity();
            old(self).lemma_exclusivity(k);
        }
        let mut ret: Option<u64> = None;
        if self.rehashing || self.is1main {
            ret = self.hashmap1.remove(&k);
        }
        if ret.is_none() && (self.rehashing || !self.is1main) {
            ret = self.hashmap2.remove(&k);
        }
        let m = self.get_mut_main();
        m.insert(k, v);
        proof {
            assert(self.secondary_view() =~= old(self).secondary_view().remove(k));
            assert(self@ =~= old(self)@.insert(k, v));
            assert(self.wf());
            assert(self.main_view().contains_key(k) && self.main_view()[k] == v);
        }
        let ghost pre = *self;
        self.rehash();
        proof {
            assert(pre.main_view().submap_of(self.main_view()));
            assert(pre.main_view().dom().contains(k));
            assert(pre.main_view()[k] == v);
            assert(self.main_view().contains_key(k));
            assert(self.main_view()[k] == v);
        }
        ret
    }

    /// The value bound to `k`, if any.  Looks in the main table first and,
    /// only while a reorganization is in flight, in the secondary table as
    /// well.  Never mutates and never advances the reorganization.
    pub fn get(&self, k: &u64) -> (r: Option<&u64>)
        requires
            self.wf(),
        ensures
            match r {
                Some(v) => self@.contains_key(*k) && *v == self@[*k],
                None => !self@.contains_key(*k),
            },
    {
        proof {
            self.lemma_exclusivity(*k);
        }
        if self.rehashing {
            match self.get_main().get(k) {
                Some(v) => Some(v),
                None => self.get_secondary().get(k),
            }
        } else {
            self.get_main().get(k)
        }
    }

    /// Whether some value is bound to `k`, in whichever table it lives.
    pub fn contains_key(&self, k: &u64) -> (r: bool)
        requires
            self.wf(),
        ensures
            r == self@.contains_key(*k),
    {
        proof {
            self.lemma_exclusivity(*k);
        }
        self.get_main().contains_key(k) || self.get_secondary().contains_key(k)
    }

    /// Unbinds `k` and returns the value it was bound to, wherever it
    /// lived.  While a reorganization is in flight this first advances it by
    /// one step, so removals make progress too.
    pub fn remove(&mut self, k: &u64) -> (r: Option<u64>)
        requires
            old(self).wf(),
        ensures
            final(self).wf(),
            final(self)@ == old(self)@.remove(*k),
            r == if old(self)@.contains_key(*k) {
                Some(old(self)@[*k])
            } else {
                None::<u64>
            },
            final(self).spec_rehashing() ==> old(self).spec_rehashing(),
            !old(self).spec_rehashing() ==> !final(self).spec_rehashing(),
            old(self).spec_rehashing() ==> {
                ||| final(self).pending() < old(self).pending()
                ||| !final(self).spec_rehashing()
            },
    {
        proof {
            old(self).lemma_exclusivity(*k);
        }
        if self.rehashing {
            self.rehash();
            proof {
                self.lemma_exclusivity(*k);
            }
            let ghost mid = *self;
            let m = self.get_mut_main();
            let r1 = m.remove(k);
            if r1.is_some() {
                proof {
                    assert(self@ =~= old(self)@.remove(*k));
                    if !self.spec_rehashing() {
                        assert(self.secondary_view() =~= Map::<u64, u64>::empty());
                    }
                }
                r1
            } else {
                let s = self.get_mut_secondary();
                let r2 = s.remove(k);
                proof {
                    assert(self.main_view() == mid.main_view());
                    assert(self.secondary_view() =~= mid.secondary_view().remove(*k));
                    assert(self@ =~= old(self)@.remove(*k));
                    if !self.spec_rehashing() {
                        assert(self.secondary_view() =~= Map::<u64, u64>::empty());
                    }
                }
                r2
            }
        } else {
            let m = self.get_mut_main();
            let r = m.remove(k);
            proof {
                assert(self@ =~= old(self)@.remove(*k));
            }
            r
        }
    }

    /// A mutation handle for the value bound to `k`, scoped to whichever
    /// table holds it; writes through it are seen by later lookups.  While a
    /// reorganization is in flight this first advances it by one step.
    pub fn get_mut(&mut self, k: &u64) -> (r: Option<&mut u64>)
        requires
            old(self).wf(),
        ensures
            final(self).wf(),
            old(self)@.contains_key(*k) ==> {
                &&& r is Some
                &&& *r.unwrap() == old(self)@[*k]
                &&& final(self)@ == old(self)@.insert(*k, *final(r.unwrap()))
            },
            !old(self)@.contains_key(*k) ==> r is None && final(self)@ == old(self)@,
            final(self).spec_rehashing() ==> old(self).spec_rehashing(),
            old(self).spec_rehashing() ==> {
                ||| final(self).pending() < old(self).pending()
                ||| !final(self).spec_rehashing()
            },
    {
        proof {
            old(self).lemma_exclusivity(*k);
        }
        if self.rehashing {
            self.rehash();
        }
        proof {
            self.lemma_exclusivity(*k);
            if self.secondary_view().contains_key(*k) {
                assert forall|vv: u64| #[trigger] self.secondary_view().insert(*k, vv).dom()
                    == self.secondary_view().dom() by {
                    assert(self.secondary_view().insert(*k, vv).dom()
                        =~= self.secondary_view().dom());
                }
            } else {
                assert(self.secondary_view().remove(*k) =~= self.secondary_view());
            }
        }
        let use_main = !self.rehashing || self.get_main().contains_key(k);
        let tbl = if use_main {
            self.get_mut_main()
        } else {
            self.get_mut_secondary()
        };
        match tbl.entry(*k) {
            Entry::Occupied(o) => Some(o.into_mut()),
            Entry::Vacant(_) => {
                proof {
                    assert(after_borrow(*self)@ =~= old(self)@);
                }
                None
            },
        }
    }

    /// The slot for `key`, located in whichever table holds it (or opened
    /// in the main table if none does), as the standard entry view: callers
    /// read, update or fill it in place without a second lookup.  While a
    /// reorganization is in flight this first advances it by one step.
    pub fn entry(&mut self, key: u64) -> (e: Entry<'_, u64, u64>)
        requires
            old(self).wf(),
            old(self)@.contains_key(key) || old(self)@.len() < usize::MAX,
        ensures
            e.key() == key,
            e.value() == old(self)@.get(key),
            final(self)@ == (match e.final_value() {
                Some(v) => old(self)@.insert(key, v),
                None => old(self)@.remove(key),
            }),
            final(self).wf(),
            final(self).spec_rehashing() ==> old(self).spec_rehashing(),
            old(self).spec_rehashing() ==> {
                ||| final(self).pending() < old(self).pending()
                ||| !final(self).spec_rehashing()
            },
            !old(self)@.contains_key(key) ==> (match e.final_value() {
                Some(v) => final(self).main_view().contains_key(key) && final(self).main_view()[
                    key
                ] == v,
                None => !final(self).main_view().contains_key(key),
            }),
    {
        proof {
            old(self).lemma_size_additivity();
            old(self).lemma_exclusivity(key);
        }
        self.rehash();
        proof {
            self.lemma_exclusivity(key);
            if self.secondary_view().contains_key(key) {
                assert forall|vv: u64| #[trigger] self.secondary_view().insert(key, vv).dom()
                    == self.secondary_view().dom() by {
                    assert(self.secondary_view().insert(key, vv).dom()
                        =~= self.secondary_view().dom());
                }
                assert(self.secondary_view().remove(key).dom() =~= self.secondary_view(
                ).dom().remove(key));
            }
        }
        if self.rehashing {
            if self.get_secondary().contains_key(&key) {
                let s = self.get_mut_secondary();
                return s.entry(key);
            }
        }
        let m = self.get_mut_main();
        m.entry(key)
    }

    /// The value bound to `k`; callers must know the key is present, and an
    /// unverified caller that indexes an absent key fails the lookup.
    pub fn index(&self, k: &u64) -> (v: &u64)
        requires
            self.wf(),
            self@.contains_key(*k),
        ensures
            *v == self@[*k],
    {
        let r = self.get(k);
        r.unwrap()
    }

    /// Every entry of both tables, in no promised order.
    fn all_pairs_vec(&self) -> (r: Vec<(u64, u64)>)
        requires
            self.wf(),
        ensures
            pairs_match_map(r@, self@),
    {
        let mut r = table_pairs(&self.hashmap1);
        let mut r2 = table_pairs(&self.hashmap2);
        let ghost s1 = r@;
        let ghost s2 = r2@;
        r.append(&mut r2);
        proof {
            self.lemma_size_additivity();
            assert(r@ == s1 + s2);
            assert forall|i: int| 0 <= i < r@.len() implies #[trigger] self@.contains_pair(
                r@[i].0,
                r@[i].1,
            ) by {
                self.lemma_exclusivity(r@[i].0);
                if i < s1.len() {
                    assert(self.hashmap1@.contains_pair(s1[i].0, s1[i].1));
                } else {
                    assert(self.hashmap2@.contains_pair(s2[i - s1.len()].0, s2[i - s1.len()].1));
                }
            }
            assert forall|i: int, j: int| 0 <= i < j < r@.len() implies r@[i].0 != r@[j].0 by {
                self.lemma_exclusivity(r@[i].0);
                if i < s1.len() && j >= s1.len() {
                    assert(self.hashmap1@.contains_pair(s1[i].0, s1[i].1));
                    assert(self.hashmap2@.contains_pair(s2[j - s1.len()].0, s2[j - s1.len()].1));
                }
            }
            assert forall|k: u64| #[trigger] self@.contains_key(k) implies exists|i: int|
                0 <= i < r@.len() && r@[i].0 == k by {
                self.lemma_exclusivity(k);
                if self.hashmap1@.contains_key(k) {
                    let i = choose|i: int| 0 <= i < s1.len() && s1[i].0 == k;
                    assert(r@[i].0 == k);
                } else {
                    let i = choose|i: int| 0 <= i < s2.len() && s2[i].0 == k;
                    assert(r@[s1.len() + i].0 == k);
                }
            }
        }
        r
    }

    /// A freshly built cursor over all current entries: exactly the
    /// container's key set, each key with its value, length known up front.
    /// Never mutates and never advances a reorganization.
    pub fn iter(&self) -> (it: Iter)
        requires
            self.wf(),
        ensures
            it.wf(),
            it.position() == 0,
            pairs_match_map(it.pairs_seq(), self@),
    {
        Iter::from_pairs_vec(self.all_pairs_vec())
    }

    /// The same cursor as `iter`; the by-reference iteration entry point.
    pub fn into_iter(&self) -> (it: Iter)
        requires
            self.wf(),
        ensures
            it.wf(),
            it.position() == 0,
            pairs_match_map(it.pairs_seq(), self@),
    {
        self.iter()
    }

    /// A cursor over all current entries for a round of in-place updates
    /// (made through `get_mut`).  Advances an in-flight reorganization by
    /// one step first, so the entries a caller touches stay predictable.
    pub fn iter_mut(&mut self) -> (it: IterMut)
        requires
            old(self).wf(),
        ensures
            final(self).wf(),
            final(self)@ == old(self)@,
            final(self).spec_rehashing() == (old(self).spec_rehashing() && old(self).pending()
                > 1),
            old(self).spec_rehashing() && old(self).pending() > 0 ==> final(self).pending() == old(
                self,
            ).pending() - 1,
            !(old(self).spec_rehashing() && old(self).pending() > 0) ==> final(self).pending()
                == 0,
            it.wf(),
            it.position() == 0,
            pairs_match_map(it.pairs_seq(), old(self)@),
    {
        self.rehash();
        IterMut::from_pairs_vec(self.all_pairs_vec())
    }

    /// A freshly built cursor over the key set: each current key exactly
    /// once, in no promised order, length known up front.
    pub fn keys(&self) -> (ks: Keys)
        requires
            self.wf(),
        ensures
            ks.wf(),
            ks.position() == 0,
            keys_match_map(ks.keys_seq(), self@),
    {
        let ps = self.all_pairs_vec();
        let mut kv: Vec<u64> = Vec::new();
        let n = ps.len();
        for idx in 0..n
            invariant
                n == ps@.len(),
                pairs_match_map(ps@, self@),
                kv@.len() == idx,
                forall|i: int| 0 <= i < idx ==> kv@[i] == ps@[i].0,
        {
            kv.push(ps[idx].0);
        }
        proof {
            assert forall|i: int| 0 <= i < kv@.len() implies #[trigger] self@.contains_key(
                kv@[i],
            ) by {
                assert(self@.contains_pair(ps@[i].0, ps@[i].1));
            }
            assert forall|i: int, j: int| 0 <= i < j < kv@.len() implies kv@[i] != kv@[j] by {
                assert(ps@[i].0 != ps@[j].0);
            }
            assert forall|k: u64| #[trigger] self@.contains_key(k) implies exists|i: int|
                0 <= i < kv@.len() && kv@[i] == k by {
                let i = choose|i: int| 0 <= i < ps@.len() && ps@[i].0 == k;
                assert(kv@[i] == k);
            }
        }
        Keys::from_keys_vec(kv)
    }

    /// A freshly built cursor over the values: one per current entry (a
    /// value bound to several keys appears once per key), in no promised
    /// order, length known up front.
    pub fn values(&self) -> (vs: Values)
        requires
            self.wf(),
        ensures
            vs.wf(),
            vs.position() == 0,
            vs.values_seq().len() == self@.len(),
            exists|ks: Seq<u64>|
                {
                    &&& #[trigger] keys_match_map(ks, self@)
                    &&& ks.len() == vs.values_seq().len()
                    &&& forall|i: int| 0 <= i < ks.len() ==> vs.values_seq()[i] == self@[ks[i]]
                },
    {
        let ps = self.all_pairs_vec();
        let mut vv: Vec<u64> = Vec::new();
        let n = ps.len();
        for idx in 0..n
            invariant
                n == ps@.len(),
                pairs_match_map(ps@, self@),
                vv@.len() == idx,
                forall|i: int| 0 <= i < idx ==> vv@[i] == ps@[i].1,
        {
            vv.push(ps[idx].1);
        }
        proof {
            let ks = Seq::new(ps@.len(), |i: int| ps@[i].0);
            assert forall|i: int| 0 <= i < ks.len() implies #[trigger] self@.contains_key(
                ks[i],
            ) by {
                assert(self@.contains_pair(ps@[i].0, ps@[i].1));
            }
            assert forall|i: int, j: int| 0 <= i < j < ks.len() implies ks[i] != ks[j] by {
                assert(ps@[i].0 != ps@[j].0);
            }
            assert forall|k: u64| #[trigger] self@.contains_key(k) implies exists|i: int|
                0 <= i < ks.len() && ks[i] == k by {
                let i = choose|i: int| 0 <= i < ps@.len() && ps@[i].0 == k;
                assert(ks[i] == k);
            }
            assert(keys_match_map(ks, self@));
            assert forall|i: int| 0 <= i < ks.len() implies vv@[i] == self@[ks[i]] by {
                assert(self@.contains_pair(ps@[i].0, ps@[i].1));
            }
        }
        Values::from_values_vec(vv)
    }

    /// Binds every pair of `pairs` in order, later bindings overriding
    /// earlier ones for a repeated key, each through a routed insert.
    pub fn extend(&mut self, pairs: Vec<(u64, u64)>)
        requires
            old(self).wf(),
            old(self)@.len() + pairs@.len() <= usize::MAX,
        ensures
            final(self).wf(),
            final(self)@ == insert_all(old(self)@, pairs@),
            final(self).spec_rehashing() ==> old(self).spec_rehashing(),
    {
        let n = pairs.len();
        for idx in 0..n
            invariant
                n == pairs@.len(),
                self.wf(),
                self@ == insert_all(old(self)@, pairs@.subrange(0, idx as int)),
                self@.len() <= old(self)@.len() + idx,
                old(self)@.len() + pairs@.len() <= usize::MAX,
                self.spec_rehashing() ==> old(self).spec_rehashing(),
        {
            let p = pairs[idx];
            proof {
                self.lemma_size_additivity();
            }
            self.insert(p.0, p.1);
            proof {
                assert(pairs@.subrange(0, idx + 1).drop_last() =~= pairs@.subrange(0, idx as int));
                self.lemma_size_additivity();
            }
        }
        proof {
            assert(pairs@.subrange(0, n as int) =~= pairs@);
        }
    }

    /// Builds a container from a list of pairs, pre-sized for them; later
    /// bindings override earlier ones for a repeated key.
    pub fn from_iter(pairs: Vec<(u64, u64)>) -> (r: Self)
        ensures
            r.wf(),
            r@ == insert_all(Map::<u64, u64>::empty(), pairs@),
            !r.spec_rehashing(),
    {
        let mut r = Self::with_capacity(pairs.len());
        r.extend(pairs);
        r
    }

    /// Whether the two containers hold exactly the same bindings, whatever
    /// each one's reorganization state: compared by size, then key by key.
    pub fn eq(&self, other: &Self) -> (r: bool)
        requires
            self.wf(),
            other.wf(),
        ensures
            r == (self@ == other@),
    {
        if self.len() != other.len() {
            return false;
        }
        let ps = self.all_pairs_vec();
        let n = ps.len();
        let mut ok = true;
        let mut idx: usize = 0;
        while idx < n
            invariant
                idx <= n,
                n == ps@.len(),
                self.wf(),
                other.wf(),
                pairs_match_map(ps@, self@),
                self@.len() == other@.len(),
                ok ==> forall|j: int|
                    0 <= j < idx ==> #[trigger] other@.contains_pair(ps@[j].0, ps@[j].1),
                !ok ==> self@ != other@,
            decreases n - idx,
        {
            let p = ps[idx];
            proof {
                assert(self@.contains_pair(ps@[idx as int].0, ps@[idx as int].1));
            }
            match other.get(&p.0) {
                Some(v) => {
                    if *v != p.1 {
                        ok = false;
                    }
                },
                None => {
                    ok = false;
                },
            }
            proof {
                if ok {
                    assert(other@.contains_pair(ps@[idx as int].0, ps@[idx as int].1));
                }
            }
            idx = idx + 1;
        }
        if !ok {
            return false;
        }
        proof {
            self.lemma_size_additivity();
            other.lemma_size_additivity();
            assert forall|k: u64| #[trigger] self@.contains_key(k) implies other@.contains_key(k)
                && other@[k] == self@[k] by {
                let j = choose|j: int| 0 <= j < ps@.len() && ps@[j].0 == k;
                assert(self@.contains_pair(ps@[j].0, ps@[j].1));
                assert(other@.contains_pair(ps@[j].0, ps@[j].1));
            }
            assert(self@.dom() <= other@.dom());
            if self@.dom() != other@.dom() {
                assert(!(self@.dom() =~= other@.dom()));
                let x = choose|x: u64|
                    !(self@.dom().contains(x) <==> other@.dom().contains(x));
                assert(other@.dom().contains(x) && !self@.dom().contains(x));
                assert(self@.dom() <= other@.dom().remove(x));
                vstd::set_lib::lemma_len_subset(self@.dom(), other@.dom().remove(x));
                assert(false);
            }
            assert(self@ =~= other@);
        }
        true
    }

    /// Convergence of a reorganization: from N pending entries, at most N
    /// bounded steps reach quiescence, since the step that drains the last
    /// entry also retires the table.  This drives the steps and counts
    /// them.  (One step is needed when the flag is set with nothing
    /// pending, a state a caller can reach by removing every pending entry
    /// between steps.)
    pub fn rehash_to_completion(&mut self) -> (steps: usize)
        requires
            old(self).wf(),
        ensures
            final(self).wf(),
            final(self)@ == old(self)@,
            !final(self).spec_rehashing(),
            !old(self).spec_rehashing() ==> steps == 0,
            old(self).spec_rehashing() && old(self).pending() > 0 ==> steps <= old(self).pending(),
            old(self).spec_rehashing() && old(self).pending() == 0 ==> steps <= 1,
    {
        let mut steps: usize = 0;
        while self.is_rehashing()
            invariant
                self.wf(),
                self@ == old(self)@,
                !old(self).spec_rehashing() ==> steps == 0 && !self.spec_rehashing(),
                old(self).pending() <= usize::MAX,
                steps + (if self.spec_rehashing() {
                    if self.pending() > 0 {
                        self.pending()
                    } else {
                        1nat
                    }
                } else {
                    0nat
                }) <= (if old(self).spec_rehashing() {
                    if old(self).pending() > 0 {
                        old(self).pending()
                    } else {
                        1nat
                    }
                } else {
                    0nat
                }),
            decreases self.pending() + (if self.spec_rehashing() {
                1int
            } else {
                0
            }),
        {
            self.rehash();
            steps = steps + 1;
        }
        steps
    }

    /// Runtime check of the allocation-state invariant: a reorganization in
    /// flight implies the secondary table still has storage, and a quiescent
    /// container implies it has none.  Reports whether the check held.
    pub fn assert_state(&self) -> (r: bool)
        requires
            self.wf(),
        ensures
            self.spec_rehashing() && self.pending() > 0 ==> r,
    {
        let sec_cap = table_capacity(self.get_secondary());
        if self.rehashing {
            sec_cap > 0
        } else {
            sec_cap == 0
        }
    }
}

impl Default for RehashingHashMap {
    /// The same container `new` builds: empty and quiescent.
    fn default() -> (r: Self)
        ensures
            r.wf(),
            r@ == Map::<u64, u64>::empty(),
            !r.spec_rehashing(),
    {
        Self::new()
    }
}

} // verus!
