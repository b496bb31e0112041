//! Cursors over a snapshot of the container's entries.
//!
//! Neither table promises an enumeration order, so a cursor promises none
//! either: only that it yields each current entry exactly once.  Each cursor
//! is built from a snapshot taken when it is created and reports its exact
//! remaining length up front.

use vstd::prelude::*;

verus! {

/// A cursor over every `(key, value)` pair of the container.
#[derive(Clone)]
pub struct Iter {
    pairs: Vec<(u64, u64)>,
    pos: usize,
}

impl Iter {
    /// The full snapshot the cursor walks.
    pub closed spec fn pairs_seq(&self) -> Seq<(u64, u64)> {
        self.pairs@
    }

    /// How many pairs have been yielded so far.
    pub closed spec fn position(&self) -> int {
        self.pos as int
    }

    pub open spec fn wf(&self) -> bool {
        0 <= self.position() <= self.pairs_seq().len()
    }

    pub(crate) fn from_pairs_vec(pairs: Vec<(u64, u64)>) -> (r: Self)
        ensures
            r.wf(),
            r.position() == 0,
            r.pairs_seq() == pairs@,
    {
        Iter { pairs, pos: 0 }
    }

    /// Yields the next pair of the snapshot, left to right.
    pub fn next(&mut self) -> (r: Option<(u64, u64)>)
        requires
            old(self).wf(),
        ensures
            final(self).wf(),
            final(self).pairs_seq() == old(self).pairs_seq(),
            old(self).position() < old(self).pairs_seq().len() ==> {
                &&& r == Some(old(self).pairs_seq()[old(self).position()])
                &&& final(self).position() == old(self).position() + 1
            },
            old(self).position() >= old(self).pairs_seq().len() ==> {
                &&& r is None
                &&& final(self).position() == old(self).position()
            },
    {
        if self.pos < self.pairs.len() {
            let p = self.pairs[self.pos];
            self.pos = self.pos + 1;
            Some(p)
        } else {
            None
        }
    }

    /// Exact bounds on how many pairs remain.
    pub fn size_hint(&self) -> (r: (usize, Option<usize>))
        requires
            self.wf(),
        ensures
            r.0 == self.pairs_seq().len() - self.position(),
            r.1 == Some(r.0),
    {
        let n = self.pairs.len() - self.pos;
        (n, Some(n))
    }

    /// Exactly how many pairs remain.
    pub fn len(&self) -> (n: usize)
        requires
            self.wf(),
        ensures
            n == self.pairs_seq().len() - self.position(),
    {
        self.pairs.len() - self.pos
    }
}

/// A cursor over every `(key, value)` pair, handed out by the mutable
/// iteration entry point: taking it advances an in-flight reorganization by
/// one step first, and in-place updates are then made through the
/// container's mutation handles.
pub struct IterMut {
    pairs: Vec<(u64, u64)>,
    pos: usize,
}

impl IterMut {
    /// The full snapshot the cursor walks.
    pub closed spec fn pairs_seq(&self) -> Seq<(u64, u64)> {
        self.pairs@
    }

    /// How many pairs have been yielded so far.
    pub closed spec fn position(&self) -> int {
        self.pos as int
    }

    pub open spec fn wf(&self) -> bool {
        0 <= self.position() <= self.pairs_seq().len()
    }

    pub(crate) fn from_pairs_vec(pairs: Vec<(u64, u64)>) -> (r: Self)
        ensures
            r.wf(),
            r.position() == 0,
            r.pairs_seq() == pairs@,
    {
        IterMut { pairs, pos: 0 }
    }

    /// Yields the next pair of the snapshot, left to right.
    pub fn next(&mut self) -> (r: Option<(u64, u64)>)
        requires
            old(self).wf(),
        ensures
            final(self).wf(),
            final(self).pairs_seq() == old(self).pairs_seq(),
            old(self).position() < old(self).pairs_seq().len() ==> {
                &&& r == Some(old(self).pairs_seq()[old(self).position()])
                &&& final(self).position() == old(self).position() + 1
            },
            old(self).position() >= old(self).pairs_seq().len() ==> {
                &&& r is None
                &&& final(self).position() == old(self).position()
            },
    {
        if self.pos < self.pairs.len() {
            let p = self.pairs[self.pos];
            self.pos = self.pos + 1;
            Some(p)
        } else {
            None
        }
    }

    /// Exact bounds on how many pairs remain.
    pub fn size_hint(&self) -> (r: (usize, Option<usize>))
        requires
            self.wf(),
        ensures
            r.0 == self.pairs_seq().len() - self.position(),
            r.1 == Some(r.0),
    {
        let n = self.pairs.len() - self.pos;
        (n, Some(n))
    }

    /// Exactly how many pairs remain.
    pub fn len(&self) -> (n: usize)
        requires
            self.wf(),
        ensures
            n == self.pairs_seq().len() - self.position(),
    {
        self.pairs.len() - self.pos
    }
}

/// A cursor over every key of the container.
#[derive(Clone)]
pub struct Keys {
    keys: Vec<u64>,
    pos: usize,
}

impl Keys {
    /// The full snapshot the cursor walks.
    pub closed spec fn keys_seq(&self) -> Seq<u64> {
        self.keys@
    }

    /// How many keys have been yielded so far.
    pub closed spec fn position(&self) -> int {
        self.pos as int
    }

    pub open spec fn wf(&self) -> bool {
        0 <= self.position() <= self.keys_seq().len()
    }

    pub(crate) fn from_keys_vec(keys: Vec<u64>) -> (r: Self)
        ensures
            r.wf(),
            r.position() == 0,
            r.keys_seq() == keys@,
    {
        Keys { keys, pos: 0 }
    }

    /// Yields the next key of the snapshot, left to right.
    pub fn next(&mut self) -> (r: Option<u64>)
        requires
            old(self).wf(),
        ensures
            final(self).wf(),
            final(self).keys_seq() == old(self).keys_seq(),
            old(self).position() < old(self).keys_seq().len() ==> {
                &&& r == Some(old(self).keys_seq()[old(self).position()])
                &&& final(self).position() == old(self).position() + 1
            },
            old(self).position() >= old(self).keys_seq().len() ==> {
                &&& r is None
                &&& final(self).position() == old(self).position()
            },
    {
        if self.pos < self.keys.len() {
            let k = self.keys[self.pos];
            self.pos = self.pos + 1;
            Some(k)
        } else {
            None
        }
    }

    /// Exact bounds on how many keys remain.
    pub fn size_hint(&self) -> (r: (usize, Option<usize>))
        requires
            self.wf(),
        ensures
            r.0 == self.keys_seq().len() - self.position(),
            r.1 == Some(r.0),
    {
        let n = self.keys.len() - self.pos;
        (n, Some(n))
    }

    /// Exactly how many keys remain.
    pub fn len(&self) -> (n: usize)
        requires
            self.wf(),
        ensures
            n == self.keys_seq().len() - self.position(),
    {
        self.keys.len() - self.pos
    }
}

/// A cursor over every value of the container.
#[derive(Clone)]
pub struct Values {
    values: Vec<u64>,
    pos: usize,
}

impl Values {
    /// The full snapshot the cursor walks.
    pub closed spec fn values_seq(&self) -> Seq<u64> {
        self.values@
    }

    /// How many values have been yielded so far.
    pub closed spec fn position(&self) -> int {
        self.pos as int
    }

    pub open spec fn wf(&self) -> bool {
        0 <= self.position() <= self.values_seq().len()
    }

    pub(crate) fn from_values_vec(values: Vec<u64>) -> (r: Self)
        ensures
            r.wf(),
            r.position() == 0,
            r.values_seq() == values@,
    {
        Values { values, pos: 0 }
    }

    /// Yields the next value of the snapshot, left to right.
    pub fn next(&mut self) -> (r: Option<u64>)
        requires
            old(self).wf(),
        ensures
            final(self).wf(),
            final(self).values_seq() == old(self).values_seq(),
            old(self).position() < old(self).values_seq().len() ==> {
                &&& r == Some(old(self).values_seq()[old(self).position()])
                &&& final(self).position() == old(self).position() + 1
            },
            old(self).position() >= old(self).values_seq().len() ==> {
                &&& r is None
                &&& final(self).position() == old(self).position()
            },
    {
        if self.pos < self.values.len() {
            let v = self.values[self.pos];
            self.pos = self.pos + 1;
            Some(v)
        } else {
            None
        }
    }

    /// Exact bounds on how many values remain.
    pub fn size_hint(&self) -> (r: (usize, Option<usize>))
        requires
            self.wf(),
        ensures
            r.0 == self.values_seq().len() - self.position(),
            r.1 == Some(r.0),
    {
        let n = self.values.len() - self.pos;
        (n, Some(n))
    }

    /// Exactly how many values remain.
    pub fn len(&self) -> (n: usize)
        requires
            self.wf(),
        ensures
            n == self.values_seq().len() - self.position(),
    {
        self.values.len() - self.pos
    }
}

} // verus!
