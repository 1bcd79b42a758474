//! The canonical set of service fingerprints currently bridged by a
//! tunnel. Insertion is exactly-once per fingerprint: inserting a present
//! fingerprint is a no-op.

use vstd::prelude::*;

verus! {

/// A set of fingerprints in insertion order, without duplicates.
pub struct TunneledServiceTable {
    entries: Vec<u64>,
}

impl View for TunneledServiceTable {
    type V = Seq<u64>;

    closed spec fn view(&self) -> Seq<u64> {
        self.entries@
    }
}

impl TunneledServiceTable {
    /// The table never holds a fingerprint twice.
    pub closed spec fn wf(self) -> bool {
        self@.no_duplicates()
    }

    /// An empty table.
    pub fn new() -> (r: Self)
        ensures
            r@ == Seq::<u64>::empty(),
            r.wf(),
    {
        TunneledServiceTable { entries: Vec::new() }
    }

    /// How many services are currently bridged.
    pub fn len(&self) -> (n: usize)
        ensures
            n == self@.len(),
    {
        self.entries.len()
    }

    /// The fingerprint at one position of the insertion order.
    pub fn get(&self, i: usize) -> (f: u64)
        requires
            i < self@.len(),
        ensures
            f == self@[i as int],
    {
        self.entries[i]
    }

    /// Whether a fingerprint is currently bridged.
    pub fn contains(&self, f: u64) -> (r: bool)
        ensures
            r == self@.contains(f),
    {
        let mut i: usize = 0;
        while i < self.entries.len()
            invariant
                i <= self.entries.len(),
                forall|j: int| 0 <= j < i ==> self.entries@[j] != f,
        decreases self.entries.len() - i,
        {
            if self.entries[i] == f {
                return true;
            }
            i = i + 1;
        }
        false
    }

    /// Inserts a fingerprint; a no-op if it is already present. Returns
    /// whether the fingerprint was newly inserted.
    pub fn insert(&mut self, f: u64) -> (added: bool)
        requires
            old(self).wf(),
        ensures
            final(self).wf(),
            added == !old(self)@.contains(f),
            final(self)@ == if added {
                old(self)@.push(f)
            } else {
                old(self)@
            },
    {
        if self.contains(f) {
            false
        } else {
            self.entries.push(f);
            true
        }
    }

    /// A copy of this table with the same contents.
    pub fn duplicate(&self) -> (r: Self)
        ensures
            r@ == self@,
            self.wf() ==> r.wf(),
    {
        TunneledServiceTable { entries: self.to_vec() }
    }

    /// The bridged fingerprints as a fresh vector, in insertion order.
    pub fn to_vec(&self) -> (r: Vec<u64>)
        ensures
            r@ == self@,
    {
        let mut r: Vec<u64> = Vec::new();
        let mut i: usize = 0;
        while i < self.entries.len()
            invariant
                i <= self.entries.len(),
                r@ == self.entries@.subrange(0, i as int),
            decreases self.entries.len() - i,
        {
            r.push(self.entries[i]);
            proof {
                assert(r@ =~= self.entries@.subrange(0, i as int + 1));
            }
            i = i + 1;
        }
        proof {
            assert(r@ =~= self.entries@);
        }
        r
    }
}

} // verus!
