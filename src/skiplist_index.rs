use vstd::prelude::*;

verus! {

/// Where a tuple lives: `(page_id, offset)`.
pub type TupleLocation = (u64, usize);

/// Ordered index from tuple id to location. The entries are kept sorted by
/// strictly increasing tuple id, so every id appears at most once.
pub struct SkipListIndex {
    entries: Vec<(u64, TupleLocation)>,
}

/// Locations of the entries whose key lies in `[start, end]`, in key order.
pub open spec fn locations_in_range(s: Seq<(u64, TupleLocation)>, start: u64, end: u64) -> Seq<
    TupleLocation,
>
    decreases s.len(),
{
    if s.len() == 0 {
        Seq::empty()
    } else {
        let rest = locations_in_range(s.drop_last(), start, end);
        if start <= s.last().0 && s.last().0 <= end {
            rest.push(s.last().1)
        } else {
            rest
        }
    }
}

impl SkipListIndex {
    pub closed spec fn entries(&self) -> Seq<(u64, TupleLocation)> {
        self.entries@
    }

    pub closed spec fn wf(&self) -> bool {
        forall|i: int, j: int|
            0 <= i < j < self.entries@.len() ==> (#[trigger] self.entries@[i]).0
                < (#[trigger] self.entries@[j]).0
    }

    /// The entries, and so the result of `range_query`, come in strictly
    /// increasing tuple id: each id once.
    pub proof fn lemma_sorted(&self, i: int, j: int)
        requires
            self.wf(),
            0 <= i < j < self.entries().len(),
        ensures
            self.entries()[i].0 < self.entries()[j].0,
    {
    }

    /// The index maps `key` to `loc`.
    pub open spec fn maps(&self, key: u64, loc: TupleLocation) -> bool {
        self.entries().contains((key, loc))
    }

    pub open spec fn has_key(&self, key: u64) -> bool {
        exists|loc: TupleLocation| self.maps(key, loc)
    }

    /// A key is mapped to one location at most.
    pub proof fn lemma_one_location(&self, key: u64, a: TupleLocation, b: TupleLocation)
        requires
            self.wf(),
            self.maps(key, a),
            self.maps(key, b),
        ensures
            a == b,
    {
        let i = choose|i: int| 0 <= i < self.entries@.len() && self.entries@[i] == (key, a);
        let j = choose|j: int| 0 <= j < self.entries@.len() && self.entries@[j] == (key, b);
        if i < j {
            assert(self.entries@[i].0 < self.entries@[j].0);
        } else if j < i {
            assert(self.entries@[j].0 < self.entries@[i].0);
        }
    }

    pub fn new() -> (r: Self)
        ensures
            r.wf(),
            r.entries().len() == 0,
            forall|k: u64| !r.has_key(k),
    {
        SkipListIndex { entries: Vec::new() }
    }

    /// A copy holding the same entries.
    pub fn copy(&self) -> (r: Self)
        requires
            self.wf(),
        ensures
            r.wf(),
            r.entries() == self.entries(),
    {
        let mut entries: Vec<(u64, TupleLocation)> = Vec::new();
        let mut i: usize = 0;
        while i < self.entries.len()
            invariant
                i <= self.entries@.len(),
                entries@ == self.entries@.take(i as int),
            decreases self.entries@.len() - i,
        {
            entries.push(self.entries[i]);
            i += 1;
            assert(entries@ =~= self.entries@.take(i as int));
        }
        assert(entries@ =~= self.entries@);
        SkipListIndex { entries }
    }

    /// Maps `tuple_id` to `(page_id, offset)`, replacing any location it had.
    pub fn insert(&mut self, tuple_id: u64, page_id: u64, offset: usize)
        requires
            old(self).wf(),
        ensures
            final(self).wf(),
            final(self).maps(tuple_id, (page_id, offset)),
            forall|k: u64, loc: TupleLocation|
                k != tuple_id ==> (#[trigger] final(self).maps(k, loc) == old(self).maps(k, loc)),
    {
        let ghost s0 = self.entries@;
        let n = self.entries.len();
        let mut pos: usize = 0;
        while pos < n && self.entries[pos].0 < tuple_id
            invariant
                n == self.entries@.len(),
                self.entries@ == s0,
                pos <= n,
                forall|j: int| 0 <= j < pos ==> (#[trigger] s0[j]).0 < tuple_id,
            decreases n - pos,
        {
            pos += 1;
        }
        let e = (tuple_id, (page_id, offset));
        if pos < n && self.entries[pos].0 == tuple_id {
            self.entries.set(pos, e);
            proof {
                assert(self.entries@[pos as int] == e);
                assert forall|k: u64, loc: TupleLocation|
                    k != tuple_id implies (#[trigger] self.maps(k, loc) == old(self).maps(k, loc)) by {
                    if old(self).maps(k, loc) {
                        let i = choose|i: int| 0 <= i < s0.len() && s0[i] == (k, loc);
                        assert(self.entries@[i] == (k, loc));
                    }
                    if self.maps(k, loc) {
                        let i = choose|i: int| 0 <= i < self.entries@.len() && self.entries@[i] == (k, loc);
                        assert(s0[i] == (k, loc));
                    }
                }
            }
        } else {
            self.entries.insert(pos, e);
            proof {
                assert(self.entries@[pos as int] == e);
                assert forall|i: int, j: int|
                    0 <= i < j < self.entries@.len() implies (#[trigger] self.entries@[i]).0
                        < (#[trigger] self.entries@[j]).0 by {
                    if j < pos {
                    } else if j == pos {
                        assert(s0[i].0 < tuple_id);
                    } else if i < pos {
                        assert(self.entries@[j] == s0[j - 1]);
                        if j - 1 > pos {
                            assert(s0[pos as int].0 < s0[j - 1].0);
                        }
                    } else if i == pos {
                        assert(self.entries@[j] == s0[j - 1]);
                        if j - 1 > pos {
                            assert(s0[pos as int].0 < s0[j - 1].0);
                        }
                    } else {
                        assert(self.entries@[j] == s0[j - 1]);
                        assert(self.entries@[i] == s0[i - 1]);
                    }
                }
                assert forall|k: u64, loc: TupleLocation|
                    k != tuple_id implies (#[trigger] self.maps(k, loc) == old(self).maps(k, loc)) by {
                    if old(self).maps(k, loc) {
                        let i = choose|i: int| 0 <= i < s0.len() && s0[i] == (k, loc);
                        if i < pos {
                            assert(self.entries@[i] == (k, loc));
                        } else {
                            assert(self.entries@[i + 1] == (k, loc));
                        }
                    }
                    if self.maps(k, loc) {
                        let j = choose|j: int| 0 <= j < self.entries@.len() && self.entries@[j] == (k, loc);
                        if j < pos {
                            assert(s0[j] == (k, loc));
                        } else {
                            assert(j != pos);
                            assert(s0[j - 1] == (k, loc));
                        }
                    }
                }
            }
        }
    }

    /// The location of `tuple_id`, if the index has it.
    pub fn find(&self, tuple_id: u64) -> (r: Option<TupleLocation>)
        requires
            self.wf(),
        ensures
            r matches Some(loc) ==> self.maps(tuple_id, loc),
            r is None ==> !self.has_key(tuple_id),
    {
        let n = self.entries.len();
        let mut i: usize = 0;
        while i < n
            invariant
                n == self.entries@.len(),
                i <= n,
                forall|j: int| 0 <= j < i ==> (#[trigger] self.entries@[j]).0 != tuple_id,
            decreases n - i,
        {
            if self.entries[i].0 == tuple_id {
                assert(self.entries@[i as int] == (tuple_id, self.entries@[i as int].1));
                return Some(self.entries[i].1);
            }
            i += 1;
        }
        proof {
            assert forall|loc: TupleLocation| !self.maps(tuple_id, loc) by {
                if self.maps(tuple_id, loc) {
                    let j = choose|j: int| 0 <= j < self.entries@.len() && self.entries@[j] == (tuple_id, loc);
                    assert(self.entries@[j].0 != tuple_id);
                }
            }
        }
        None
    }

    /// Locations of the tuple ids in `[start, end]`, in increasing id order.
    pub fn range_query(&self, start: u64, end: u64) -> (r: Vec<TupleLocation>)
        requires
            self.wf(),
        ensures
            r@ == locations_in_range(self.entries(), start, end),
    {
        let n = self.entries.len();
        let mut out: Vec<TupleLocation> = Vec::new();
        let mut i: usize = 0;
        while i < n
            invariant
                n == self.entries@.len(),
                i <= n,
                out@ == locations_in_range(self.entries@.take(i as int), start, end),
            decreases n - i,
        {
            let (key, loc) = self.entries[i];
            proof {
                assert(self.entries@.take(i + 1).drop_last() =~= self.entries@.take(i as int));
            }
            if start <= key && key <= end {
                out.push(loc);
            }
            i += 1;
        }
        assert(self.entries@.take(n as int) =~= self.entries@);
        out
    }
}

} // verus!
