use vstd::prelude::*;

verus! {

/// Dense index of an in-memory frame, `0..pool_size`.
pub type FrameId = usize;

/// Access history of one tracked frame.
pub struct LRUNode {
    /// Access timestamps, oldest first.
    pub history: Vec<u64>,
    pub fid: FrameId,
    pub is_evictable: bool,
}

impl LRUNode {
    /// A node with no recorded access that is not evictable.
    pub fn new(frame_id: FrameId) -> (r: Self)
        ensures
            r.history@ == Seq::<u64>::empty(),
            r.fid == frame_id,
            !r.is_evictable,
    {
        LRUNode { history: Vec::new(), fid: frame_id, is_evictable: false }
    }
}

/// Backward k-distance of a history at time `now`: `None` stands for
/// +infinity (fewer than `k` accesses), otherwise the time elapsed since the
/// k-th most recent access.
pub open spec fn backward_k_distance(history: Seq<u64>, now: u64, k: nat) -> Option<int> {
    if history.len() < k {
        None
    } else {
        Some(now - history[history.len() - k])
    }
}

/// `a` is at least as good an eviction victim as `b`: a larger backward
/// k-distance wins, +infinity beats every finite distance, and among
/// infinite distances the earliest first access wins.
pub open spec fn at_least_as_evictable(a: Seq<u64>, b: Seq<u64>, now: u64, k: nat) -> bool {
    match (backward_k_distance(a, now, k), backward_k_distance(b, now, k)) {
        (None, None) => a[0] <= b[0],
        (None, Some(_)) => true,
        (Some(_), None) => false,
        (Some(x), Some(y)) => x >= y,
    }
}

/// Number of indices `i < n` at which `p` holds.
pub open spec fn count_where(n: nat, p: spec_fn(nat) -> bool) -> nat
    decreases n,
{
    if n == 0 {
        0
    } else {
        count_where((n - 1) as nat, p) + if p((n - 1) as nat) {
            1nat
        } else {
            0nat
        }
    }
}

/// Two predicates that agree below `n` count alike below `n`.
pub proof fn lemma_count_where_ext(n: nat, p: spec_fn(nat) -> bool, q: spec_fn(nat) -> bool)
    requires
        forall|i: nat| i < n ==> #[trigger] p(i) == q(i),
    ensures
        count_where(n, p) == count_where(n, q),
    decreases n,
{
    if n > 0 {
        lemma_count_where_ext((n - 1) as nat, p, q);
    }
}

/// Indices at or above `m` where `p` is false add nothing to the count.
pub proof fn lemma_count_where_tail(n: nat, m: nat, p: spec_fn(nat) -> bool)
    requires
        m <= n,
        forall|i: nat| m <= i < n ==> !#[trigger] p(i),
    ensures
        count_where(n, p) == count_where(m, p),
    decreases n,
{
    if n > m {
        lemma_count_where_tail((n - 1) as nat, m, p);
    }
}

/// Turning `p` false at one index `i < n` lowers its count by one.
pub proof fn lemma_count_where_flip(n: nat, p: spec_fn(nat) -> bool, q: spec_fn(nat) -> bool, i: nat)
    requires
        i < n,
        p(i),
        !q(i),
        forall|j: nat| j < n && j != i ==> #[trigger] p(j) == q(j),
    ensures
        count_where(n, q) + 1 == count_where(n, p),
    decreases n,
{
    if n - 1 == i {
        lemma_count_where_ext((n - 1) as nat, p, q);
    } else {
        lemma_count_where_flip((n - 1) as nat, p, q, i);
    }
}

/// LRU-K replacement policy over frame ids.
pub struct LRUKReplacer {
    /// Slot `f` holds the node of frame `f` while it is tracked.
    node_store: Vec<Option<LRUNode>>,
    current_timestamp: u64,
    k_b_d_value: usize,
}

impl LRUKReplacer {
    pub closed spec fn k(&self) -> nat {
        self.k_b_d_value as nat
    }

    /// The logical time that the next access will be stamped with.
    pub closed spec fn now(&self) -> u64 {
        self.current_timestamp
    }

    pub closed spec fn is_tracked(&self, f: FrameId) -> bool {
        f < self.node_store@.len() && self.node_store@[f as int].is_some()
    }

    /// History of a tracked frame.
    pub closed spec fn history(&self, f: FrameId) -> Seq<u64> {
        if self.is_tracked(f) {
            self.node_store@[f as int].unwrap().history@
        } else {
            Seq::empty()
        }
    }

    /// The evictable flag of a tracked frame.
    pub closed spec fn flag(&self, f: FrameId) -> bool {
        self.node_store@[f as int].unwrap().is_evictable
    }

    pub open spec fn evictable(&self, f: FrameId) -> bool {
        self.is_tracked(f) && self.flag(f)
    }

    /// Number of slots in the store; no frame at or above it is tracked.
    pub closed spec fn span(&self) -> nat {
        self.node_store@.len()
    }

    pub closed spec fn wf(&self) -> bool {
        &&& self.k_b_d_value >= 1
        &&& forall|i: int|
            0 <= i < self.node_store@.len() && #[trigger] self.node_store@[i].is_some() ==> {
                &&& self.node_store@[i].unwrap().fid == i
                &&& self.node_store@[i].unwrap().history@.len() >= 1
            }
        &&& forall|i: int, j: int|
            0 <= i < self.node_store@.len() && self.node_store@[i].is_some() && 0 <= j
                < self.node_store@[i].unwrap().history@.len() ==> #[trigger] self.node_store@[i].unwrap().history@[j]
                < self.current_timestamp || self.current_timestamp == u64::MAX
    }

    /// Every recorded access precedes the current logical time, unless the
    /// clock has reached its largest value.
    pub proof fn lemma_stamps_before_now(&self, f: FrameId, j: int)
        requires
            self.wf(),
            self.is_tracked(f),
            0 <= j < self.history(f).len(),
        ensures
            self.history(f)[j] < self.now() || self.now() == u64::MAX,
    {
        assert(self.node_store@[f as int].is_some());
        assert(self.node_store@[f as int].unwrap().history@[j] == self.history(f)[j]);
    }

    /// `self` and `other` hold the same state for frame `g`.
    pub open spec fn agrees_at(&self, other: &Self, g: FrameId) -> bool {
        &&& self.is_tracked(g) == other.is_tracked(g)
        &&& self.evictable(g) == other.evictable(g)
        &&& self.history(g) == other.history(g)
    }

    /// The count that `Size` reports: tracked frames that are evictable.
    pub open spec fn evictable_count(&self) -> nat {
        count_where(self.span(), |i: nat| self.evictable(i as FrameId))
    }

    pub proof fn lemma_untracked_beyond_span(&self, f: FrameId)
        requires
            f >= self.span(),
        ensures
            !self.is_tracked(f),
            !self.evictable(f),
    {
    }

    /// A replacer with history depth `k_b_d` that tracks no frame.
    pub fn new(k_b_d: usize) -> (r: Self)
        requires
            k_b_d >= 1,
        ensures
            r.wf(),
            r.k() == k_b_d,
            r.now() == 0,
            forall|f: FrameId| !r.is_tracked(f),
            r.span() == 0,
    {
        LRUKReplacer { node_store: Vec::new(), current_timestamp: 0, k_b_d_value: k_b_d }
    }

    /// Executable form of `at_least_as_evictable` on two tracked nodes.
    fn outranks(&self, a: &LRUNode, b: &LRUNode) -> (r: bool)
        requires
            self.k_b_d_value >= 1,
            a.history@.len() >= 1,
            b.history@.len() >= 1,
        ensures
            r == at_least_as_evictable(a.history@, b.history@, self.now(), self.k()),
    {
        let k = self.k_b_d_value;
        let a_len = a.history.len();
        let b_len = b.history.len();
        if a_len < k {
            if b_len < k {
                a.history[0] <= b.history[0]
            } else {
                true
            }
        } else if b_len < k {
            false
        } else {
            a.history[a_len - k] <= b.history[b_len - k]
        }
    }

    proof fn lemma_rank_total_transitive(a: Seq<u64>, b: Seq<u64>, c: Seq<u64>, now: u64, k: nat)
        requires
            k >= 1,
            a.len() >= 1,
            b.len() >= 1,
            c.len() >= 1,
        ensures
            at_least_as_evictable(a, b, now, k) || at_least_as_evictable(b, a, now, k),
            at_least_as_evictable(a, b, now, k) && at_least_as_evictable(b, c, now, k)
                ==> at_least_as_evictable(a, c, now, k),
    {
    }

    /// Picks the victim: the evictable frame with the largest backward
    /// k-distance (see `at_least_as_evictable`), and forgets its history.
    #[allow(non_snake_case)]
    pub fn Evict(&mut self) -> (r: Option<FrameId>)
        requires
            old(self).wf(),
        ensures
            final(self).wf(),
            final(self).k() == old(self).k(),
            final(self).now() == old(self).now(),
            final(self).span() == old(self).span(),
            r.is_none() <==> forall|f: FrameId| !old(self).evictable(f),
            r.is_none() ==> *final(self) == *old(self),
            r matches Some(v) ==> {
                &&& old(self).evictable(v)
                &&& forall|g: FrameId|
                    old(self).evictable(g) ==> at_least_as_evictable(
                        old(self).history(v),
                        old(self).history(g),
                        old(self).now(),
                        old(self).k(),
                    )
                &&& !final(self).is_tracked(v)
                &&& final(self).evictable_count() + 1 == old(self).evictable_count()
                &&& forall|g: FrameId|
                    g != v ==> final(self).agrees_at(old(self), g)
            },
    {
        let mut best: Option<usize> = None;
        let mut i: usize = 0;
        let n = self.node_store.len();
        while i < n
            invariant
                self.wf(),
                n == self.node_store@.len(),
                i <= n,
                best.is_none() ==> forall|j: FrameId| j < i ==> !self.evictable(j),
                best matches Some(b) ==> {
                    &&& b < i
                    &&& self.evictable(b)
                    &&& forall|j: FrameId|
                        j < i && self.evictable(j) ==> at_least_as_evictable(
                            self.history(b),
                            self.history(j),
                            self.now(),
                            self.k(),
                        )
                },
            decreases n - i,
        {
            match &self.node_store[i] {
                Some(node) => {
                    if node.is_evictable {
                        match best {
                            None => {
                                best = Some(i);
                            },
                            Some(b) => {
                                let cur = self.node_store[b].as_ref().unwrap();
                                let keep = self.outranks(cur, node);
                                if !keep {
                                    proof {
                                        assert(self.node_store@[i as int].is_some());
                                        assert(self.node_store@[b as int].is_some());
                                        assert forall|j: FrameId|
                                            j < i && self.evictable(
                                                j,
                                            ) implies at_least_as_evictable(
                                            self.history(i),
                                            self.history(j),
                                            self.now(),
                                            self.k(),
                                        ) by {
                                            assert(self.node_store@[j as int].is_some());
                                            Self::lemma_rank_total_transitive(
                                                self.history(i),
                                                self.history(b),
                                                self.history(j),
                                                self.now(),
                                                self.k(),
                                            );
                                        }
                                        Self::lemma_rank_total_transitive(
                                            self.history(i),
                                            self.history(b),
                                            self.history(i),
                                            self.now(),
                                            self.k(),
                                        );
                                    }
                                    best = Some(i);
                                }
                            },
                        }
                    }
                },
                None => {},
            }
            i += 1;
        }
        match best {
            None => {
                assert forall|f: FrameId| !self.evictable(f) by {
                    if f >= n {
                        self.lemma_untracked_beyond_span(f);
                    }
                }
                None
            },
            Some(b) => {
                proof {
                    assert forall|g: FrameId| self.evictable(g) implies at_least_as_evictable(
                        self.history(b),
                        self.history(g),
                        self.now(),
                        self.k(),
                    ) by {
                        if g >= n {
                            self.lemma_untracked_beyond_span(g);
                        }
                    }
                }
                let ghost before = *self;
                self.node_store.set(b, None);
                proof {
                    before.lemma_count_change(self, b);
                }
                Some(b)
            },
        }
    }

    /// Records an access to `frame_id_t` at the current logical time, starting
    /// to track the frame if it was not tracked. The logical clock advances
    /// by one unless it is already at its largest value.
    #[allow(non_snake_case)]
    pub fn RecordAccess(&mut self, frame_id_t: FrameId)
        requires
            old(self).wf(),
        ensures
            final(self).wf(),
            final(self).k() == old(self).k(),
            final(self).is_tracked(frame_id_t),
            final(self).history(frame_id_t) == (if old(self).is_tracked(frame_id_t) {
                old(self).history(frame_id_t)
            } else {
                Seq::<u64>::empty()
            }).push(old(self).now()),
            final(self).evictable(frame_id_t) == old(self).evictable(frame_id_t),
            final(self).now() == if old(self).now() < u64::MAX {
                (old(self).now() + 1) as u64
            } else {
                old(self).now()
            },
            final(self).span() == if frame_id_t < old(self).span() {
                old(self).span()
            } else {
                (frame_id_t + 1) as nat
            },
            forall|g: FrameId|
                g != frame_id_t ==> final(self).agrees_at(old(self), g),
            forall|j: int|
                0 <= j < final(self).history(frame_id_t).len() - 1 ==> #[trigger] final(self).history(
                    frame_id_t,
                )[j] < old(self).now() || old(self).now() == u64::MAX,
    {
        let ghost old_store = self.node_store@;
        while self.node_store.len() <= frame_id_t
            invariant
                self.wf(),
                self.k_b_d_value == old(self).k_b_d_value,
                self.current_timestamp == old(self).current_timestamp,
                self.node_store@.len() >= old_store.len(),
                self.node_store@.len() <= if frame_id_t < old_store.len() {
                    old_store.len() as int
                } else {
                    frame_id_t + 1
                },
                forall|i: int|
                    0 <= i < self.node_store@.len() ==> #[trigger] self.node_store@[i] == if i
                        < old_store.len() {
                        old_store[i]
                    } else {
                        None
                    },
            decreases frame_id_t + 1 - self.node_store@.len(),
        {
            self.node_store.push(None);
        }
        let now = self.current_timestamp;
        let slot = self.node_store[frame_id_t].take();
        let node = match slot {
            Some(mut node) => {
                node.history.push(now);
                node
            },
            None => {
                let mut node = LRUNode::new(frame_id_t);
                node.history.push(now);
                node
            },
        };
        self.node_store.set(frame_id_t, Some(node));
        proof {
            if old(self).is_tracked(frame_id_t) {
                assert forall|j: int| 0 <= j < old(self).history(frame_id_t).len() implies #[trigger] old(
                    self,
                ).history(frame_id_t)[j] < old(self).now() || old(self).now() == u64::MAX by {
                    old(self).lemma_stamps_before_now(frame_id_t, j);
                }
            }
        }
        if self.current_timestamp < u64::MAX {
            self.current_timestamp = self.current_timestamp + 1;
        }
    }

    /// Forgets `frame_id_t` and its history, without counting it as an
    /// eviction. A frame that is not tracked is left as it is.
    #[allow(non_snake_case)]
    pub fn Remove(&mut self, frame_id_t: FrameId)
        requires
            old(self).wf(),
        ensures
            final(self).wf(),
            final(self).k() == old(self).k(),
            final(self).now() == old(self).now(),
            final(self).span() == old(self).span(),
            !final(self).is_tracked(frame_id_t),
            forall|g: FrameId|
                g != frame_id_t ==> final(self).agrees_at(old(self), g),
            final(self).evictable_count() + (if old(self).evictable(frame_id_t) {
                1nat
            } else {
                0nat
            }) == old(self).evictable_count(),
    {
        let ghost s0 = *self;
        let n = self.node_store.len();
        if frame_id_t < n {
            self.node_store.set(frame_id_t, None);
        }
        proof {
            assert(s0.span() == n);
            old(self).lemma_count_change(self, frame_id_t);
        }
    }

    /// Marks a tracked frame as evictable or not; an untracked frame is left
    /// as it is.
    #[allow(non_snake_case)]
    pub fn SetEvictable(&mut self, frame_id_t: FrameId, set_evictable: bool)
        requires
            old(self).wf(),
        ensures
            final(self).wf(),
            final(self).k() == old(self).k(),
            final(self).now() == old(self).now(),
            final(self).span() == old(self).span(),
            final(self).evictable(frame_id_t) == (old(self).is_tracked(frame_id_t) && set_evictable),
            forall|g: FrameId|
                final(self).is_tracked(g) == old(self).is_tracked(g) && final(self).history(g)
                    == old(self).history(g),
            forall|g: FrameId|
                g != frame_id_t ==> final(self).evictable(g) == old(self).evictable(g),
            final(self).evictable_count() + (if old(self).evictable(frame_id_t) {
                1nat
            } else {
                0nat
            }) == old(self).evictable_count() + (if final(self).evictable(frame_id_t) {
                1nat
            } else {
                0nat
            }),
    {
        let ghost s0 = *self;
        let n = self.node_store.len();
        assert(s0.span() == n);
        if frame_id_t < n {
            let slot = self.node_store[frame_id_t].take();
            match slot {
                Some(mut node) => {
                    node.is_evictable = set_evictable;
                    self.node_store.set(frame_id_t, Some(node));
                },
                None => {},
            }
        }
        proof {
            s0.lemma_count_change(self, frame_id_t);
        }
    }

    /// Two replacers over the same slots that differ at most at frame `f`
    /// count alike, apart from `f`'s own contribution.
    pub proof fn lemma_count_change(&self, other: &Self, f: FrameId)
        requires
            other.span() == self.span(),
            self.span() <= usize::MAX,
            forall|g: FrameId| g != f ==> other.evictable(g) == self.evictable(g),
        ensures
            other.evictable_count() + (if self.evictable(f) {
                1nat
            } else {
                0nat
            }) == self.evictable_count() + (if other.evictable(f) {
                1nat
            } else {
                0nat
            }),
    {
        let p = |i: nat| self.evictable(i as FrameId);
        let q = |i: nat| other.evictable(i as FrameId);
        let n = self.span();
        if self.evictable(f) == other.evictable(f) {
            assert forall|j: nat| j < n implies #[trigger] p(j) == q(j) by {
                if (j as FrameId) != f {
                    assert(other.evictable(j as FrameId) == self.evictable(j as FrameId));
                }
            }
            lemma_count_where_ext(n, p, q);
        } else if self.evictable(f) {
            assert(f < n);
            assert forall|j: nat| j < n && j != f implies #[trigger] p(j) == q(j) by {
                assert(other.evictable(j as FrameId) == self.evictable(j as FrameId));
            }
            lemma_count_where_flip(n, p, q, f as nat);
        } else {
            assert(f < n);
            assert forall|j: nat| j < n && j != f implies #[trigger] q(j) == p(j) by {
                assert(other.evictable(j as FrameId) == self.evictable(j as FrameId));
            }
            lemma_count_where_flip(n, q, p, f as nat);
        }
    }

    /// Number of tracked frames that are evictable.
    #[allow(non_snake_case)]
    pub fn Size(&self) -> (r: usize)
        requires
            self.wf(),
        ensures
            r == self.evictable_count(),
    {
        let mut count: usize = 0;
        let mut i: usize = 0;
        let n = self.node_store.len();
        while i < n
            invariant
                n == self.node_store@.len(),
                i <= n,
                count == count_where(i as nat, |j: nat| self.evictable(j as FrameId)),
                count <= i,
            decreases n - i,
        {
            let hit = match &self.node_store[i] {
                Some(node) => node.is_evictable,
                None => false,
            };
            if hit {
                count = count + 1;
            }
            i += 1;
        }
        count
    }
}

} // verus!
