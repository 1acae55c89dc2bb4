use vstd::prelude::*;

verus! {

/// One entry of a skip list. `next[l]` is the index of the following node
/// on level `l`; the node is on levels `0..next.len()`.
pub struct Node {
    next: Vec<Option<usize>>,
    pub offset: u64,
    pub command: String,
}

impl Node {
    pub closed spec fn links(&self) -> Seq<Option<usize>> {
        self.next@
    }

    fn set_link(&mut self, l: usize, to: Option<usize>)
        requires
            l < old(self).next@.len(),
        ensures
            final(self).next@ == old(self).next@.update(l as int, to),
            final(self).offset == old(self).offset,
            final(self).command == old(self).command,
    {
        self.next.set(l, to);
    }

    fn new(links: Vec<Option<usize>>, offset: u64, command: String) -> (r: Node)
        ensures
            r.links() == links@,
            r.offset == offset,
            r.command@ == command@,
    {
        Node { next: links, offset, command }
    }
}

/// A vector of `n` empty links.
fn no_links(n: usize) -> (r: Vec<Option<usize>>)
    ensures
        r@.len() == n,
        forall|i: int| 0 <= i < n ==> #[trigger] r@[i] is None,
{
    let mut v: Vec<Option<usize>> = Vec::new();
    let mut i: usize = 0;
    while i < n
        invariant
            i <= n,
            v@.len() == i,
            forall|j: int| 0 <= j < i ==> #[trigger] v@[j] is None,
        decreases n - i,
    {
        v.push(None);
        i += 1;
    }
    v
}

/// An append-only log of `(offset, command)` entries with non-decreasing
/// offsets, held in an arena: node `i` is the `i`-th entry appended and node
/// 0 is the head. Each node stands on a random number of levels; level `l`
/// links every node that stands on it, in order, so a search can skip ahead
/// on the higher levels.
pub struct SkipList {
    nodes: Vec<Node>,
    tails: Vec<Option<usize>>,
    max_level: usize,
    pub length: u64,
}

impl SkipList {
    pub closed spec fn len_spec(&self) -> nat {
        self.nodes@.len()
    }

    pub closed spec fn top(&self) -> nat {
        self.max_level as nat
    }

    pub closed spec fn offset_at(&self, i: int) -> u64 {
        self.nodes@[i].offset
    }

    pub closed spec fn command_at(&self, i: int) -> Seq<char> {
        self.nodes@[i].command@
    }

    /// Number of levels node `i` stands on.
    pub closed spec fn height(&self, i: int) -> nat {
        self.nodes@[i].next@.len()
    }

    pub closed spec fn link(&self, i: int, l: int) -> Option<usize> {
        self.nodes@[i].next@[l]
    }

    /// On level `l` the node after `i` is `j`, or there is none.
    pub closed spec fn link_ok(&self, i: int, l: int) -> bool {
        match self.link(i, l) {
            Some(j) => {
                &&& i < j < self.nodes@.len()
                &&& self.height(j as int) > l
                &&& forall|k: int| i < k < j ==> #[trigger] self.height(k) <= l
            },
            None => forall|k: int| i < k < self.nodes@.len() ==> #[trigger] self.height(k) <= l,
        }
    }

    /// `tails[l]` is the last node standing on level `l`.
    pub closed spec fn tail_ok(&self, l: int) -> bool {
        match self.tails@[l] {
            Some(t) => {
                &&& t < self.nodes@.len()
                &&& self.height(t as int) > l
                &&& forall|k: int| t < k < self.nodes@.len() ==> #[trigger] self.height(k) <= l
            },
            None => self.nodes@.len() == 0,
        }
    }

    pub closed spec fn wf(&self) -> bool {
        &&& self.max_level < usize::MAX
        &&& self.tails@.len() == self.max_level + 1
        &&& self.length == self.nodes@.len()
        &&& self.nodes@.len() > 0 ==> self.height(0) == self.max_level + 1
        &&& forall|i: int|
            0 <= i < self.nodes@.len() ==> 1 <= #[trigger] self.height(i) <= self.max_level + 1
        &&& forall|i: int, l: int|
            0 <= i < self.nodes@.len() && 0 <= l < self.height(i) ==> #[trigger] self.link_ok(i, l)
        &&& forall|l: int| 0 <= l <= self.max_level ==> #[trigger] self.tail_ok(l)
        &&& forall|i: int, j: int|
            0 <= i <= j < self.nodes@.len() ==> #[trigger] self.offset_at(i) <= #[trigger] self.offset_at(j)
    }

    /// An empty list whose nodes stand on at most `max_level + 1` levels.
    pub fn new(max_level: usize) -> (r: Self)
        requires
            max_level < usize::MAX,
        ensures
            r.wf(),
            r.len_spec() == 0,
            r.top() == max_level,
    {
        SkipList { nodes: Vec::new(), tails: no_links(max_level + 1), max_level, length: 0 }
    }

    /// A random level in `0..=max_level`: each further level is taken with
    /// probability one half.
    fn get_level(&self) -> (r: usize)
        ensures
            r <= self.max_level,
    {
        let mut n: usize = 0;
        while n < self.max_level && rand::random::<bool>()
            invariant
                n <= self.max_level,
            decreases self.max_level - n,
        {
            n += 1;
        }
        n
    }

    /// Appends `(offset, value)` as the last entry. The head stands on every
    /// level; later nodes on a random number of them.
    pub fn append(&mut self, offset: u64, value: String)
        requires
            old(self).wf(),
            old(self).len_spec() > 0 ==> old(self).offset_at(old(self).len_spec() - 1) <= offset,
            old(self).len_spec() < u64::MAX,
        ensures
            final(self).wf(),
            final(self).top() == old(self).top(),
            final(self).len_spec() == old(self).len_spec() + 1,
            final(self).offset_at(old(self).len_spec() as int) == offset,
            final(self).command_at(old(self).len_spec() as int) == value@,
            forall|i: int|
                0 <= i < old(self).len_spec() ==> #[trigger] final(self).offset_at(i) == old(self).offset_at(i)
                    && final(self).command_at(i) == old(self).command_at(i),
    {
        let ghost s0 = *self;
        let m = self.nodes.len();
        let level = 1 + if m == 0 {
            self.max_level
        } else {
            self.get_level()
        };
        self.nodes.push(Node::new(no_links(level), offset, value));
        self.length = self.length + 1;
        proof {
            assert(self.height(m as int) == level);
            assert forall|i: int| 0 <= i < m implies #[trigger] self.nodes@[i] == s0.nodes@[i] by {}
        }
        let mut l: usize = 0;
        while l < level
            invariant
                s0.wf(),
                self.max_level == s0.max_level,
                self.length == s0.length + 1,
                level <= self.max_level + 1,
                m == s0.nodes@.len(),
                self.nodes@.len() == m + 1,
                self.tails@.len() == self.max_level + 1,
                l <= level,
                self.height(m as int) == level,
                self.offset_at(m as int) == offset,
                self.command_at(m as int) == value@,
                forall|j: int| 0 <= j < level ==> #[trigger] self.link(m as int, j) is None,
                forall|i: int|
                    0 <= i < m ==> #[trigger] self.height(i) == s0.height(i) && self.offset_at(i)
                        == s0.offset_at(i) && self.command_at(i) == s0.command_at(i),
                forall|i: int, j: int|
                    0 <= i < m && 0 <= j < self.height(i) && (j >= l || s0.tails@[j] != Some(
                        i as usize,
                    )) ==> #[trigger] self.link(i, j) == s0.link(i, j),
                forall|i: int, j: int|
                    0 <= i < m && 0 <= j < l && s0.tails@[j] == Some(i as usize) ==> #[trigger] self.link(i, j)
                        == Some(m),
                forall|j: int| 0 <= j < l ==> #[trigger] self.tails@[j] == Some(m),
                forall|j: int| l <= j <= self.max_level ==> #[trigger] self.tails@[j] == s0.tails@[j],
            decreases level - l,
        {
            let ghost before = *self;
            let cur_tail = self.tails[l];
            match cur_tail {
                Some(t) => {
                    proof {
                        assert(s0.tail_ok(l as int));
                        assert(s0.tails@[l as int] == Some(t));
                        assert(t < m);
                        assert(self.height(t as int) > l);
                    }
                    self.nodes[t].set_link(l, Some(m));
                },
                None => {},
            }
            self.tails.set(l, Some(m));
            proof {
                assert(cur_tail == s0.tails@[l as int]);
                assert forall|i: int|
                    0 <= i <= m && cur_tail != Some(i as usize) implies #[trigger] self.nodes@[i]
                        == before.nodes@[i] by {}
                if let Some(t) = cur_tail {
                    assert(self.nodes@[t as int].next@ == before.nodes@[t as int].next@.update(
                        l as int,
                        Some(m),
                    ));
                }
                assert forall|j: int| 0 <= j < level implies #[trigger] self.link(m as int, j) is None by {
                    assert(self.nodes@[m as int] == before.nodes@[m as int]);
                    assert(before.link(m as int, j) is None);
                }
                assert forall|i: int|
                    0 <= i < m implies #[trigger] self.height(i) == s0.height(i) && self.offset_at(i)
                        == s0.offset_at(i) && self.command_at(i) == s0.command_at(i) by {
                    assert(before.height(i) == s0.height(i));
                }
                assert forall|i: int, j: int|
                    0 <= i < m && 0 <= j < self.height(i) && (j >= l + 1 || s0.tails@[j] != Some(
                        i as usize,
                    )) implies #[trigger] self.link(i, j) == s0.link(i, j) by {
                    assert(before.height(i) == s0.height(i));
                    assert(before.link(i, j) == s0.link(i, j));
                }
                assert forall|i: int, j: int|
                    0 <= i < m && 0 <= j < l + 1 && s0.tails@[j] == Some(i as usize) implies #[trigger] self.link(
                        i,
                        j,
                    ) == Some(m) by {
                    if j < l {
                        assert(before.link(i, j) == Some(m));
                    }
                }
            }
            l += 1;
        }
        proof {
            assert(s0.wf());
            assert(s0.nodes@.len() == m);
            assert forall|i: int| 0 <= i < m implies #[trigger] self.offset_at(i) == s0.offset_at(i)
                && self.command_at(i) == s0.command_at(i) by {
                assert(self.height(i) == s0.height(i));
            }
            assert forall|i: int, j: int|
                0 <= i < self.nodes@.len() && 0 <= j < self.height(i) implies #[trigger] self.link_ok(i, j) by {
                if i < m {
                    assert(s0.link_ok(i, j));
                    if j < level && s0.tails@[j] == Some(i as usize) {
                        assert(s0.tail_ok(j));
                    } else {
                        match s0.link(i, j) {
                            Some(x) => {
                                assert forall|k: int| i < k < x implies #[trigger] self.height(k) <= j by {
                                    assert(s0.height(k) <= j);
                                }
                            },
                            None => {
                                if j < level {
                                    assert(s0.tail_ok(j));
                                    assert(s0.height(i) > j);
                                    match s0.tails@[j] {
                                        Some(t) => {
                                            if t < i {
                                                assert(s0.height(i) <= j);
                                            } else if i < t {
                                                assert(s0.height(t as int) <= j);
                                            }
                                        },
                                        None => {},
                                    }
                                }
                                assert forall|k: int| i < k < self.nodes@.len() implies #[trigger] self.height(k) <= j by {
                                    if k < m {
                                        assert(s0.height(k) <= j);
                                    }
                                }
                            },
                        }
                    }
                }
            }
            assert forall|j: int| 0 <= j <= self.max_level implies #[trigger] self.tail_ok(j) by {
                if j >= level {
                    assert(s0.tail_ok(j));
                    match s0.tails@[j] {
                        Some(t) => {
                            assert forall|k: int| t < k < self.nodes@.len() implies #[trigger] self.height(k) <= j by {
                                if k < m {
                                    assert(s0.height(k) <= j);
                                }
                            }
                        },
                        None => {
                            assert(m == 0);
                            assert(level == self.max_level + 1);
                        },
                    }
                }
            }
            assert forall|i: int, j: int|
                0 <= i <= j < self.nodes@.len() implies #[trigger] self.offset_at(i) <= #[trigger] self.offset_at(j) by {
                if j < m {
                    assert(self.offset_at(i) == s0.offset_at(i));
                    assert(self.offset_at(j) == s0.offset_at(j));
                    assert(s0.offset_at(i) <= s0.offset_at(j));
                } else if i < m {
                    assert(self.offset_at(i) == s0.offset_at(i));
                    assert(s0.offset_at(i) <= s0.offset_at(m - 1));
                }
            }
        }
    }

    /// The command of an entry with the given offset, if the list has one.
    /// The search runs from the head down the levels, moving right while the
    /// next node's offset does not pass the one sought.
    pub fn find(&self, offset: u64) -> (r: Option<String>)
        requires
            self.wf(),
        ensures
            r matches Some(c) ==> exists|i: int|
                0 <= i < self.len_spec() && self.offset_at(i) == offset && #[trigger] self.command_at(i)
                    == c@,
            r is None ==> forall|i: int| 0 <= i < self.len_spec() ==> #[trigger] self.offset_at(i) != offset,
    {
        let n = self.nodes.len();
        if n == 0 {
            return None;
        }
        let mut cur: usize = 0;
        let mut lv: usize = self.max_level + 1;
        while lv > 0
            invariant
                self.wf(),
                n == self.nodes@.len(),
                n > 0,
                lv <= self.max_level + 1,
                cur < n,
                self.height(cur as int) >= lv,
                cur == 0 || self.offset_at(cur as int) <= offset,
                lv <= self.max_level ==> match self.link(cur as int, lv as int) {
                    Some(j) => self.offset_at(j as int) > offset,
                    None => true,
                },
            decreases lv,
        {
            lv -= 1;
            loop
                invariant
                    self.wf(),
                    n == self.nodes@.len(),
                    lv <= self.max_level,
                    cur < n,
                    self.height(cur as int) > lv,
                    cur == 0 || self.offset_at(cur as int) <= offset,
                ensures
                    cur < n,
                    self.height(cur as int) > lv,
                    cur == 0 || self.offset_at(cur as int) <= offset,
                    match self.link(cur as int, lv as int) {
                        Some(j) => self.offset_at(j as int) > offset,
                        None => true,
                    },
                decreases n - cur,
            {
                proof {
                    assert(self.link_ok(cur as int, lv as int));
                }
                match self.nodes[cur].next[lv] {
                    Some(j) => {
                        if self.nodes[j].offset <= offset {
                            cur = j;
                        } else {
                            break;
                        }
                    },
                    None => {
                        break;
                    },
                }
            }
            proof {
                assert(self.height(cur as int) >= lv);
            }
        }
        proof {
            assert(self.link_ok(cur as int, 0));
            assert(self.height(cur as int) >= 1);
        }
        if self.nodes[cur].offset == offset {
            let c = self.nodes[cur].command.clone();
            assert(self.command_at(cur as int) == c@);
            Some(c)
        } else {
            proof {
                assert forall|i: int| 0 <= i < n implies #[trigger] self.offset_at(i) != offset by {
                    if i > cur as int {
                        match self.link(cur as int, 0) {
                            Some(j) => {
                                if (j as int) < i {
                                    assert(self.offset_at(j as int) <= self.offset_at(i));
                                } else if (j as int) > i {
                                    assert(self.height(i) >= 1);
                                }
                            },
                            None => {
                                assert(self.height(i) >= 1);
                            },
                        }
                    } else if i < cur as int {
                        assert(self.offset_at(i) <= self.offset_at(cur as int));
                    }
                }
            }
            None
        }
    }

    /// A cursor over level `level`, starting at the head.
    pub fn iter_level(&self, level: usize) -> (r: ListIterator)
        ensures
            r.current() == (if self.len_spec() > 0 {
                Some(0usize)
            } else {
                None
            }),
            r.level() == level,
    {
        let start = if self.nodes.len() > 0 {
            Some(0)
        } else {
            None
        };
        ListIterator::new(start, level)
    }
}

/// A cursor that walks one level of a skip list.
pub struct ListIterator {
    current: Option<usize>,
    level: usize,
}

impl ListIterator {
    pub closed spec fn current(&self) -> Option<usize> {
        self.current
    }

    pub closed spec fn level(&self) -> usize {
        self.level
    }

    pub fn new(start_at: Option<usize>, level: usize) -> (r: Self)
        ensures
            r.current() == start_at,
            r.level() == level,
    {
        ListIterator { current: start_at, level }
    }

    /// The entry under the cursor, after which the cursor moves to the next
    /// node of its level. `None` once the level is walked, or when the node
    /// does not stand on the cursor's level.
    pub fn next_entry(&mut self, list: &SkipList) -> (r: Option<(u64, String)>)
        requires
            list.wf(),
        ensures
            final(self).level() == old(self).level(),
            match old(self).current() {
                Some(i) if i < list.len_spec() && old(self).level() < list.height(i as int) => {
                    &&& r matches Some((o, c)) && o == list.offset_at(i as int) && c@ == list.command_at(
                        i as int,
                    )
                    &&& final(self).current() == list.link(i as int, old(self).level() as int)
                },
                _ => r is None && final(self).current() is None,
            },
    {
        match self.current {
            Some(i) => {
                if i < list.nodes.len() && self.level < list.nodes[i].next.len() {
                    let node = &list.nodes[i];
                    self.current = node.next[self.level];
                    Some((node.offset, node.command.clone()))
                } else {
                    self.current = None;
                    None
                }
            },
            None => None,
        }
    }
}

} // verus!
