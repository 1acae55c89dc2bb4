use vstd::prelude::*;
use std::collections::HashMap;
use crate::disk_manager::DiskManager;
use crate::disk_scheduler::{DiskRequest, DiskScheduler};
use crate::page::{Page, PageId, PAGE_SIZE, zero_page, zeroed_bytes};
use crate::replacer::{FrameId, LRUKReplacer, count_where, lemma_count_where_ext, lemma_count_where_tail};

verus! {

broadcast use vstd::std_specs::hash::group_hash_axioms;

#[derive(PartialEq, Eq, Structural, Clone, Copy, Debug)]
pub enum BpmError {
    /// Every frame is pinned: no frame can be had.
    OutOfFrames,
    /// The page id was never allocated.
    PageNotFound,
    /// The page is pinned.
    PageInUse,
    /// A disk request failed.
    IoError,
    /// The backing store could not grow.
    CapacityGrowthFailure,
}

/// Shared access to one pinned page. It is handed back to the pool with
/// `drop_read_guard`, which unpins the page.
pub struct ReadPageGuard {
    page_id: PageId,
    frame_id: FrameId,
}

/// Exclusive access to one pinned page. It is handed back to the pool with
/// `drop_write_guard`, which unpins the page.
pub struct WritePageGuard {
    page_id: PageId,
    frame_id: FrameId,
}

impl ReadPageGuard {
    pub closed spec fn page(&self) -> PageId {
        self.page_id
    }

    pub closed spec fn frame(&self) -> FrameId {
        self.frame_id
    }

    fn new(page_id: PageId, frame_id: FrameId) -> (r: Self)
        ensures
            r.page() == page_id,
            r.frame() == frame_id,
    {
        ReadPageGuard { page_id, frame_id }
    }

    pub fn page_id(&self) -> (r: PageId)
        ensures
            r == self.page(),
    {
        self.page_id
    }

    /// The bytes of the guarded page.
    pub fn read_page_data<'a>(&self, bpm: &'a BufferPoolManager) -> (r: &'a Vec<u8>)
        requires
            bpm.wf(),
            bpm.guards(self.page(), self.frame()),
        ensures
            r@ == bpm.content(self.page()),
    {
        bpm.frames[self.frame_id].lock_data()
    }
}

impl WritePageGuard {
    /// Copies `data` into the guarded page from `offset` on and marks the
    /// page dirty.
    pub fn write_page_data(&self, bpm: &mut BufferPoolManager, offset: usize, data: &[u8])
        requires
            old(bpm).wf(),
            old(bpm).guards(self.page(), self.frame()),
            offset + data@.len() <= PAGE_SIZE,
        ensures
            final(bpm).wf(),
            final(bpm).pool() == old(bpm).pool(),
            final(bpm).next_id() == old(bpm).next_id(),
            final(bpm).guards(self.page(), self.frame()),
            final(bpm).content(self.page()) == old(bpm).content(self.page()).take(offset as int)
                + data@ + old(bpm).content(self.page()).skip(offset + data@.len()),
            final(bpm).dirty_of(self.page()),
            forall|q: PageId|
                q != self.page() ==> #[trigger] final(bpm).content(q) == old(bpm).content(q),
            forall|q: PageId| #[trigger] final(bpm).pin_of(q) == old(bpm).pin_of(q),
            forall|q: PageId|
                q != self.page() ==> #[trigger] final(bpm).dirty_of(q) == old(bpm).dirty_of(q),
            forall|q: PageId| #[trigger] final(bpm).resident(q) == old(bpm).resident(q),
    {
        bpm.write_frame(self.page_id, self.frame_id, offset, data);
    }

    pub closed spec fn page(&self) -> PageId {
        self.page_id
    }

    pub closed spec fn frame(&self) -> FrameId {
        self.frame_id
    }

    fn new(page_id: PageId, frame_id: FrameId) -> (r: Self)
        ensures
            r.page() == page_id,
            r.frame() == frame_id,
    {
        WritePageGuard { page_id, frame_id }
    }

    pub fn page_id(&self) -> (r: PageId)
        ensures
            r == self.page(),
    {
        self.page_id
    }

    /// The bytes of the guarded page.
    pub fn read_page_data<'a>(&self, bpm: &'a BufferPoolManager) -> (r: &'a Vec<u8>)
        requires
            bpm.wf(),
            bpm.guards(self.page(), self.frame()),
        ensures
            r@ == bpm.content(self.page()),
    {
        bpm.frames[self.frame_id].lock_data()
    }
}

/// A pool of five frames over an empty backing store, with an LRU-2
/// replacer.
pub fn create_buffer_pool_manager() -> (r: BufferPoolManager)
    ensures
        r.wf(),
        r.pool() == 5,
        r.next_id() == 0,
        forall|f: FrameId|
            f < 5 ==> (#[trigger] r.frame(f)).held() is None && r.frame(f).pins() == 0
                && !r.frame(f).dirty(),
        r.replacer().k() == 2,
        r.replacer().evictable_count() == 0,
{
    BufferPoolManager::new(5, 2)
}

/// A fixed set of frames caching pages of the backing store.
pub struct BufferPoolManager {
    pool_size: usize,
    next_page_id: usize,
    frames: Vec<Page>,
    page_table: HashMap<PageId, FrameId>,
    free_list: Vec<FrameId>,
    replacer: LRUKReplacer,
    disk_scheduler: DiskScheduler,
}

impl BufferPoolManager {
    pub closed spec fn pool(&self) -> nat {
        self.pool_size as nat
    }

    /// Page ids below this one have been allocated.
    pub closed spec fn next_id(&self) -> nat {
        self.next_page_id as nat
    }

    pub closed spec fn resident(&self, p: PageId) -> bool {
        self.page_table@.contains_key(p)
    }

    /// The frame that holds a resident page.
    pub closed spec fn frame_of(&self, p: PageId) -> FrameId {
        self.page_table@[p]
    }

    pub closed spec fn frame(&self, f: FrameId) -> Page {
        self.frames@[f as int]
    }

    /// Pin count of a page; zero when it is not resident.
    pub open spec fn pin_of(&self, p: PageId) -> nat {
        if self.resident(p) {
            self.frame(self.frame_of(p)).pins()
        } else {
            0
        }
    }

    pub open spec fn dirty_of(&self, p: PageId) -> bool {
        self.resident(p) && self.frame(self.frame_of(p)).dirty()
    }

    pub closed spec fn disk(&self) -> DiskManager {
        self.disk_scheduler.disk()
    }

    pub closed spec fn replacer(&self) -> LRUKReplacer {
        self.replacer
    }

    /// Current bytes of page `p`: those of its frame while it is resident,
    /// otherwise those on disk.
    pub open spec fn content(&self, p: PageId) -> Seq<u8> {
        if self.resident(p) {
            self.frame(self.frame_of(p)).bytes()
        } else {
            self.disk().page_bytes(p)
        }
    }

    /// A guard for page `p` on frame `f` may be used.
    pub open spec fn guards(&self, p: PageId, f: FrameId) -> bool {
        &&& self.resident(p)
        &&& self.frame_of(p) == f
        &&& self.frame(f).pins() > 0
    }

    /// A frame whose page is resident and unpinned.
    pub open spec fn unpinned_resident(&self, f: FrameId) -> bool {
        f < self.pool() && self.frame(f).held() is Some && self.frame(f).pins() == 0
    }

    /// The page table's entry for `p` names a frame that holds `p`.
    pub closed spec fn entry_ok(&self, p: PageId) -> bool {
        &&& self.page_table@[p] < self.pool_size
        &&& self.frames@[self.page_table@[p] as int].held() == Some(p)
        &&& p < self.next_page_id
    }

    /// Frame `f` agrees with the page table, the replacer, the free list and
    /// the disk.
    pub closed spec fn frame_ok(&self, f: FrameId) -> bool {
        let fr = self.frames@[f as int];
        &&& fr.bytes().len() == PAGE_SIZE
        &&& fr.held() matches Some(p) ==> {
            &&& self.page_table@.contains_key(p)
            &&& self.page_table@[p] == f
            &&& self.replacer.is_tracked(f)
            &&& (self.replacer.evictable(f) <==> fr.pins() == 0)
            &&& !fr.dirty() ==> fr.bytes() == self.disk().page_bytes(p)
        }
        &&& fr.held() is None ==> {
            &&& fr.pins() == 0
            &&& !fr.dirty()
            &&& !self.replacer.is_tracked(f)
            &&& self.free_list@.contains(f)
        }
    }

    pub closed spec fn wf(&self) -> bool {
        &&& self.frames@.len() == self.pool_size
        &&& self.replacer.wf()
        &&& self.replacer.span() <= self.pool_size
        &&& self.disk_scheduler.wf()
        &&& self.disk_scheduler.pending().len() == 0
        &&& !self.disk_scheduler.is_shut_down()
        &&& self.disk().num_pages() <= self.next_page_id
        &&& forall|p: PageId| #[trigger] self.page_table@.contains_key(p) ==> self.entry_ok(p)
        &&& forall|f: FrameId| f < self.pool_size ==> #[trigger] self.frame_ok(f)
        &&& forall|i: int|
            0 <= i < self.free_list@.len() ==> {
                &&& #[trigger] self.free_list@[i] < self.pool_size
                &&& self.frames@[self.free_list@[i] as int].held() is None
            }
        &&& forall|i: int, j: int|
            0 <= i < j < self.free_list@.len() ==> #[trigger] self.free_list@[i]
                != #[trigger] self.free_list@[j]
    }

    /// A pool of `pool_size` free frames over an empty backing store, with
    /// an LRU-K replacer of depth `k_b_d`.
    pub fn new(pool_size: usize, k_b_d: usize) -> (r: Self)
        requires
            k_b_d >= 1,
        ensures
            r.wf(),
            r.pool() == pool_size,
            r.next_id() == 0,
            forall|p: PageId| !r.resident(p),
            forall|p: PageId| r.content(p) == zero_page(),
            forall|f: FrameId|
                f < pool_size ==> (#[trigger] r.frame(f)).held() is None && r.frame(f).pins() == 0
                    && !r.frame(f).dirty(),
            r.replacer().k() == k_b_d,
            r.replacer().evictable_count() == 0,
    {
        Self::with_disk_manager(DiskManager::new(), pool_size, k_b_d)
    }

    /// A pool of `pool_size` free frames over an existing backing store.
    /// Every page the store holds counts as allocated.
    pub fn with_disk_manager(disk_manager: DiskManager, pool_size: usize, k_b_d: usize) -> (r: Self)
        requires
            k_b_d >= 1,
            disk_manager.wf(),
        ensures
            r.wf(),
            r.pool() == pool_size,
            r.next_id() == disk_manager.num_pages(),
            forall|p: PageId| !r.resident(p),
            forall|p: PageId| r.content(p) == disk_manager.page_bytes(p),
            forall|f: FrameId|
                f < pool_size ==> (#[trigger] r.frame(f)).held() is None && r.frame(f).pins() == 0
                    && !r.frame(f).dirty(),
            r.replacer().k() == k_b_d,
            r.replacer().evictable_count() == 0,
    {
        let next = disk_manager.num_pages_exec();
        let mut frames: Vec<Page> = Vec::new();
        let mut free_list: Vec<FrameId> = Vec::new();
        let mut i: usize = 0;
        while i < pool_size
            invariant
                i <= pool_size,
                frames@.len() == i,
                free_list@.len() == i,
                forall|j: int| 0 <= j < i ==> #[trigger] free_list@[j] == j,
                forall|j: int|
                    0 <= j < i ==> {
                        &&& (#[trigger] frames@[j]).held() is None
                        &&& frames@[j].pins() == 0
                        &&& !frames@[j].dirty()
                        &&& frames@[j].bytes() == zero_page()
                    },
            decreases pool_size - i,
        {
            frames.push(Page::free_frame());
            free_list.push(i);
            i += 1;
        }
        let r = BufferPoolManager {
            pool_size,
            next_page_id: next,
            frames,
            page_table: HashMap::new(),
            free_list,
            replacer: LRUKReplacer::new(k_b_d),
            disk_scheduler: DiskScheduler::new(disk_manager),
        };
        proof {
            assert forall|f: FrameId| f < r.pool_size implies r.free_list@.contains(f) by {
                assert(r.free_list@[f as int] == f);
            }
        }
        r
    }

    /// Some frame of the pool holds no page.
    pub open spec fn has_free_frame(&self) -> bool {
        exists|f: FrameId| f < self.pool() && (#[trigger] self.frame(f)).held() is None
    }

    /// `after` is `before` with `page_id`, which was not resident, installed
    /// on frame `f`, pinned once, clean and not evictable. The frame was a
    /// free one if `before` had any; otherwise it held an unpinned page, the
    /// only page that left the pool. Every page that stays keeps its frame and
    /// its dirty flag.
    pub open spec fn placed(before: Self, after: Self, page_id: PageId, f: FrameId) -> bool {
        &&& f < before.pool()
        &&& !before.resident(page_id)
        &&& after.resident(page_id)
        &&& after.frame_of(page_id) == f
        &&& after.frame(f).pins() == 1
        &&& !after.frame(f).dirty()
        &&& !after.replacer().evictable(f)
        &&& before.has_free_frame() ==> before.frame(f).held() is None
        &&& !before.has_free_frame() ==> (before.frame(f).held() matches Some(v) && before.resident(v)
            && before.frame_of(v) == f && before.pin_of(v) == 0)
        &&& forall|q: PageId|
            q != page_id && #[trigger] before.resident(q) && !after.resident(q) ==> before.frame(f).held()
                == Some(q)
        &&& forall|q: PageId|
            q != page_id && #[trigger] after.resident(q) ==> before.resident(q) && after.frame_of(q)
                == before.frame_of(q) && after.dirty_of(q) == before.dirty_of(q)
        &&& after.pool() == before.pool()
        &&& forall|g: FrameId|
            g != f && g < before.pool() ==> (#[trigger] after.frame(g)).held() == before.frame(g).held()
                && after.frame(g).pins() == before.frame(g).pins() && after.frame(g).dirty()
                == before.frame(g).dirty()
    }

    /// Every page keeps its residency, its frame and its dirty flag.
    pub open spec fn kept_frames(before: Self, after: Self) -> bool {
        forall|q: PageId|
            #[trigger] after.resident(q) == before.resident(q) && (before.resident(q) ==> after.frame_of(q)
                == before.frame_of(q) && after.dirty_of(q) == before.dirty_of(q))
    }

    /// Every frame of the pool is pinned.
    pub open spec fn all_pinned(&self) -> bool {
        forall|f: FrameId| f < self.pool() ==> #[trigger] self.frame(f).pins() > 0
    }

    /// Finds a frame for `page_id` and installs the page there, pinned once
    /// and clean. The frame is a free one if any is left; otherwise the
    /// replacer's victim, whose bytes are first written back when dirty. The
    /// page's bytes are read from disk when `load` holds, and are zero
    /// otherwise. No page's content changes.
    fn bring_in(&mut self, page_id: PageId, load: bool) -> (r: Result<FrameId, BpmError>)
        requires
            old(self).wf(),
            !old(self).resident(page_id),
            page_id < old(self).next_id(),
            !load ==> old(self).disk().page_bytes(page_id) == zero_page(),
        ensures
            final(self).wf(),
            final(self).pool() == old(self).pool(),
            final(self).next_id() == old(self).next_id(),
            r is Err <==> old(self).all_pinned(),
            r is Err ==> r == Err::<FrameId, BpmError>(BpmError::OutOfFrames) && *final(self)
                == *old(self),
            r matches Ok(f) ==> Self::placed(*old(self), *final(self), page_id, f),
            forall|q: PageId| #[trigger] final(self).content(q) == old(self).content(q),
            forall|q: PageId| q != page_id ==> #[trigger] final(self).pin_of(q) == old(self).pin_of(q),
            forall|q: PageId|
                #[trigger] old(self).resident(q) && old(self).pin_of(q) > 0 ==> final(self).resident(q),
            forall|q: PageId|
                #[trigger] old(self).dirty_of(q) && !final(self).resident(q) ==> final(self).disk().page_bytes(q)
                    == old(self).content(q),
    {
        let ghost s0 = *self;
        let ghost mut evicted: Option<PageId> = None;
        let f: FrameId;
        if self.free_list.len() > 0 {
            f = self.free_list.pop().unwrap();
            proof {
                let n = s0.free_list@.len() - 1;
                assert(self.free_list@ =~= s0.free_list@.take(n));
                assert(s0.free_list@[n] == f);
                assert forall|g: FrameId|
                    g < self.pool_size && self.frames@[g as int].held() is None && g != f
                        implies self.free_list@.contains(g) by {
                    assert(s0.frame_ok(g));
                    let i = choose|i: int| 0 <= i < s0.free_list@.len() && s0.free_list@[i] == g;
                    assert(i != n);
                    assert(self.free_list@[i] == g);
                }
                assert forall|i: int| 0 <= i < self.free_list@.len() implies #[trigger] self.free_list@[i] != f by {
                    assert(s0.free_list@[i] != s0.free_list@[n]);
                }
                assert(s0.frame_ok(f));
                assert(s0.frame(f).pins() == 0);
                assert(s0.frames@[s0.free_list@[n] as int].held() is None);
                assert(s0.frame(f).held() is None);
                assert(s0.has_free_frame());
            }
        } else {
            proof {
                assert forall|g: FrameId| g < self.pool_size implies self.frames@[g as int].held() is Some by {
                    assert(s0.frame_ok(g));
                }
                assert(!s0.has_free_frame());
            }
            let victim = self.replacer.Evict();
            match victim {
                None => {
                    proof {
                        assert forall|g: FrameId| g < self.pool() implies #[trigger] self.frame(g).pins() > 0 by {
                            assert(s0.frame_ok(g));
                        }
                    }
                    return Err(BpmError::OutOfFrames);
                },
                Some(v) => {
                    proof {
                        if v >= self.pool_size {
                            s0.replacer.lemma_untracked_beyond_span(v);
                        }
                        assert(s0.frame_ok(v));
                        assert(s0.frame(v).pins() == 0);
                    }
                    let old_p = self.frames[v].page_id().unwrap();
                    proof {
                        evicted = Some(old_p);
                        assert(s0.entry_ok(old_p));
                    }
                    if self.frames[v].is_dirty() {
                        let data = self.frames[v].lock_data().clone();
                        let request = DiskRequest { is_write: true, page_id: old_p, data };
                        let written = self.disk_scheduler.schedule_and_wait(request);
                        match written {
                            Ok(_) => {},
                            Err(_) => {
                                proof {
                                    assert(false);
                                }
                                return Err(BpmError::IoError);
                            },
                        }
                    }
                    self.page_table.remove(&old_p);
                    self.frames[v].set_page_id(None);
                    self.frames[v].clear_dirty();
                    f = v;
                    proof {
                        assert(!self.free_list@.contains(f)) by {
                            if self.free_list@.contains(f) {
                                let i = choose|i: int| 0 <= i < self.free_list@.len() && self.free_list@[i] == f;
                                assert(self.free_list@.len() == 0);
                            }
                        }
                    }
                }
            }
        }
        let ghost s1 = *self;
        proof {
            assert(s1.disk().page_bytes(page_id) == s0.disk().page_bytes(page_id));
            s1.disk().lemma_page_len(page_id);
        }
        let bytes = if load {
            let request = DiskRequest { is_write: false, page_id, data: Vec::new() };
            let read = self.disk_scheduler.schedule_and_wait(request);
            match read {
                Ok(v) => v,
                Err(_) => {
                    proof {
                        assert(false);
                    }
                    return Err(BpmError::IoError);
                },
            }
        } else {
            zeroed_bytes(PAGE_SIZE)
        };
        self.frames[f].set_data(bytes);
        self.frames[f].set_page_id(Some(page_id));
        self.frames[f].pin();
        self.page_table.insert(page_id, f);
        self.replacer.RecordAccess(f);
        proof {
            assert(!s1.replacer.is_tracked(f));
            assert forall|g: FrameId| g < self.pool_size implies #[trigger] self.frame_ok(g) by {
                if g != f {
                    assert(s0.frame_ok(g));
                    assert(self.replacer.agrees_at(&s1.replacer, g));
                    assert(s1.replacer.agrees_at(&s0.replacer, g));
                    assert(self.frames@[g as int] == s0.frames@[g as int]);
                }
            }
            assert forall|p: PageId| #[trigger] self.page_table@.contains_key(p) implies self.entry_ok(p) by {
                if p != page_id {
                    assert(s0.entry_ok(p));
                }
            }
            assert forall|q: PageId| #[trigger] self.content(q) == s0.content(q) by {
                if s0.resident(q) {
                    assert(s0.entry_ok(q));
                    assert(s0.frame_ok(s0.frame_of(q)));
                }
            }
            assert forall|q: PageId| q != page_id implies #[trigger] self.pin_of(q) == s0.pin_of(q) by {
                if s0.resident(q) {
                    assert(s0.entry_ok(q));
                    assert(s0.frame_ok(s0.frame_of(q)));
                }
            }
            assert forall|q: PageId| #[trigger] s0.resident(q) && s0.pin_of(q) > 0 implies self.resident(q) by {
                assert(s0.entry_ok(q));
            }
            assert(self.frame(f).held() == Some(page_id));
            assert forall|q: PageId|
                q != page_id && #[trigger] s0.resident(q) && !self.resident(q) implies s0.frame(f).held()
                    == Some(q) by {
                assert(evicted == Some(q));
            }
            assert forall|q: PageId|
                q != page_id && #[trigger] self.resident(q) implies s0.resident(q) && self.frame_of(q)
                    == s0.frame_of(q) && self.dirty_of(q) == s0.dirty_of(q) by {
                assert(s0.entry_ok(q));
            }
            if !s0.has_free_frame() {
                let v = evicted.unwrap();
                assert(s0.entry_ok(v));
            }
            assert forall|g: FrameId| g != f && g < s0.pool() implies #[trigger] self.frame(g) == s0.frame(g) by {}
        }
        Ok(f)
    }

    /// Allocates the next page id and installs a zeroed page for it,
    /// pinned once; fails with `OutOfFrames` when every frame is pinned.
    pub fn new_page(&mut self) -> (r: Result<WritePageGuard, BpmError>)
        requires
            old(self).wf(),
            old(self).next_id() < usize::MAX,
        ensures
            final(self).wf(),
            final(self).pool() == old(self).pool(),
            r is Err <==> old(self).all_pinned(),
            r is Err ==> r == Err::<WritePageGuard, BpmError>(BpmError::OutOfFrames) && *final(self)
                == *old(self),
            r matches Ok(g) ==> {
                &&& Self::placed(*old(self), *final(self), g.page(), g.frame())
                &&& g.page() == old(self).next_id()
                &&& final(self).next_id() == old(self).next_id() + 1
                &&& final(self).guards(g.page(), g.frame())
                &&& final(self).pin_of(g.page()) == 1
                &&& !final(self).dirty_of(g.page())
                &&& final(self).content(g.page()) == zero_page()
                &&& forall|q: PageId|
                    q != g.page() ==> #[trigger] final(self).content(q) == old(self).content(q)
                &&& forall|q: PageId|
                    q != g.page() ==> #[trigger] final(self).pin_of(q) == old(self).pin_of(q)
            },
            forall|q: PageId|
                #[trigger] old(self).dirty_of(q) && !final(self).resident(q) ==> final(self).disk().page_bytes(q)
                    == old(self).content(q),
    {
        let ghost s0 = *self;
        let page_id = self.next_page_id;
        self.next_page_id = self.next_page_id + 1;
        proof {
            assert forall|p: PageId| #[trigger] self.page_table@.contains_key(p) implies self.entry_ok(p) by {
                assert(s0.entry_ok(p));
            }
            assert forall|f: FrameId| f < self.pool_size implies #[trigger] self.frame_ok(f) by {
                assert(s0.frame_ok(f));
            }
            if s0.resident(page_id) {
                assert(s0.entry_ok(page_id));
            }
            s0.disk().lemma_beyond_written(page_id);
            assert forall|q: PageId| #[trigger] self.dirty_of(q) == s0.dirty_of(q) && self.content(q) == s0.content(q) && self.resident(q) == s0.resident(q) by {}
            if s0.all_pinned() {
                assert forall|g: FrameId| g < self.pool() implies #[trigger] self.frame(g).pins() > 0 by {
                    assert(s0.frame(g).pins() > 0);
                }
            }
            if self.all_pinned() {
                assert forall|g: FrameId| g < s0.pool() implies #[trigger] s0.frame(g).pins() > 0 by {
                    assert(self.frame(g).pins() > 0);
                }
            }
        }
        let ghost s_mid = *self;
        match self.bring_in(page_id, false) {
            Ok(f) => {
                proof {
                    assert forall|q: PageId|
                        #[trigger] s0.dirty_of(q) && !self.resident(q) implies self.disk().page_bytes(q)
                            == s0.content(q) by {
                        assert(s_mid.dirty_of(q));
                    }
                    assert(s0.content(page_id) == zero_page());
                    assert forall|q: PageId| #[trigger] self.content(q) == s0.content(q) by {
                        assert(self.content(q) == s0.content(q));
                    }
                    assert(s_mid.frames == s0.frames);
                    assert(s_mid.page_table == s0.page_table);
                    assert(s_mid.pool_size == s0.pool_size);
                    assert forall|g: FrameId| #[trigger] s_mid.frame(g) == s0.frame(g) by {}
                    if s0.has_free_frame() {
                        let w = choose|w: FrameId| w < s0.pool() && (#[trigger] s0.frame(w)).held() is None;
                        assert(s_mid.frame(w) == s0.frame(w));
                    }
                    if s_mid.has_free_frame() {
                        let w = choose|w: FrameId| w < s_mid.pool() && (#[trigger] s_mid.frame(w)).held() is None;
                        assert(s_mid.frame(w) == s0.frame(w));
                    }
                    assert forall|q: PageId|
                        q != page_id && #[trigger] s0.resident(q) && !self.resident(q) implies s0.frame(f).held()
                            == Some(q) by {
                        assert(s_mid.resident(q));
                    }
                    assert forall|q: PageId|
                        q != page_id && #[trigger] self.resident(q) implies s0.resident(q) && self.frame_of(q)
                            == s0.frame_of(q) && self.dirty_of(q) == s0.dirty_of(q) by {
                        assert(s_mid.resident(q) ==> s_mid.frame_of(q) == s0.frame_of(q));
                    }
                    assert forall|g: FrameId| g != f && g < s0.pool() implies #[trigger] self.frame(g).held()
                        == s0.frame(g).held() by {
                        assert(s_mid.frame(g) == s0.frame(g));
                    }
                    if !s0.has_free_frame() {
                        assert(s_mid.frame(f) == s0.frame(f));
                        let v = s0.frame(f).held().unwrap();
                        assert(s_mid.resident(v));
                    }
                }
                Ok(WritePageGuard::new(page_id, f))
            },
            Err(e) => {
                self.next_page_id = page_id;
                assert(*self == s0);
                Err(e)
            },
        }
    }

    /// Pins `page_id`, bringing it in from disk when it is not resident.
    fn pin_page(&mut self, page_id: PageId) -> (r: Result<FrameId, BpmError>)
        requires
            old(self).wf(),
            old(self).pin_of(page_id) < usize::MAX,
        ensures
            final(self).wf(),
            final(self).pool() == old(self).pool(),
            final(self).next_id() == old(self).next_id(),
            page_id >= old(self).next_id() ==> r == Err::<FrameId, BpmError>(BpmError::PageNotFound),
            page_id < old(self).next_id() ==> (r is Err <==> !old(self).resident(page_id)
                && old(self).all_pinned()),
            page_id < old(self).next_id() && r is Err ==> r == Err::<FrameId, BpmError>(
                BpmError::OutOfFrames,
            ),
            r is Err ==> *final(self) == *old(self),
            r matches Ok(f) ==> {
                &&& final(self).guards(page_id, f)
                &&& final(self).pin_of(page_id) == old(self).pin_of(page_id) + 1
                &&& final(self).dirty_of(page_id) == old(self).dirty_of(page_id)
                &&& !old(self).resident(page_id) ==> Self::placed(*old(self), *final(self), page_id, f)
                &&& old(self).resident(page_id) ==> Self::kept_frames(*old(self), *final(self))
            },
            forall|q: PageId| #[trigger] final(self).content(q) == old(self).content(q),
            forall|q: PageId| q != page_id ==> #[trigger] final(self).pin_of(q) == old(self).pin_of(q),
            forall|q: PageId|
                #[trigger] old(self).dirty_of(q) && !final(self).resident(q) ==> final(self).disk().page_bytes(q)
                    == old(self).content(q),
    {
        if page_id >= self.next_page_id {
            return Err(BpmError::PageNotFound);
        }
        let ghost s0 = *self;
        let found = match self.page_table.get(&page_id) {
            Some(f) => Some(*f),
            None => None,
        };
        match found {
            Some(f) => {
                proof {
                    assert(s0.entry_ok(page_id));
                    assert(s0.frame_ok(f));
                }
                self.frames[f].pin();
                self.replacer.RecordAccess(f);
                let ghost r1 = self.replacer;
                self.replacer.SetEvictable(f, false);
                proof {
                    assert forall|g: FrameId| g < self.pool_size implies #[trigger] self.frame_ok(g) by {
                        if g != f {
                            assert(s0.frame_ok(g));
                            assert(self.replacer.agrees_at(&r1, g));
                            assert(r1.agrees_at(&s0.replacer, g));
                        }
                    }
                    assert forall|p: PageId| #[trigger] self.page_table@.contains_key(p) implies self.entry_ok(p) by {
                        assert(s0.entry_ok(p));
                    }
                    assert forall|q: PageId| #[trigger] self.content(q) == s0.content(q) by {
                        if s0.resident(q) {
                            assert(s0.entry_ok(q));
                        }
                    }
                    assert forall|q: PageId| q != page_id implies #[trigger] self.pin_of(q) == s0.pin_of(q) by {
                        if s0.resident(q) {
                            assert(s0.entry_ok(q));
                        }
                    }
                }
                Ok(f)
            },
            None => self.bring_in(page_id, true),
        }
    }

    /// A read guard on `page_id`. Fails with `PageNotFound` when the id was
    /// never allocated, and with `OutOfFrames` when the page is not resident
    /// and every frame is pinned.
    pub fn fetch_read_page(&mut self, page_id: PageId) -> (r: Result<ReadPageGuard, BpmError>)
        requires
            old(self).wf(),
            old(self).pin_of(page_id) < usize::MAX,
        ensures
            final(self).wf(),
            final(self).pool() == old(self).pool(),
            final(self).next_id() == old(self).next_id(),
            page_id >= old(self).next_id() ==> r == Err::<ReadPageGuard, BpmError>(
                BpmError::PageNotFound,
            ),
            page_id < old(self).next_id() ==> (r is Err <==> !old(self).resident(page_id)
                && old(self).all_pinned()),
            page_id < old(self).next_id() && r is Err ==> r == Err::<ReadPageGuard, BpmError>(
                BpmError::OutOfFrames,
            ),
            r is Err ==> *final(self) == *old(self),
            r matches Ok(g) ==> {
                &&& g.page() == page_id
                &&& final(self).guards(page_id, g.frame())
                &&& final(self).pin_of(page_id) == old(self).pin_of(page_id) + 1
                &&& final(self).dirty_of(page_id) == old(self).dirty_of(page_id)
                &&& !old(self).resident(page_id) ==> Self::placed(
                    *old(self),
                    *final(self),
                    page_id,
                    g.frame(),
                )
                &&& old(self).resident(page_id) ==> Self::kept_frames(*old(self), *final(self))
            },
            forall|q: PageId| #[trigger] final(self).content(q) == old(self).content(q),
            forall|q: PageId| q != page_id ==> #[trigger] final(self).pin_of(q) == old(self).pin_of(q),
            forall|q: PageId|
                #[trigger] old(self).dirty_of(q) && !final(self).resident(q) ==> final(self).disk().page_bytes(q)
                    == old(self).content(q),
    {
        match self.pin_page(page_id) {
            Ok(f) => Ok(ReadPageGuard::new(page_id, f)),
            Err(e) => Err(e),
        }
    }

    /// A write guard on `page_id`; fails as `fetch_read_page` does.
    pub fn fetch_write_page(&mut self, page_id: PageId) -> (r: Result<WritePageGuard, BpmError>)
        requires
            old(self).wf(),
            old(self).pin_of(page_id) < usize::MAX,
        ensures
            final(self).wf(),
            final(self).pool() == old(self).pool(),
            final(self).next_id() == old(self).next_id(),
            page_id >= old(self).next_id() ==> r == Err::<WritePageGuard, BpmError>(
                BpmError::PageNotFound,
            ),
            page_id < old(self).next_id() ==> (r is Err <==> !old(self).resident(page_id)
                && old(self).all_pinned()),
            page_id < old(self).next_id() && r is Err ==> r == Err::<WritePageGuard, BpmError>(
                BpmError::OutOfFrames,
            ),
            r is Err ==> *final(self) == *old(self),
            r matches Ok(g) ==> {
                &&& g.page() == page_id
                &&& final(self).guards(page_id, g.frame())
                &&& final(self).pin_of(page_id) == old(self).pin_of(page_id) + 1
                &&& final(self).dirty_of(page_id) == old(self).dirty_of(page_id)
                &&& !old(self).resident(page_id) ==> Self::placed(
                    *old(self),
                    *final(self),
                    page_id,
                    g.frame(),
                )
                &&& old(self).resident(page_id) ==> Self::kept_frames(*old(self), *final(self))
            },
            forall|q: PageId| #[trigger] final(self).content(q) == old(self).content(q),
            forall|q: PageId| q != page_id ==> #[trigger] final(self).pin_of(q) == old(self).pin_of(q),
            forall|q: PageId|
                #[trigger] old(self).dirty_of(q) && !final(self).resident(q) ==> final(self).disk().page_bytes(q)
                    == old(self).content(q),
    {
        match self.pin_page(page_id) {
            Ok(f) => Ok(WritePageGuard::new(page_id, f)),
            Err(e) => Err(e),
        }
    }

    /// Unpins the page of a guard; when its pin count reaches zero the
    /// frame becomes evictable.
    fn unpin_page(&mut self, page_id: PageId, f: FrameId)
        requires
            old(self).wf(),
            old(self).guards(page_id, f),
        ensures
            final(self).wf(),
            final(self).pool() == old(self).pool(),
            final(self).next_id() == old(self).next_id(),
            final(self).resident(page_id),
            final(self).pin_of(page_id) == old(self).pin_of(page_id) - 1,
            final(self).replacer().evictable(f) <==> final(self).pin_of(page_id) == 0,
            forall|q: PageId| #[trigger] final(self).content(q) == old(self).content(q),
            forall|q: PageId| q != page_id ==> #[trigger] final(self).pin_of(q) == old(self).pin_of(q),
            forall|q: PageId| #[trigger] final(self).dirty_of(q) == old(self).dirty_of(q),
            forall|q: PageId| #[trigger] final(self).resident(q) == old(self).resident(q),
    {
        let ghost s0 = *self;
        proof {
            assert(s0.entry_ok(page_id));
            assert(s0.frame_ok(f));
        }
        self.frames[f].unpin();
        let ghost r0 = self.replacer;
        if self.frames[f].get_pin_count() == 0 {
            self.replacer.SetEvictable(f, true);
        }
        proof {
            assert forall|g: FrameId| g < self.pool_size implies #[trigger] self.frame_ok(g) by {
                if g != f {
                    assert(s0.frame_ok(g));
                    assert(self.replacer.agrees_at(&r0, g));
                }
            }
            assert forall|p: PageId| #[trigger] self.page_table@.contains_key(p) implies self.entry_ok(p) by {
                assert(s0.entry_ok(p));
            }
            assert forall|q: PageId| #[trigger] self.content(q) == s0.content(q) by {
                if s0.resident(q) {
                    assert(s0.entry_ok(q));
                }
            }
            assert forall|q: PageId| q != page_id implies #[trigger] self.pin_of(q) == s0.pin_of(q) by {
                if s0.resident(q) {
                    assert(s0.entry_ok(q));
                }
            }
            assert forall|q: PageId| #[trigger] self.dirty_of(q) == s0.dirty_of(q) by {
                if s0.resident(q) {
                    assert(s0.entry_ok(q));
                }
            }
        }
    }

    /// Hands a read guard back: the page's pin count drops by exactly one.
    pub fn drop_read_guard(&mut self, guard: ReadPageGuard)
        requires
            old(self).wf(),
            old(self).guards(guard.page(), guard.frame()),
        ensures
            final(self).wf(),
            final(self).pool() == old(self).pool(),
            final(self).next_id() == old(self).next_id(),
            final(self).pin_of(guard.page()) == old(self).pin_of(guard.page()) - 1,
            final(self).replacer().evictable(guard.frame()) <==> final(self).pin_of(guard.page()) == 0,
            forall|q: PageId| #[trigger] final(self).content(q) == old(self).content(q),
            forall|q: PageId|
                q != guard.page() ==> #[trigger] final(self).pin_of(q) == old(self).pin_of(q),
            forall|q: PageId| #[trigger] final(self).dirty_of(q) == old(self).dirty_of(q),
            forall|q: PageId| #[trigger] final(self).resident(q) == old(self).resident(q),
    {
        self.unpin_page(guard.page_id, guard.frame_id);
    }

    /// Hands a write guard back: the page's pin count drops by exactly one.
    pub fn drop_write_guard(&mut self, guard: WritePageGuard)
        requires
            old(self).wf(),
            old(self).guards(guard.page(), guard.frame()),
        ensures
            final(self).wf(),
            final(self).pool() == old(self).pool(),
            final(self).next_id() == old(self).next_id(),
            final(self).pin_of(guard.page()) == old(self).pin_of(guard.page()) - 1,
            final(self).replacer().evictable(guard.frame()) <==> final(self).pin_of(guard.page()) == 0,
            forall|q: PageId| #[trigger] final(self).content(q) == old(self).content(q),
            forall|q: PageId|
                q != guard.page() ==> #[trigger] final(self).pin_of(q) == old(self).pin_of(q),
            forall|q: PageId| #[trigger] final(self).dirty_of(q) == old(self).dirty_of(q),
            forall|q: PageId| #[trigger] final(self).resident(q) == old(self).resident(q),
    {
        self.unpin_page(guard.page_id, guard.frame_id);
    }

    /// Copies `data` into the page of a write guard from `offset` on, and
    /// marks the page dirty.
    fn write_frame(&mut self, page_id: PageId, f: FrameId, offset: usize, data: &[u8])
        requires
            old(self).wf(),
            old(self).guards(page_id, f),
            offset + data@.len() <= PAGE_SIZE,
        ensures
            final(self).wf(),
            final(self).pool() == old(self).pool(),
            final(self).next_id() == old(self).next_id(),
            final(self).guards(page_id, f),
            final(self).content(page_id) == old(self).content(page_id).take(offset as int) + data@
                + old(self).content(page_id).skip(offset + data@.len()),
            final(self).dirty_of(page_id),
            forall|q: PageId| q != page_id ==> #[trigger] final(self).content(q) == old(self).content(q),
            forall|q: PageId| #[trigger] final(self).pin_of(q) == old(self).pin_of(q),
            forall|q: PageId| q != page_id ==> #[trigger] final(self).dirty_of(q) == old(self).dirty_of(q),
            forall|q: PageId| #[trigger] final(self).resident(q) == old(self).resident(q),
    {
        let ghost s0 = *self;
        proof {
            assert(s0.entry_ok(page_id));
            assert(s0.frame_ok(f));
        }
        self.frames[f].write_data(offset, data);
        self.frames[f].mark_dirty();
        proof {
            assert forall|g: FrameId| g < self.pool_size implies #[trigger] self.frame_ok(g) by {
                if g != f {
                    assert(s0.frame_ok(g));
                }
            }
            assert forall|p: PageId| #[trigger] self.page_table@.contains_key(p) implies self.entry_ok(p) by {
                assert(s0.entry_ok(p));
            }
            assert forall|q: PageId| q != page_id implies #[trigger] self.content(q) == s0.content(q) by {
                if s0.resident(q) {
                    assert(s0.entry_ok(q));
                }
            }
            assert forall|q: PageId| #[trigger] self.pin_of(q) == s0.pin_of(q) by {
                if s0.resident(q) {
                    assert(s0.entry_ok(q));
                }
            }
            assert forall|q: PageId| q != page_id implies #[trigger] self.dirty_of(q) == s0.dirty_of(q) by {
                if s0.resident(q) {
                    assert(s0.entry_ok(q));
                }
            }
        }
    }

    /// Deletes an unpinned page: its frame is zeroed and freed and the
    /// replacer forgets it. Returns false, changing nothing, when the page is
    /// pinned. A page that is not resident is left as it is.
    pub fn delete_page(&mut self, page_id: PageId) -> (r: bool)
        requires
            old(self).wf(),
        ensures
            final(self).wf(),
            final(self).pool() == old(self).pool(),
            final(self).next_id() == old(self).next_id(),
            r <==> old(self).pin_of(page_id) == 0,
            !r ==> *final(self) == *old(self),
            r ==> !final(self).resident(page_id),
            forall|q: PageId| q != page_id ==> #[trigger] final(self).content(q) == old(self).content(q),
            forall|q: PageId| q != page_id ==> #[trigger] final(self).pin_of(q) == old(self).pin_of(q),
            forall|q: PageId| q != page_id ==> #[trigger] final(self).resident(q) == old(self).resident(q),
            forall|q: PageId|
                q != page_id && #[trigger] old(self).resident(q) ==> final(self).frame_of(q) == old(self).frame_of(q)
                    && final(self).dirty_of(q) == old(self).dirty_of(q),
            !old(self).resident(page_id) ==> *final(self) == *old(self),
            r && old(self).resident(page_id) ==> {
                let f = old(self).frame_of(page_id);
                &&& f < final(self).pool()
                &&& final(self).frame(f).held() is None
                &&& final(self).frame(f).pins() == 0
                &&& !final(self).frame(f).dirty()
                &&& final(self).frame(f).bytes() == zero_page()
                &&& !final(self).replacer().is_tracked(f)
                &&& final(self).replacer().evictable_count() + 1 == old(self).replacer().evictable_count()
            },
    {
        let ghost s0 = *self;
        let found = match self.page_table.get(&page_id) {
            Some(f) => Some(*f),
            None => None,
        };
        match found {
            None => true,
            Some(f) => {
                proof {
                    assert(s0.entry_ok(page_id));
                    assert(s0.frame_ok(f));
                }
                if self.frames[f].get_pin_count() > 0 {
                    return false;
                }
                self.page_table.remove(&page_id);
                self.frames[f].reset_memory();
                proof {
                    assert(!self.free_list@.contains(f)) by {
                        if self.free_list@.contains(f) {
                            let i = choose|i: int| 0 <= i < self.free_list@.len() && self.free_list@[i] == f;
                            assert(s0.frames@[s0.free_list@[i] as int].held() is None);
                        }
                    }
                }
                self.free_list.push(f);
                self.replacer.Remove(f);
                proof {
                    assert forall|g: FrameId| g < self.pool_size implies #[trigger] self.frame_ok(g) by {
                        if g != f {
                            assert(s0.frame_ok(g));
                            assert(self.replacer.agrees_at(&s0.replacer, g));
                            if s0.frames@[g as int].held() is None {
                                let i = choose|i: int|
                                    0 <= i < s0.free_list@.len() && s0.free_list@[i] == g;
                                assert(self.free_list@[i] == g);
                            }
                        } else {
                            assert(self.free_list@[self.free_list@.len() - 1] == f);
                        }
                    }
                    assert forall|p: PageId| #[trigger] self.page_table@.contains_key(p) implies self.entry_ok(p) by {
                        assert(s0.entry_ok(p));
                    }
                    assert forall|i: int| 0 <= i < self.free_list@.len() implies {
                        &&& #[trigger] self.free_list@[i] < self.pool_size
                        &&& self.frames@[self.free_list@[i] as int].held() is None
                    } by {
                        if i < s0.free_list@.len() {
                            assert(s0.free_list@[i] == self.free_list@[i]);
                        }
                    }
                    assert forall|i: int, j: int|
                        0 <= i < j < self.free_list@.len() implies #[trigger] self.free_list@[i]
                            != #[trigger] self.free_list@[j] by {
                        if j == s0.free_list@.len() {
                            assert(s0.free_list@.contains(self.free_list@[i]));
                        }
                    }
                    assert forall|q: PageId| q != page_id implies #[trigger] self.content(q) == s0.content(q) by {
                        if s0.resident(q) {
                            assert(s0.entry_ok(q));
                        }
                    }
                    assert forall|q: PageId| q != page_id implies #[trigger] self.pin_of(q) == s0.pin_of(q) by {
                        if s0.resident(q) {
                            assert(s0.entry_ok(q));
                        }
                    }
                    assert forall|q: PageId|
                        q != page_id && #[trigger] s0.resident(q) implies self.frame_of(q) == s0.frame_of(q)
                            && self.dirty_of(q) == s0.dirty_of(q) by {
                        assert(s0.entry_ok(q));
                    }
                    assert(s0.replacer.evictable(f));
                }
                true
            },
        }
    }

    /// Writes a resident page's bytes to disk and then marks it clean. A page
    /// that is not resident already has its bytes on disk. Fails with
    /// `PageNotFound` when the id was never allocated.
    pub fn flush_page(&mut self, page_id: PageId) -> (r: Result<(), BpmError>)
        requires
            old(self).wf(),
        ensures
            final(self).wf(),
            final(self).pool() == old(self).pool(),
            final(self).next_id() == old(self).next_id(),
            r is Err <==> page_id >= old(self).next_id(),
            r is Err ==> r == Err::<(), BpmError>(BpmError::PageNotFound) && *final(self) == *old(
                self,
            ),
            r is Ok ==> final(self).disk().page_bytes(page_id) == final(self).content(page_id)
                && !final(self).dirty_of(page_id),
            forall|q: PageId| #[trigger] final(self).content(q) == old(self).content(q),
            forall|q: PageId| #[trigger] final(self).pin_of(q) == old(self).pin_of(q),
            forall|q: PageId| #[trigger] final(self).resident(q) == old(self).resident(q),
            forall|q: PageId| q != page_id ==> #[trigger] final(self).dirty_of(q) == old(self).dirty_of(q),
    {
        if page_id >= self.next_page_id {
            return Err(BpmError::PageNotFound);
        }
        let found = match self.page_table.get(&page_id) {
            Some(f) => Some(*f),
            None => None,
        };
        match found {
            None => Ok(()),
            Some(f) => self.flush_frame(page_id, f),
        }
    }

    /// Writes frame `f`, which holds `page_id`, to disk and marks it clean.
    fn flush_frame(&mut self, page_id: PageId, f: FrameId) -> (r: Result<(), BpmError>)
        requires
            old(self).wf(),
            old(self).resident(page_id),
            old(self).frame_of(page_id) == f,
        ensures
            final(self).wf(),
            final(self).pool() == old(self).pool(),
            final(self).next_id() == old(self).next_id(),
            r is Ok,
            final(self).disk().page_bytes(page_id) == final(self).content(page_id),
            !final(self).dirty_of(page_id),
            forall|q: PageId| #[trigger] final(self).content(q) == old(self).content(q),
            forall|q: PageId| #[trigger] final(self).pin_of(q) == old(self).pin_of(q),
            forall|q: PageId| #[trigger] final(self).resident(q) == old(self).resident(q),
            forall|q: PageId| q != page_id ==> #[trigger] final(self).dirty_of(q) == old(self).dirty_of(q),
            forall|q: PageId|
                q != page_id ==> #[trigger] final(self).disk().page_bytes(q) == old(self).disk().page_bytes(q),
            forall|g: FrameId|
                g != f && g < old(self).pool() ==> #[trigger] final(self).frame(g) == old(self).frame(g),
            forall|q: PageId| #[trigger] final(self).frame_of(q) == old(self).frame_of(q),
    {
        let ghost s0 = *self;
        proof {
            assert(s0.entry_ok(page_id));
            assert(s0.frame_ok(f));
        }
        let data = self.frames[f].lock_data().clone();
        let request = DiskRequest { is_write: true, page_id, data };
        let written = self.disk_scheduler.schedule_and_wait(request);
        match written {
            Ok(_) => {},
            Err(_) => {
                proof {
                    assert(false);
                }
                return Err(BpmError::IoError);
            },
        }
        self.frames[f].clear_dirty();
        proof {
            assert forall|g: FrameId| g < self.pool_size implies #[trigger] self.frame_ok(g) by {
                assert(s0.frame_ok(g));
                if g != f {
                    if let Some(q) = s0.frames@[g as int].held() {
                        assert(s0.entry_ok(q));
                    }
                }
            }
            assert forall|p: PageId| #[trigger] self.page_table@.contains_key(p) implies self.entry_ok(p) by {
                assert(s0.entry_ok(p));
            }
            assert forall|q: PageId| #[trigger] self.content(q) == s0.content(q) by {
                if s0.resident(q) {
                    assert(s0.entry_ok(q));
                }
            }
            assert forall|q: PageId| #[trigger] self.pin_of(q) == s0.pin_of(q) by {
                if s0.resident(q) {
                    assert(s0.entry_ok(q));
                }
            }
            assert forall|q: PageId| q != page_id implies #[trigger] self.dirty_of(q) == s0.dirty_of(q) by {
                if s0.resident(q) {
                    assert(s0.entry_ok(q));
                }
            }
        }
        Ok(())
    }

    /// The disk holds the current bytes of every page and no page is dirty.
    pub open spec fn all_flushed(&self) -> bool {
        forall|q: PageId| #[trigger] self.disk().page_bytes(q) == self.content(q) && !self.dirty_of(q)
    }

    /// Writes every resident page to disk and marks it clean.
    pub fn flush_all_pages(&mut self) -> (r: Result<(), BpmError>)
        requires
            old(self).wf(),
        ensures
            final(self).wf(),
            final(self).pool() == old(self).pool(),
            final(self).next_id() == old(self).next_id(),
            r is Ok,
            final(self).all_flushed(),
            forall|q: PageId| #[trigger] final(self).content(q) == old(self).content(q),
            forall|q: PageId| #[trigger] final(self).pin_of(q) == old(self).pin_of(q),
            forall|q: PageId| #[trigger] final(self).resident(q) == old(self).resident(q),
    {
        let ghost s0 = *self;
        let n = self.pool_size;
        let mut i: usize = 0;
        while i < n
            invariant
                self.wf(),
                n == self.pool_size,
                i <= n,
                self.pool() == s0.pool(),
                self.next_id() == s0.next_id(),
                forall|q: PageId| #[trigger] self.content(q) == s0.content(q),
                forall|q: PageId| #[trigger] self.pin_of(q) == s0.pin_of(q),
                forall|q: PageId| #[trigger] self.resident(q) == s0.resident(q),
                forall|q: PageId|
                    #[trigger] self.resident(q) && self.frame_of(q) < i ==> self.disk().page_bytes(q)
                        == self.content(q) && !self.dirty_of(q),
            decreases n - i,
        {
            let held = self.frames[i].page_id();
            match held {
                Some(p) => {
                    proof {
                        assert(self.frame_ok(i));
                    }
                    let ghost s1 = *self;
                    let _ = self.flush_frame(p, i);
                    proof {
                        assert forall|q: PageId|
                            #[trigger] self.resident(q) && self.frame_of(q) < i + 1 implies self.disk().page_bytes(q)
                                == self.content(q) && !self.dirty_of(q) by {
                            assert(s1.entry_ok(q));
                            if q != p {
                                assert(s1.frame_of(q) == self.frame_of(q));
                                assert(s1.frame_of(q) != i);
                                assert(s1.resident(q) && s1.frame_of(q) < i);
                            }
                        }
                    }
                },
                None => {
                    proof {
                        assert forall|q: PageId|
                            #[trigger] self.resident(q) && self.frame_of(q) < i + 1 implies self.disk().page_bytes(q)
                                == self.content(q) && !self.dirty_of(q) by {
                            assert(self.entry_ok(q));
                        }
                    }
                },
            }
            i += 1;
        }
        proof {
            assert forall|q: PageId| #[trigger] self.disk().page_bytes(q) == self.content(q) && !self.dirty_of(q) by {
                if self.resident(q) {
                    assert(self.entry_ok(q));
                }
            }
        }
        Ok(())
    }

    /// Stops the pool and hands back its backing store as it stands; pages
    /// not flushed keep only their bytes on disk.
    pub fn into_disk_manager(self) -> (r: DiskManager)
        requires
            self.wf(),
        ensures
            r.wf(),
            r == self.disk(),
    {
        self.disk_scheduler.into_disk_manager()
    }

    /// Number of frames in the pool.
    #[allow(non_snake_case)]
    pub fn getBufferPoolSize(&self) -> (r: usize)
        ensures
            r == self.pool(),
    {
        self.pool_size
    }

    /// Number of frames in the pool.
    pub fn get_buffer_manager_size(&self) -> (r: usize)
        ensures
            r == self.pool(),
    {
        self.pool_size
    }

    /// The id that the next `new_page` will hand out.
    pub fn next_page_id(&self) -> (r: usize)
        ensures
            r == self.next_id(),
    {
        self.next_page_id
    }

    /// Pin count of a resident page; `None` when the page is not resident.
    pub fn get_pin_count(&self, page_id: PageId) -> (r: Option<usize>)
        requires
            self.wf(),
        ensures
            r is Some <==> self.resident(page_id),
            r matches Some(n) ==> n == self.pin_of(page_id),
    {
        match self.page_table.get(&page_id) {
            Some(f) => Some(self.frames[*f].get_pin_count()),
            None => None,
        }
    }

    /// Number of evictable frames that the replacer tracks.
    pub fn replacer_size(&self) -> (r: usize)
        requires
            self.wf(),
        ensures
            r == self.replacer().evictable_count(),
    {
        self.replacer.Size()
    }

    /// The replacer's count of evictable frames equals the number of frames
    /// whose page is resident and unpinned.
    pub proof fn lemma_pin_evictable_consistency(&self)
        requires
            self.wf(),
        ensures
            self.replacer().evictable_count() == count_where(
                self.pool(),
                |f: nat| self.unpinned_resident(f as FrameId),
            ),
    {
        let rp = self.replacer;
        let ev = |i: nat| rp.evictable(i as FrameId);
        assert forall|i: nat| rp.span() <= i < self.pool() implies !#[trigger] ev(i) by {
            rp.lemma_untracked_beyond_span(i as FrameId);
        }
        lemma_count_where_tail(self.pool(), rp.span(), ev);
        assert forall|i: nat| i < self.pool() implies #[trigger] ev(i) == self.unpinned_resident(
            i as FrameId,
        ) by {
            let f = i as FrameId;
            assert(self.frame_ok(f));
            assert(ev(i) == rp.evictable(f));
        }
        lemma_count_where_ext(self.pool(), ev, |f: nat| self.unpinned_resident(f as FrameId));
    }

    /// No frame whose pin count is positive can be chosen as a victim: the
    /// replacer only ever picks evictable frames.
    pub proof fn lemma_no_eviction_while_pinned(&self, f: FrameId)
        requires
            self.wf(),
            f < self.pool(),
            self.frame(f).pins() > 0,
        ensures
            !self.replacer().evictable(f),
    {
        assert(self.frame_ok(f));
    }

    /// A pinned frame holds a page; and every frame is pinned exactly when no
    /// frame is free and the replacer has no evictable frame.
    pub proof fn lemma_all_pinned_means_no_frame(&self)
        requires
            self.wf(),
        ensures
            forall|f: FrameId|
                f < self.pool() && #[trigger] self.frame(f).pins() > 0 ==> self.frame(f).held() is Some,
            self.all_pinned() <==> (!self.has_free_frame() && forall|f: FrameId|
                !#[trigger] self.replacer().evictable(f)),
    {
        assert forall|f: FrameId| f < self.pool() && #[trigger] self.frame(f).pins() > 0 implies self.frame(
            f,
        ).held() is Some by {
            assert(self.frame_ok(f));
        }
        if self.all_pinned() {
            assert forall|f: FrameId| !#[trigger] self.replacer().evictable(f) by {
                if f >= self.replacer.span() {
                    self.replacer.lemma_untracked_beyond_span(f);
                } else {
                    assert(self.frame_ok(f));
                    assert(self.frame(f).pins() > 0);
                }
            }
            if self.has_free_frame() {
                let w = choose|w: FrameId| w < self.pool() && (#[trigger] self.frame(w)).held() is None;
                assert(self.frame_ok(w));
                assert(self.frame(w).pins() > 0);
            }
        }
        if !self.has_free_frame() && forall|f: FrameId| !#[trigger] self.replacer().evictable(f) {
            assert forall|f: FrameId| f < self.pool() implies #[trigger] self.frame(f).pins() > 0 by {
                assert(self.frame_ok(f));
                assert(!self.replacer().evictable(f));
            }
        }
    }

    /// At most one frame holds a page, and a frame holds at most one page.
    pub proof fn lemma_at_most_one_mapping(&self, p: PageId, q: PageId)
        requires
            self.wf(),
            self.resident(p),
            self.resident(q),
        ensures
            self.frame_of(p) == self.frame_of(q) <==> p == q,
            self.frame_of(p) < self.pool(),
            self.frame(self.frame_of(p)).held() == Some(p),
    {
        assert(self.entry_ok(p));
        assert(self.entry_ok(q));
    }
}

} // verus!
