use vstd::prelude::*;
use crate::page::{PageId, PAGE_SIZE, zero_page, zeroed_bytes};

verus! {

/// Bytes of page `p` in an image of the store, one entry per slot written:
/// slots past the end read as zeros.
pub open spec fn image_page(img: Seq<Seq<u8>>, p: PageId) -> Seq<u8> {
    if p < img.len() {
        img[p as int]
    } else {
        zero_page()
    }
}

/// The image after `data` is written to page `p`: slots between the old end
/// and `p` are filled with zeros.
pub open spec fn image_after_write(img: Seq<Seq<u8>>, p: PageId, data: Seq<u8>) -> Seq<Seq<u8>> {
    if p < img.len() {
        img.update(p as int, data)
    } else {
        (img + Seq::new((p - img.len()) as nat, |i: int| zero_page())).push(data)
    }
}

/// The first capacity at or above `pages` that doubling `cap` reaches.
pub open spec fn doubled_capacity(cap: nat, pages: nat) -> nat
    decreases (if cap >= pages {
        0
    } else {
        pages - cap
    }),
{
    if cap >= pages || cap == 0 {
        cap
    } else {
        doubled_capacity(2 * cap, pages)
    }
}

pub proof fn lemma_doubled_capacity_bounds(cap: nat, pages: nat)
    requires
        cap >= 1,
    ensures
        doubled_capacity(cap, pages) >= cap,
        doubled_capacity(cap, pages) >= pages,
        cap < pages ==> doubled_capacity(cap, pages) >= 2 * cap,
    decreases (if cap >= pages {
        0
    } else {
        pages - cap
    }),
{
    if cap < pages {
        lemma_doubled_capacity_bounds(2 * cap, pages);
    }
}

/// The backing store: one flat sequence of `PAGE_SIZE`-byte slots, slot `p`
/// holding page `p`. Slots past the last one written read as zeros. The
/// capacity, in pages, grows by doubling and never shrinks.
pub struct DiskManager {
    pages: Vec<Vec<u8>>,
    capacity: usize,
}

impl DiskManager {
    /// Bytes stored for page `p`.
    pub closed spec fn page_bytes(&self, p: PageId) -> Seq<u8> {
        if p < self.pages@.len() {
            self.pages@[p as int]@
        } else {
            zero_page()
        }
    }

    /// The slots written so far, in page order.
    pub closed spec fn image(&self) -> Seq<Seq<u8>> {
        self.pages@.map_values(|v: Vec<u8>| v@)
    }

    /// Number of slots up to the highest page ever written.
    pub closed spec fn num_pages(&self) -> nat {
        self.pages@.len()
    }

    pub closed spec fn cap(&self) -> nat {
        self.capacity as nat
    }

    pub closed spec fn wf(&self) -> bool {
        &&& self.pages@.len() <= self.capacity
        &&& forall|i: int| 0 <= i < self.pages@.len() ==> (#[trigger] self.pages@[i])@.len() == PAGE_SIZE
    }

    pub proof fn lemma_page_len(&self, p: PageId)
        requires
            self.wf(),
        ensures
            self.page_bytes(p).len() == PAGE_SIZE,
    {
        if p < self.pages@.len() {
            assert(self.pages@[p as int]@.len() == PAGE_SIZE);
        }
    }

    /// Pages past the highest one written read as zeros.
    pub proof fn lemma_beyond_written(&self, p: PageId)
        requires
            p >= self.num_pages(),
        ensures
            self.page_bytes(p) == zero_page(),
    {
    }

    /// An empty store.
    pub fn new() -> (r: Self)
        ensures
            r.wf(),
            r.num_pages() == 0,
            r.cap() == 0,
            forall|p: PageId| r.page_bytes(p) == zero_page(),
    {
        DiskManager { pages: Vec::new(), capacity: 0 }
    }

    pub fn num_pages_exec(&self) -> (r: usize)
        ensures
            r == self.num_pages(),
    {
        self.pages.len()
    }

    pub fn capacity(&self) -> (r: usize)
        ensures
            r == self.cap(),
    {
        self.capacity
    }

    /// Copy of the bytes stored for `page_id`.
    pub fn read_page(&self, page_id: PageId) -> (r: Vec<u8>)
        requires
            self.wf(),
        ensures
            r@ == self.page_bytes(page_id),
            r@ == image_page(self.image(), page_id),
            r@.len() == PAGE_SIZE,
    {
        if page_id < self.pages.len() {
            self.pages[page_id].clone()
        } else {
            zeroed_bytes(PAGE_SIZE)
        }
    }

    /// Doubles the capacity (starting from one page) until it covers `pages`
    /// pages, stopping at the first value that does. Where doubling would
    /// pass the largest `usize`, the capacity becomes `pages` exactly. The
    /// capacity never shrinks and no stored byte changes.
    pub fn increase_disk_space(&mut self, pages: usize)
        requires
            old(self).wf(),
        ensures
            final(self).wf(),
            final(self).cap() >= pages,
            final(self).cap() >= old(self).cap(),
            old(self).cap() >= pages ==> final(self).cap() == old(self).cap(),
            old(self).cap() < pages ==> final(self).cap() == ({
                let d = doubled_capacity(if old(self).cap() == 0 { 1nat } else { old(self).cap() }, pages as nat);
                if d <= usize::MAX { d } else { pages as nat }
            }),
            final(self).num_pages() == old(self).num_pages(),
            forall|p: PageId| final(self).page_bytes(p) == old(self).page_bytes(p),
            final(self).image() == old(self).image(),
    {
        if self.capacity >= pages {
            return;
        }
        let mut cap: usize = if self.capacity == 0 {
            1
        } else {
            self.capacity
        };
        let ghost d = doubled_capacity(cap as nat, pages as nat);
        while cap < pages
            invariant
                cap >= 1,
                cap >= self.capacity,
                d == doubled_capacity(if self.capacity == 0 { 1nat } else { self.capacity as nat }, pages as nat),
                doubled_capacity(cap as nat, pages as nat) == d || (d > usize::MAX && cap == pages),
            decreases usize::MAX - cap,
        {
            proof {
                lemma_doubled_capacity_bounds(cap as nat, pages as nat);
            }
            if cap <= usize::MAX / 2 {
                cap = cap * 2;
            } else {
                cap = pages;
            }
        }
        self.capacity = cap;
    }

    /// Stores `data` as the bytes of `page_id`, growing the capacity when
    /// the page lies beyond it. Every other page keeps its bytes.
    pub fn write_page(&mut self, page_id: PageId, data: &Vec<u8>)
        requires
            old(self).wf(),
            data@.len() == PAGE_SIZE,
            page_id < usize::MAX,
        ensures
            final(self).wf(),
            final(self).page_bytes(page_id) == data@,
            forall|p: PageId| p != page_id ==> final(self).page_bytes(p) == old(self).page_bytes(p),
            final(self).num_pages() == if page_id < old(self).num_pages() {
                old(self).num_pages()
            } else {
                (page_id + 1) as nat
            },
            final(self).cap() >= old(self).cap(),
            final(self).image() == image_after_write(old(self).image(), page_id, data@),
    {
        self.increase_disk_space(page_id + 1);
        assert(self.capacity >= old(self).capacity);
        let ghost before = self.pages@;
        let ghost cap0 = self.capacity;
        while self.pages.len() <= page_id
            invariant
                self.wf(),
                self.capacity == cap0,
                self.capacity >= page_id + 1,
                self.pages@.len() >= before.len(),
                self.pages@.len() <= if page_id < before.len() {
                    before.len() as int
                } else {
                    page_id + 1
                },
                forall|i: int|
                    0 <= i < self.pages@.len() ==> (#[trigger] self.pages@[i])@ == if i < before.len() {
                        before[i]@
                    } else {
                        zero_page()
                    },
            decreases page_id + 1 - self.pages@.len(),
        {
            let z = zeroed_bytes(PAGE_SIZE);
            self.pages.push(z);
        }
        self.pages.set(page_id, data.clone());
        proof {
            let want = image_after_write(old(self).image(), page_id, data@);
            assert(self.image().len() == want.len());
            assert forall|i: int| 0 <= i < want.len() implies #[trigger] self.image()[i] == want[i] by {
                if i != page_id && i >= before.len() {
                    assert(want[i] == zero_page());
                }
            }
            assert(self.image() =~= want);
        }
    }
}

} // verus!
