use vstd::prelude::*;

verus! {

/// Identifier of a logical database page.
pub type PageId = usize;

/// Size in bytes of every page and frame.
pub const PAGE_SIZE: usize = 4096;

/// A page of zero bytes.
pub open spec fn zero_page() -> Seq<u8> {
    Seq::new(PAGE_SIZE as nat, |i: int| 0u8)
}

/// A vector of `n` zero bytes.
pub fn zeroed_bytes(n: usize) -> (r: Vec<u8>)
    ensures
        r@ == Seq::new(n as nat, |i: int| 0u8),
{
    let mut v: Vec<u8> = Vec::with_capacity(n);
    let mut i: usize = 0;
    while i < n
        invariant
            i <= n,
            v@ == Seq::new(i as nat, |j: int| 0u8),
        decreases n - i,
    {
        v.push(0u8);
        i += 1;
        assert(v@ =~= Seq::new(i as nat, |j: int| 0u8));
    }
    v
}

/// One in-memory frame: the bytes of the page it holds, which page that is
/// (none while the frame is free), its pin count and its dirty flag.
pub struct Page {
    id: Option<PageId>,
    data: Vec<u8>,
    pin_count: usize,
    is_dirty: bool,
}

impl Page {
    /// The page this frame holds, if any.
    pub closed spec fn held(&self) -> Option<PageId> {
        self.id
    }

    pub closed spec fn bytes(&self) -> Seq<u8> {
        self.data@
    }

    pub closed spec fn pins(&self) -> nat {
        self.pin_count as nat
    }

    pub closed spec fn dirty(&self) -> bool {
        self.is_dirty
    }

    /// A clean, unpinned frame holding page `id` with the given bytes.
    pub fn new(id: PageId, data: Vec<u8>) -> (r: Self)
        ensures
            r.held() == Some(id),
            r.bytes() == data@,
            r.pins() == 0,
            !r.dirty(),
    {
        Page { id: Some(id), data, pin_count: 0, is_dirty: false }
    }

    /// A free frame of `PAGE_SIZE` zero bytes.
    pub fn free_frame() -> (r: Self)
        ensures
            r.held().is_none(),
            r.bytes() == zero_page(),
            r.pins() == 0,
            !r.dirty(),
    {
        Page { id: None, data: zeroed_bytes(PAGE_SIZE), pin_count: 0, is_dirty: false }
    }

    /// Returns the frame to the free state: no page, all bytes zero, clean
    /// and unpinned. The length of the buffer is kept.
    pub fn reset_memory(&mut self)
        ensures
            final(self).held().is_none(),
            final(self).bytes() == Seq::new(old(self).bytes().len(), |i: int| 0u8),
            final(self).pins() == 0,
            !final(self).dirty(),
    {
        self.id = None;
        self.data = zeroed_bytes(self.data.len());
        self.is_dirty = false;
        self.pin_count = 0;
    }

    /// Sets the page this frame holds.
    pub fn set_page_id(&mut self, id: Option<PageId>)
        ensures
            final(self).held() == id,
            final(self).bytes() == old(self).bytes(),
            final(self).pins() == old(self).pins(),
            final(self).dirty() == old(self).dirty(),
    {
        self.id = id;
    }

    pub fn page_id(&self) -> (r: Option<PageId>)
        ensures
            r == self.held(),
    {
        self.id
    }

    pub fn mark_dirty(&mut self)
        ensures
            final(self).held() == old(self).held(),
            final(self).bytes() == old(self).bytes(),
            final(self).pins() == old(self).pins(),
            final(self).dirty(),
    {
        self.is_dirty = true;
    }

    pub fn clear_dirty(&mut self)
        ensures
            final(self).held() == old(self).held(),
            final(self).bytes() == old(self).bytes(),
            final(self).pins() == old(self).pins(),
            !final(self).dirty(),
    {
        self.is_dirty = false;
    }

    pub fn is_dirty(&self) -> (r: bool)
        ensures
            r == self.dirty(),
    {
        self.is_dirty
    }

    pub fn pin(&mut self)
        requires
            old(self).pins() < usize::MAX,
        ensures
            final(self).held() == old(self).held(),
            final(self).bytes() == old(self).bytes(),
            final(self).pins() == old(self).pins() + 1,
            final(self).dirty() == old(self).dirty(),
    {
        self.pin_count = self.pin_count + 1;
    }

    pub fn unpin(&mut self)
        requires
            old(self).pins() > 0,
        ensures
            final(self).held() == old(self).held(),
            final(self).bytes() == old(self).bytes(),
            final(self).pins() == old(self).pins() - 1,
            final(self).dirty() == old(self).dirty(),
    {
        self.pin_count = self.pin_count - 1;
    }

    pub fn get_pin_count(&self) -> (r: usize)
        ensures
            r == self.pins(),
    {
        self.pin_count
    }

    /// Replaces the frame's bytes.
    pub fn set_data(&mut self, data: Vec<u8>)
        ensures
            final(self).held() == old(self).held(),
            final(self).bytes() == data@,
            final(self).pins() == old(self).pins(),
            final(self).dirty() == old(self).dirty(),
    {
        self.data = data;
    }

    /// Copies `src` over the frame's bytes from `offset` on.
    pub fn write_data(&mut self, offset: usize, src: &[u8])
        requires
            offset + src@.len() <= old(self).bytes().len(),
        ensures
            final(self).held() == old(self).held(),
            final(self).bytes() == old(self).bytes().take(offset as int) + src@ + old(
                self,
            ).bytes().skip(offset + src@.len()),
            final(self).pins() == old(self).pins(),
            final(self).dirty() == old(self).dirty(),
    {
        let ghost before = self.data@;
        let n = self.data.len();
        let mut i: usize = 0;
        while i < src.len()
            invariant
                n == before.len(),
                self.id == old(self).id,
                self.pin_count == old(self).pin_count,
                self.is_dirty == old(self).is_dirty,
                i <= src@.len(),
                offset + src@.len() <= before.len(),
                self.data@.len() == before.len(),
                forall|j: int|
                    0 <= j < before.len() ==> #[trigger] self.data@[j] == if offset <= j < offset + i {
                        src@[j - offset]
                    } else {
                        before[j]
                    },
            decreases src@.len() - i,
        {
            self.data.set(offset + i, src[i]);
            i += 1;
        }
        assert(self.data@ =~= before.take(offset as int) + src@ + before.skip(offset + src@.len()));
    }

    /// The frame's bytes.
    pub fn lock_data(&self) -> (r: &Vec<u8>)
        ensures
            r@ == self.bytes(),
    {
        &self.data
    }
}

} // verus!
