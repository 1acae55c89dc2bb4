use vstd::prelude::*;
use crate::disk_manager::{DiskManager, image_after_write, image_page};
use crate::page::{PageId, PAGE_SIZE};

verus! {

/// A read or a write of one page.
pub struct DiskRequest {
    pub is_write: bool,
    pub page_id: PageId,
    /// The bytes to write; unused by a read.
    pub data: Vec<u8>,
}

#[derive(PartialEq, Eq, Structural, Clone, Copy, Debug)]
pub enum DiskError {
    /// The request could not be carried out.
    IoError,
    /// The scheduler was shut down before the request was submitted.
    ShutDown,
}

/// The outcome of one request: the bytes read, or an empty vector for a
/// write.
pub struct DiskCompletion {
    pub is_write: bool,
    pub page_id: PageId,
    pub result: Result<Vec<u8>, DiskError>,
}

/// A request the disk manager can carry out: a page id whose slot can be
/// addressed, and for a write exactly one page of bytes.
pub open spec fn well_formed(r: DiskRequest) -> bool {
    &&& r.page_id < usize::MAX
    &&& r.is_write ==> r.data@.len() == PAGE_SIZE
}

/// What carrying out `r` on `before` leaves on disk (`after`) and reports.
pub open spec fn carried_out(
    before: DiskManager,
    after: DiskManager,
    r: DiskRequest,
    result: Result<Vec<u8>, DiskError>,
) -> bool {
    if !well_formed(r) {
        &&& result == Err::<Vec<u8>, DiskError>(DiskError::IoError)
        &&& after == before
    } else if r.is_write {
        &&& result matches Ok(v) && v@.len() == 0
        &&& after.wf()
        &&& after.page_bytes(r.page_id) == r.data@
        &&& forall|p: PageId| p != r.page_id ==> after.page_bytes(p) == before.page_bytes(p)
        &&& after.num_pages() == if r.page_id < before.num_pages() {
            before.num_pages()
        } else {
            (r.page_id + 1) as nat
        }
    } else {
        &&& result matches Ok(v) && v@ == before.page_bytes(r.page_id)
        &&& after == before
    }
}

/// A result with the bytes as a sequence.
pub open spec fn result_view(r: Result<Vec<u8>, DiskError>) -> Result<Seq<u8>, DiskError> {
    match r {
        Ok(v) => Ok(v@),
        Err(e) => Err(e),
    }
}

/// The image after `r` is carried out on `img`, and what `r` reports.
pub open spec fn request_effect(img: Seq<Seq<u8>>, r: DiskRequest) -> (Seq<Seq<u8>>, Result<Seq<u8>, DiskError>) {
    if !well_formed(r) {
        (img, Err(DiskError::IoError))
    } else if r.is_write {
        (image_after_write(img, r.page_id, r.data@), Ok(Seq::empty()))
    } else {
        (img, Ok(image_page(img, r.page_id)))
    }
}

/// The image after the requests are carried out in order.
pub open spec fn run_requests(img: Seq<Seq<u8>>, reqs: Seq<DiskRequest>) -> Seq<Seq<u8>>
    decreases reqs.len(),
{
    if reqs.len() == 0 {
        img
    } else {
        request_effect(run_requests(img, reqs.drop_last()), reqs.last()).0
    }
}

/// What request `i` reports when the requests run in order from `img`.
pub open spec fn outcome_of(img: Seq<Seq<u8>>, reqs: Seq<DiskRequest>, i: int) -> Result<Seq<u8>, DiskError> {
    request_effect(run_requests(img, reqs.take(i)), reqs[i]).1
}

/// Runs page requests against the disk manager strictly in the order they
/// were submitted. After `shutdown` every request is refused.
pub struct DiskScheduler {
    disk_manager: DiskManager,
    queue: Vec<DiskRequest>,
    shut_down: bool,
}

impl DiskScheduler {
    pub closed spec fn disk(&self) -> DiskManager {
        self.disk_manager
    }

    /// Requests submitted and not yet carried out, oldest first.
    pub closed spec fn pending(&self) -> Seq<DiskRequest> {
        self.queue@
    }

    pub closed spec fn is_shut_down(&self) -> bool {
        self.shut_down
    }

    pub open spec fn wf(&self) -> bool {
        self.disk().wf()
    }

    pub fn new(disk_manager: DiskManager) -> (r: Self)
        ensures
            r.disk() == disk_manager,
            r.pending().len() == 0,
            !r.is_shut_down(),
    {
        DiskScheduler { disk_manager, queue: Vec::new(), shut_down: false }
    }

    pub fn disk_manager(&self) -> (r: &DiskManager)
        ensures
            *r == self.disk(),
    {
        &self.disk_manager
    }

    /// Queues `request` behind every pending one; refused once shut down.
    pub fn schedule(&mut self, request: DiskRequest) -> (r: Result<(), DiskError>)
        ensures
            final(self).disk() == old(self).disk(),
            final(self).is_shut_down() == old(self).is_shut_down(),
            old(self).is_shut_down() ==> r == Err::<(), DiskError>(DiskError::ShutDown)
                && final(self).pending() == old(self).pending(),
            !old(self).is_shut_down() ==> r is Ok && final(self).pending() == old(
                self,
            ).pending().push(request),
    {
        if self.shut_down {
            return Err(DiskError::ShutDown);
        }
        self.queue.push(request);
        Ok(())
    }

    /// Carries out one well-formed request on the disk manager.
    fn carry_out(dm: &mut DiskManager, request: &DiskRequest) -> (r: Result<Vec<u8>, DiskError>)
        requires
            old(dm).wf(),
        ensures
            carried_out(*old(dm), *final(dm), *request, r),
            (final(dm).image(), result_view(r)) == request_effect(old(dm).image(), *request),
    {
        if request.page_id == usize::MAX {
            return Err(DiskError::IoError);
        }
        if request.is_write {
            if request.data.len() != PAGE_SIZE {
                return Err(DiskError::IoError);
            }
            dm.write_page(request.page_id, &request.data);
            Ok(Vec::new())
        } else {
            Ok(dm.read_page(request.page_id))
        }
    }

    /// Takes the oldest pending request, carries it out and reports its
    /// outcome; `None` when nothing is pending. A malformed request fails
    /// with `IoError` and leaves the disk as it was.
    pub fn process_next(&mut self) -> (r: Option<DiskCompletion>)
        requires
            old(self).wf(),
        ensures
            final(self).wf(),
            final(self).is_shut_down() == old(self).is_shut_down(),
            old(self).pending().len() == 0 <==> r.is_none(),
            r.is_none() ==> *final(self) == *old(self),
            r matches Some(c) ==> {
                &&& final(self).pending() == old(self).pending().drop_first()
                &&& c.is_write == old(self).pending()[0].is_write
                &&& c.page_id == old(self).pending()[0].page_id
                &&& carried_out(old(self).disk(), final(self).disk(), old(self).pending()[0], c.result)
                &&& (final(self).disk().image(), result_view(c.result)) == request_effect(
                    old(self).disk().image(),
                    old(self).pending()[0],
                )
            },
    {
        if self.queue.len() == 0 {
            return None;
        }
        let request = self.queue.remove(0);
        let result = Self::carry_out(&mut self.disk_manager, &request);
        proof {
            assert(self.queue@ =~= old(self).queue@.drop_first());
        }
        Some(DiskCompletion { is_write: request.is_write, page_id: request.page_id, result })
    }

    /// Submits `request` and waits for its outcome.
    pub fn schedule_and_wait(&mut self, request: DiskRequest) -> (r: Result<Vec<u8>, DiskError>)
        requires
            old(self).wf(),
            old(self).pending().len() == 0,
            !old(self).is_shut_down(),
        ensures
            final(self).wf(),
            final(self).pending().len() == 0,
            !final(self).is_shut_down(),
            carried_out(old(self).disk(), final(self).disk(), request, r),
    {
        let ghost req = request;
        let _ = self.schedule(request);
        let c = self.process_next();
        match c {
            Some(c) => c.result,
            None => Err(DiskError::IoError),
        }
    }

    /// Carries out every pending request in order, then refuses all later
    /// ones. No pending request is dropped.
    pub fn shutdown(&mut self) -> (r: Vec<DiskCompletion>)
        requires
            old(self).wf(),
        ensures
            final(self).wf(),
            final(self).is_shut_down(),
            final(self).pending().len() == 0,
            old(self).pending().len() == 0 ==> final(self).disk() == old(self).disk(),
            r@.len() == old(self).pending().len(),
            forall|i: int|
                0 <= i < r@.len() ==> (#[trigger] r@[i]).page_id == old(self).pending()[i].page_id
                    && r@[i].is_write == old(self).pending()[i].is_write,
            final(self).disk().image() == run_requests(old(self).disk().image(), old(self).pending()),
            forall|i: int|
                0 <= i < r@.len() ==> result_view((#[trigger] r@[i]).result) == outcome_of(
                    old(self).disk().image(),
                    old(self).pending(),
                    i,
                ),
    {
        self.shut_down = true;
        let mut done: Vec<DiskCompletion> = Vec::new();
        let ghost all = self.queue@;
        let ghost img0 = self.disk_manager.image();
        assert(all.take(0) =~= Seq::<DiskRequest>::empty());
        while self.queue.len() > 0
            invariant
                self.wf(),
                self.shut_down,
                all.len() == 0 ==> self.disk_manager == old(self).disk_manager,
                done@.len() + self.queue@.len() == all.len(),
                self.queue@ == all.skip(done@.len() as int),
                forall|i: int|
                    0 <= i < done@.len() ==> (#[trigger] done@[i]).page_id == all[i].page_id
                        && done@[i].is_write == all[i].is_write,
                self.disk_manager.image() == run_requests(img0, all.take(done@.len() as int)),
                forall|i: int|
                    0 <= i < done@.len() ==> result_view((#[trigger] done@[i]).result) == outcome_of(
                        img0,
                        all,
                        i,
                    ),
            decreases self.queue@.len(),
        {
            let c = self.process_next();
            match c {
                Some(c) => {
                    proof {
                        let k = done@.len() as int;
                        assert(all.take(k + 1).drop_last() =~= all.take(k));
                        assert(all.take(k + 1).last() == all[k]);
                        assert(all.skip(done@.len() as int)[0] == all[done@.len() as int]);
                        assert(all.skip(done@.len() as int).drop_first() =~= all.skip(
                            done@.len() as int + 1,
                        ));
                    }
                    done.push(c);
                },
                None => {},
            }
        }
        assert(all.take(all.len() as int) =~= all);
        done
    }

    /// Shuts down and hands back the disk manager with every pending
    /// request carried out.
    pub fn into_disk_manager(self) -> (r: DiskManager)
        requires
            self.wf(),
        ensures
            r.wf(),
            self.pending().len() == 0 ==> r == self.disk(),
    {
        let mut this = self;
        let _ = this.shutdown();
        this.disk_manager
    }
}

} // verus!
