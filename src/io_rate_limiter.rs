use vstd::prelude::*;

verus! {

/// What an I/O request is for.
#[derive(PartialEq, Eq, Structural, Clone, Copy, Debug, Default)]
pub enum IoType {
    #[default]
    Flush,
    Compaction,
}

#[derive(PartialEq, Eq, Structural, Clone, Copy, Debug)]
pub enum IoOp {
    Read,
    Write,
}

/// Throttles file I/O by handing out byte allowances.
pub struct IoRateLimiter {}

impl IoRateLimiter {
    pub fn new() -> (r: Self) {
        IoRateLimiter {}
    }

    /// Bytes that may be moved now out of the `bytes` asked for: one at a
    /// time.
    #[allow(unused_variables)]
    pub fn request(&self, io_type: IoType, io_op: IoOp, bytes: usize) -> (r: usize)
        ensures
            r == 1,
    {
        1
    }
}

/// The limiter that files pick up when none is handed to them: there is no
/// process-wide one, so a limiter is passed explicitly where it is wanted.
pub fn get_io_rate_limiter() -> (r: Option<IoRateLimiter>)
    ensures
        r is None,
{
    None
}

} // verus!
