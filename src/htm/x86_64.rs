use vstd::prelude::*;

verus! {

/// Status word `_xbegin` returns when the transaction started.
pub const XBEGIN_STARTED: u32 = 0xFFFF_FFFF;

/// Abort status bit: the abort was explicit.
pub const XABORT_EXPLICIT: u32 = 1;

/// Abort status bit: the transaction may succeed on a retry.
pub const XABORT_RETRY: u32 = 2;

/// Abort status bit: another processor conflicted with the transaction.
pub const XABORT_CONFLICT: u32 = 4;

/// Abort status bit: an internal buffer overflowed.
pub const XABORT_CAPACITY: u32 = 8;

/// Abort status bit: a debug breakpoint was hit.
pub const XABORT_DEBUG: u32 = 16;

/// Status word returned when a hardware transaction begins.
pub struct HwTxBeginCode(pub u32);

impl HwTxBeginCode {
    /// The transaction started.
    #[inline]
    pub fn started(&self) -> (r: bool)
        ensures
            r == (self.0 == XBEGIN_STARTED),
    {
        self.0 == XBEGIN_STARTED
    }

    /// The transaction aborted explicitly.
    #[inline]
    pub fn abort(&self) -> (r: bool)
        ensures
            r == (self.0 & XABORT_EXPLICIT != 0 && self.0 != XBEGIN_STARTED),
    {
        self.0 & XABORT_EXPLICIT != 0 && !self.started()
    }

    /// The transaction aborted and may succeed on a retry.
    #[inline]
    pub fn retry(&self) -> (r: bool)
        ensures
            r == (self.0 & XABORT_RETRY != 0 && self.0 != XBEGIN_STARTED),
    {
        self.0 & XABORT_RETRY != 0 && !self.started()
    }

    /// The transaction aborted on a conflict.
    #[inline]
    pub fn conflict(&self) -> (r: bool)
        ensures
            r == (self.0 & XABORT_CONFLICT != 0 && self.0 != XBEGIN_STARTED),
    {
        self.0 & XABORT_CONFLICT != 0 && !self.started()
    }

    /// The transaction aborted for want of capacity.
    #[inline]
    pub fn capacity(&self) -> (r: bool)
        ensures
            r == (self.0 & XABORT_CAPACITY != 0 && self.0 != XBEGIN_STARTED),
    {
        self.0 & XABORT_CAPACITY != 0 && !self.started()
    }

    /// The transaction aborted on a debug breakpoint.
    #[inline]
    pub fn debug(&self) -> (r: bool)
        ensures
            r == (self.0 & XABORT_DEBUG != 0 && self.0 != XBEGIN_STARTED),
    {
        self.0 & XABORT_DEBUG != 0 && !self.started()
    }

    /// The code an explicit abort passed, from the top eight bits.
    pub fn abort_code(&self) -> (r: u32)
        ensures
            r == (self.0 >> 24u32) & 0xFFu32,
    {
        (self.0 >> 24u32) & 0xFFu32
    }
}

/// Reasons this library gives for aborting a hardware transaction.
#[derive(Clone, Copy, Debug, PartialEq, Eq, Structural)]
pub enum HwTxAbortCode {
    Overhaul,
    UserlandAbort,
}

/// The eight-bit code passed to `_xabort` for `c`.
pub open spec fn reason_code(c: HwTxAbortCode) -> u32 {
    match c {
        HwTxAbortCode::Overhaul => 1u32,
        HwTxAbortCode::UserlandAbort => 2u32,
    }
}

impl HwTxAbortCode {
    /// The eight-bit code passed to `_xabort`.
    pub fn code(&self) -> (r: u32)
        ensures
            r == reason_code(*self),
    {
        match self {
            HwTxAbortCode::Overhaul => 1,
            HwTxAbortCode::UserlandAbort => 2,
        }
    }
}

/// Status returned by `_xtest`: nonzero inside a transaction.
pub struct HwTxTestCode(pub u8);

impl HwTxTestCode {
    #[inline]
    pub fn in_txn(&self) -> (r: bool)
        ensures
            r == (self.0 != 0),
    {
        self.0 != 0
    }

    #[inline]
    pub fn depth(&self) -> (r: usize)
        ensures
            r == self.0,
    {
        self.0 as usize
    }
}

/// Intel RTM.
pub struct HTM();

impl HTM {
    /// Whether an aborted transaction's status carries `reason` as its explicit abort code.
    pub fn aborted_with(status: &HwTxBeginCode, reason: HwTxAbortCode) -> (r: bool)
        ensures
            r == (status.0 != XBEGIN_STARTED && status.0 & XABORT_EXPLICIT != 0 && (status.0
                >> 24u32) & 0xFFu32 == reason_code(reason)),
    {
        status.abort() && status.abort_code() == reason.code()
    }
}

} // verus!
