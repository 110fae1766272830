use vstd::prelude::*;

verus! {

/// Status word `__tstart` returns when the transaction started.
pub const TMSTART_SUCCESS: u64 = 0;

/// Bits of a failure status holding the reason passed to `__tcancel`.
pub const TMFAILURE_REASON: u64 = 0x7FFF;

/// Failure bit: the transaction may succeed on a retry.
pub const TMFAILURE_RTRY: u64 = 0x8000;

/// Failure bit: the transaction was cancelled.
pub const TMFAILURE_CNCL: u64 = 0x1_0000;

/// Failure bit: a memory conflict.
pub const TMFAILURE_MEM: u64 = 0x2_0000;

/// Failure bit: an implementation-specific failure.
pub const TMFAILURE_IMP: u64 = 0x4_0000;

/// Failure bit: an instruction not permitted in a transaction.
pub const TMFAILURE_ERR: u64 = 0x8_0000;

/// Failure bit: the transaction's footprint was too large.
pub const TMFAILURE_SIZE: u64 = 0x10_0000;

/// Failure bit: the nesting depth was exceeded.
pub const TMFAILURE_NEST: u64 = 0x20_0000;

/// Failure bit: a debug event.
pub const TMFAILURE_DBG: u64 = 0x40_0000;

/// Failure bit: an interrupt.
pub const TMFAILURE_INT: u64 = 0x80_0000;

/// Failure bit: the transaction was executed trivially.
pub const TMFAILURE_TRIVIAL: u64 = 0x100_0000;

/// Status word returned when a hardware transaction begins.
pub struct HwTxBeginCode(pub u64);

/// A failure status word has bit `bit` set.
pub open spec fn failed_with(code: u64, bit: u64) -> bool {
    code & bit != 0 && code != TMSTART_SUCCESS
}

impl HwTxBeginCode {
    /// The transaction started.
    #[inline]
    pub fn started(&self) -> (r: bool)
        ensures
            r == (self.0 == TMSTART_SUCCESS),
    {
        self.0 == TMSTART_SUCCESS
    }

    /// The transaction was cancelled.
    #[inline]
    pub fn abort(&self) -> (r: bool)
        ensures
            r == failed_with(self.0, TMFAILURE_CNCL),
    {
        self.0 & TMFAILURE_CNCL != 0 && !self.started()
    }

    /// The transaction failed and may succeed on a retry.
    #[inline]
    pub fn retry(&self) -> (r: bool)
        ensures
            r == failed_with(self.0, TMFAILURE_RTRY),
    {
        self.0 & TMFAILURE_RTRY != 0 && !self.started()
    }

    /// The transaction failed on a memory conflict.
    #[inline]
    pub fn conflict(&self) -> (r: bool)
        ensures
            r == failed_with(self.0, TMFAILURE_MEM),
    {
        self.0 & TMFAILURE_MEM != 0 && !self.started()
    }

    /// The transaction failed for want of capacity.
    #[inline]
    pub fn capacity(&self) -> (r: bool)
        ensures
            r == failed_with(self.0, TMFAILURE_SIZE),
    {
        self.0 & TMFAILURE_SIZE != 0 && !self.started()
    }

    /// The transaction exceeded the nesting depth.
    #[inline]
    pub fn nest_exceeded(&self) -> (r: bool)
        ensures
            r == failed_with(self.0, TMFAILURE_NEST),
    {
        self.0 & TMFAILURE_NEST != 0 && !self.started()
    }

    /// The transaction was executed trivially.
    #[inline]
    pub fn trivial_exec(&self) -> (r: bool)
        ensures
            r == failed_with(self.0, TMFAILURE_TRIVIAL),
    {
        self.0 & TMFAILURE_TRIVIAL != 0 && !self.started()
    }

    /// The transaction ran an instruction not permitted in it.
    #[inline]
    pub fn non_permissible(&self) -> (r: bool)
        ensures
            r == failed_with(self.0, TMFAILURE_ERR),
    {
        self.0 & TMFAILURE_ERR != 0 && !self.started()
    }

    /// The transaction was interrupted.
    #[inline]
    pub fn interrupted(&self) -> (r: bool)
        ensures
            r == failed_with(self.0, TMFAILURE_INT),
    {
        self.0 & TMFAILURE_INT != 0 && !self.started()
    }

    /// The transaction failed for an implementation-specific reason.
    #[inline]
    pub fn fallback_failure(&self) -> (r: bool)
        ensures
            r == failed_with(self.0, TMFAILURE_IMP),
    {
        self.0 & TMFAILURE_IMP != 0 && !self.started()
    }

    /// The transaction failed on a debug event.
    #[inline]
    pub fn debug(&self) -> (r: bool)
        ensures
            r == failed_with(self.0, TMFAILURE_DBG),
    {
        self.0 & TMFAILURE_DBG != 0 && !self.started()
    }
}

/// Reasons this library gives for cancelling a hardware transaction.
#[derive(Clone, Copy, Debug, PartialEq, Eq, Structural)]
pub enum HwTxAbortCode {
    Overhaul,
    UserlandAbort,
}

impl HwTxAbortCode {
    /// The reason code of the cancellation.
    pub fn code(&self) -> (r: u64)
        ensures
            r == match self {
                HwTxAbortCode::Overhaul => 1u64,
                HwTxAbortCode::UserlandAbort => 2u64,
            },
    {
        match self {
            HwTxAbortCode::Overhaul => 1,
            HwTxAbortCode::UserlandAbort => 2,
        }
    }
}

/// Status returned by `__ttest`: the nesting depth, zero outside a transaction.
pub struct HwTxTestCode(pub u64);

impl HwTxTestCode {
    #[inline]
    pub fn in_txn(&self) -> (r: bool)
        ensures
            r == (self.0 != 0),
    {
        self.0 != 0
    }

    #[inline]
    pub fn depth(&self) -> (r: u64)
        ensures
            r == self.0,
    {
        self.0
    }
}

/// Arm TME.
pub struct HTM();

impl HTM {
    /// Encodes the argument of `__tcancel`: the reason bits, and bit 15 when the transaction may
    /// be retried.
    #[inline]
    pub fn _tcancel_code(reason: u64, retryable: bool) -> (r: u64)
        ensures
            r == (if retryable {
                TMFAILURE_RTRY
            } else {
                0
            }) | (reason & TMFAILURE_REASON),
    {
        let retry: u64 = if retryable {
            TMFAILURE_RTRY
        } else {
            0
        };
        retry | (reason & TMFAILURE_REASON)
    }
}

} // verus!
