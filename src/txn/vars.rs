use crate::txn::transact::TxnManager;
use crate::sync::atomics::share;
use std::marker::PhantomData;
use std::sync::Arc;
use vstd::prelude::*;

verus! {

/// A value that transactions can hand out: `duplicate` makes an equal copy of it.
pub trait Duplicate: Sized {
    fn duplicate(&self) -> (r: Self)
        ensures
            r == *self,
    ;
}

impl Duplicate for u64 {
    fn duplicate(&self) -> (r: u64) {
        *self
    }
}

impl Duplicate for i64 {
    fn duplicate(&self) -> (r: i64) {
        *self
    }
}

impl Duplicate for u32 {
    fn duplicate(&self) -> (r: u32) {
        *self
    }
}

impl Duplicate for i32 {
    fn duplicate(&self) -> (r: i32) {
        *self
    }
}

impl Duplicate for usize {
    fn duplicate(&self) -> (r: usize) {
        *self
    }
}

impl Duplicate for bool {
    fn duplicate(&self) -> (r: bool) {
        *self
    }
}

impl Duplicate for String {
    fn duplicate(&self) -> (r: String) {
        self.clone()
    }
}

impl<X> Duplicate for Arc<X> {
    fn duplicate(&self) -> (r: Arc<X>) {
        share(self)
    }
}

/// The published state of a transactional variable: its value, the stamp of the commit that
/// published it, and its modification revision.
pub struct VarState<T> {
    pub data: T,
    pub stamp: u64,
    pub modrev: u64,
}

/// Handle of a transactional variable kept by a `TxnManager`.
pub struct TVar<T> {
    id: u64,
    timeout: usize,
    marker: PhantomData<T>,
}

impl<T> TVar<T> {
    /// The variable's id: its index among the manager's variables.
    pub closed spec fn id(&self) -> u64 {
        self.id
    }

    /// Lock timeout of the variable, in milliseconds.
    pub closed spec fn timeout(&self) -> usize {
        self.timeout
    }

    pub(crate) fn with_id(id: u64, timeout: usize) -> (r: TVar<T>)
        ensures
            r.id() == id,
            r.timeout() == timeout,
    {
        TVar { id, timeout, marker: PhantomData }
    }

    /// Creates a variable holding `data` in `mgr`, stamped with its current clock.
    pub fn new(mgr: &mut TxnManager<T>, data: T) -> (r: TVar<T>)
        ensures
            final(mgr)@ == old(mgr)@.push(
                VarState { data, stamp: old(mgr).clock(), modrev: old(mgr).clock() },
            ),
            r.id() == old(mgr)@.len(),
            r.timeout() == 0,
            final(mgr).clock() == old(mgr).clock(),
            final(mgr).last_txid() == old(mgr).last_txid(),
            old(mgr).wf() ==> final(mgr).wf(),
    {
        mgr.new_tvar(data, 0)
    }

    /// Like `new`, with a lock timeout of its own for the variable.
    pub fn new_with_timeout(mgr: &mut TxnManager<T>, data: T, timeout: usize) -> (r: TVar<T>)
        ensures
            final(mgr)@ == old(mgr)@.push(
                VarState { data, stamp: old(mgr).clock(), modrev: old(mgr).clock() },
            ),
            r.id() == old(mgr)@.len(),
            r.timeout() == timeout,
            final(mgr).clock() == old(mgr).clock(),
            final(mgr).last_txid() == old(mgr).last_txid(),
            old(mgr).wf() ==> final(mgr).wf(),
    {
        mgr.new_tvar(data, timeout)
    }

    /// The variable's id.
    pub fn get_id(&self) -> (r: u64)
        ensures
            r == self.id(),
    {
        self.id
    }
}

impl<T: Duplicate> TVar<T> {
    /// The published value of the variable, outside any transaction.
    pub fn get_data(&self, mgr: &TxnManager<T>) -> (r: T)
        requires
            (self.id() as int) < mgr@.len(),
        ensures
            r == mgr@[self.id() as int].data,
    {
        mgr.published(self.id).duplicate()
    }
}

} // verus!
