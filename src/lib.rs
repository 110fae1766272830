//! Lever: building blocks for transactional in-memory key-value stores.
//!
//! * `sync`: reference-counted single-slot cells and reentrant reader/writer lock bookkeeping
//! * `table`: the transactional sharded table and the hopscotch table
//! * `txn`: transactional variables, read and write sets, the commit protocol
//! * `stats`: counting networks used as approximate hit counters
//! * `index`: balancing networks and zones of the zone index
//! * `htm`: decoding of hardware transactional memory status words
//!
//! Every operation takes its structure by reference, shared or exclusive; callers that share a
//! structure between threads put it behind a lock of their own.
pub mod htm;
pub mod index;
pub mod stats;
pub mod sync;
pub mod table;
pub mod txn;

use crate::table::hoptable::TableKey;
use crate::table::lotable::{LOTable, DEFAULT_CAP};
use crate::txn::transact::TxnManager;
use vstd::prelude::*;

verus! {

/// Entry point of the library: builds tables and transaction managers.
pub struct Lever;

/// A `Lever` handle.
pub fn lever() -> (r: Lever) {
    Lever
}

impl Lever {
    /// An empty transactional table with `DEFAULT_CAP` shards.
    pub fn new_lotable<K: TableKey, V>(&self) -> (r: LOTable<K, V>)
        ensures
            r.wf(),
            r@ == Map::<K::Model, V>::empty(),
            r.capacity() == DEFAULT_CAP,
    {
        LOTable::new()
    }

    /// A fresh transaction manager.
    pub fn manager<T>(&self) -> (r: TxnManager<T>)
        ensures
            r.wf(),
            r@ == Seq::<crate::txn::vars::VarState<T>>::empty(),
            r.clock() == 0,
    {
        TxnManager::manager()
    }
}

} // verus!
