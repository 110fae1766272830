use crate::txn::conflicts::{validates, ConflictManager};
use crate::txn::errors::TxnErrorType;
use crate::txn::readset::{ReadMark, ReadSet};
use crate::txn::vars::{Duplicate, TVar, VarState};
use crate::txn::writeset::{published, WriteMark, WriteSet};
use vstd::prelude::*;

verus! {

/// How many conflicting attempts `Txn::begin` runs before it reports `Retry`.
pub const MAX_ATTEMPTS: u64 = 18446744073709551615;

/// Concurrency control of a transaction.
#[derive(Clone, Copy, Debug, PartialEq, Eq, Structural)]
pub enum TransactionConcurrency {
    Optimistic,
    Pessimistic,
}

/// Isolation level of a transaction.
#[derive(Clone, Copy, Debug, PartialEq, Eq, Structural)]
pub enum TransactionIsolation {
    /// Every read sees the latest committed value.
    ReadCommitted,
    /// Reads within an attempt are stable: a variable read and then changed by another
    /// transaction fails the attempt.
    RepeatableRead,
    /// Repeatable reads, and no other writer may have touched a variable this attempt writes.
    Serializable,
}

/// Life-cycle state of a transaction.
#[derive(Clone, Copy, Debug, PartialEq, Eq, Structural)]
pub enum TransactionState {
    Active,
    Preparing,
    Prepared,
    MarkedRollback,
    Committing,
    Committed,
    RollingBack,
    RolledBack,
    Unknown,
    Suspended,
}

/// The version clock, the transaction id counter and the published state of every
/// transactional variable, indexed by variable id.
///
/// A commit takes the manager by exclusive reference: that borrow is what holds the write
/// locks of the variables it publishes, so validation and publication happen as one step and
/// no variable is ever seen locked by another transaction.
pub struct TxnManager<T> {
    clock: u64,
    txid: u64,
    cells: Vec<VarState<T>>,
}

impl<T> TxnManager<T> {
    /// Published state of the variables, by id.
    pub closed spec fn view(&self) -> Seq<VarState<T>> {
        self.cells@
    }

    /// The version clock: the stamp of the latest commit.
    pub closed spec fn clock(&self) -> u64 {
        self.clock
    }

    /// The latest transaction id handed out.
    pub closed spec fn last_txid(&self) -> u64 {
        self.txid
    }

    /// No published stamp is ahead of the clock.
    pub open spec fn wf(&self) -> bool {
        forall|i: int| 0 <= i < self@.len() ==> #[trigger] self@[i].stamp <= self.clock()
    }

    /// A manager with its clock at zero and no variables.
    pub fn manager() -> (r: TxnManager<T>)
        ensures
            r.wf(),
            r@ == Seq::<VarState<T>>::empty(),
            r.clock() == 0,
            r.last_txid() == 0,
    {
        TxnManager { clock: 0, txid: 0, cells: Vec::new() }
    }

    /// The version clock.
    pub fn version_clock(&self) -> (r: u64)
        ensures
            r == self.clock(),
    {
        self.clock
    }

    /// Position of variable `id` in the table of variables.
    fn slot(&self, id: u64) -> (r: usize)
        requires
            (id as int) < self@.len(),
        ensures
            r as int == id as int,
            self@.len() <= usize::MAX,
    {
        let count = self.cells.len();
        proof {
            assert((id as int) < count);
        }
        id as usize
    }

    /// Number of variables created so far.
    pub fn var_count(&self) -> (r: usize)
        ensures
            r == self@.len(),
    {
        self.cells.len()
    }

    /// The published value of variable `id`.
    pub fn published(&self, id: u64) -> (r: &T)
        requires
            (id as int) < self@.len(),
        ensures
            *r == self@[id as int].data,
    {
        &self.cells[self.slot(id)].data
    }

    /// The stamp of the commit that published variable `id`.
    pub fn stamp_of(&self, id: u64) -> (r: u64)
        requires
            (id as int) < self@.len(),
        ensures
            r == self@[id as int].stamp,
    {
        self.cells[self.slot(id)].stamp
    }

    /// The modification revision of variable `id`.
    pub fn modrev_of(&self, id: u64) -> (r: u64)
        requires
            (id as int) < self@.len(),
        ensures
            r == self@[id as int].modrev,
    {
        self.cells[self.slot(id)].modrev
    }

    /// Creates a variable holding `data`, stamped with the current clock; its id is the
    /// number of variables created before it.
    pub fn new_tvar(&mut self, data: T, timeout: usize) -> (r: TVar<T>)
        ensures
            final(self)@ == old(self)@.push(
                VarState { data, stamp: old(self).clock(), modrev: old(self).clock() },
            ),
            r.id() == old(self)@.len(),
            r.timeout() == timeout,
            final(self).clock() == old(self).clock(),
            final(self).last_txid() == old(self).last_txid(),
            old(self).wf() ==> final(self).wf(),
    {
        let id = self.cells.len() as u64;
        let stamp = self.clock;
        self.cells.push(VarState { data, stamp, modrev: stamp });
        TVar::with_id(id, timeout)
    }

    /// Builds a transaction with the given configuration. Optimistic read-committed and every
    /// pessimistic combination are not provided and fail with `NotImplemented`.
    pub fn txn_build(
        &mut self,
        cc: TransactionConcurrency,
        iso: TransactionIsolation,
        timeout: usize,
        tx_size: usize,
        label: String,
    ) -> (r: Result<Txn<T>, TxnErrorType>)
        ensures
            final(self)@ == old(self)@,
            final(self).clock() == old(self).clock(),
            match r {
                Ok(t) => {
                    &&& cc == TransactionConcurrency::Optimistic
                    &&& iso != TransactionIsolation::ReadCommitted
                    &&& final(self).last_txid() == if old(self).last_txid() == u64::MAX {
                        u64::MAX
                    } else {
                        (old(self).last_txid() + 1) as u64
                    }
                    &&& t.txid() == final(self).last_txid()
                    &&& t.state() == TransactionState::Unknown
                    &&& t.concurrency() == cc
                    &&& t.isolation() == iso
                    &&& t.timeout() == timeout
                    &&& t.label() == label@
                    &&& !t.rollback_only()
                    &&& t.rts() == old(self).clock()
                    &&& t.reads() == Map::<u64, ReadMark>::empty()
                    &&& t.writes() == Map::<u64, WriteMark<T>>::empty()
                },
                Err(e) => {
                    &&& e == TxnErrorType::NotImplemented
                    &&& (cc == TransactionConcurrency::Pessimistic || iso
                        == TransactionIsolation::ReadCommitted)
                    &&& final(self).last_txid() == old(self).last_txid()
                },
            },
    {
        match (cc, iso) {
            (TransactionConcurrency::Pessimistic, _) => {
                return Err(TxnErrorType::NotImplemented);
            },
            (_, TransactionIsolation::ReadCommitted) => {
                return Err(TxnErrorType::NotImplemented);
            },
            _ => {},
        }
        self.txid = self.txid.saturating_add(1);
        Ok(
            Txn {
                txid: self.txid,
                iso,
                cc,
                state: TransactionState::Unknown,
                timeout,
                rollback_only: false,
                label,
                rts: self.clock,
                reads: ReadSet::local(),
                writes: WriteSet::local(),
            },
        )
    }
}

/// A transaction: its configuration, its state, and the read and write sets of its current
/// attempt.
pub struct Txn<T> {
    txid: u64,
    iso: TransactionIsolation,
    cc: TransactionConcurrency,
    state: TransactionState,
    timeout: usize,
    rollback_only: bool,
    label: String,
    rts: u64,
    reads: ReadSet,
    writes: WriteSet<T>,
}

/// Modification revision after one more buffered write, saturating at the top.
pub open spec fn raised(modrev: u64) -> u64 {
    if modrev == u64::MAX {
        modrev
    } else {
        (modrev + 1) as u64
    }
}

/// `after` is `before` once the attempt `t` committed over it: the attempt could commit, the
/// clock rose by one, every buffered write was published at the new stamp and nothing else
/// changed, and every variable read had a stamp no later than the read timestamp, so earlier
/// than the new stamp.
pub open spec fn committed<T>(t: Txn<T>, before: TxnManager<T>, after: TxnManager<T>) -> bool {
    &&& t.may_commit(&before)
    &&& after.clock() == before.clock() + 1
    &&& after.clock() > t.rts()
    &&& published(before@, after@, t.writes(), after.clock())
    &&& forall|id: u64|
        #![trigger t.reads().contains_key(id)]
        t.reads().contains_key(id) ==> before@[id as int].stamp <= t.rts() && before@[id as int].stamp
            < after.clock()
    &&& forall|id: u64|
        #![trigger t.writes().contains_key(id)]
        t.writes().contains_key(id) ==> after@[id as int].stamp == after.clock()
            && after@[id as int].data == t.writes()[id].value
}

impl<T> Txn<T> {
    pub closed spec fn txid(&self) -> u64 {
        self.txid
    }

    pub closed spec fn isolation(&self) -> TransactionIsolation {
        self.iso
    }

    pub closed spec fn concurrency(&self) -> TransactionConcurrency {
        self.cc
    }

    pub closed spec fn state(&self) -> TransactionState {
        self.state
    }

    /// Milliseconds allowed for taking the write locks of a commit.
    pub closed spec fn timeout(&self) -> usize {
        self.timeout
    }

    pub closed spec fn rollback_only(&self) -> bool {
        self.rollback_only
    }

    pub closed spec fn label(&self) -> Seq<char> {
        self.label@
    }

    /// Read timestamp: the clock when the current attempt began.
    pub closed spec fn rts(&self) -> u64 {
        self.rts
    }

    /// Reads of the current attempt.
    pub closed spec fn reads(&self) -> Map<u64, ReadMark> {
        self.reads@
    }

    /// Buffered writes of the current attempt.
    pub closed spec fn writes(&self) -> Map<u64, WriteMark<T>> {
        self.writes@
    }

    /// `self` differs from `other` at most in state, read timestamp and sets.
    pub open spec fn same_config(&self, other: &Txn<T>) -> bool {
        &&& self.txid() == other.txid()
        &&& self.isolation() == other.isolation()
        &&& self.concurrency() == other.concurrency()
        &&& self.timeout() == other.timeout()
        &&& self.label() == other.label()
        &&& self.rollback_only() == other.rollback_only()
    }

    /// A rollback of the transaction was asked for.
    pub open spec fn asked_rollback(&self) -> bool {
        ||| self.rollback_only()
        ||| self.state() == TransactionState::MarkedRollback
        ||| self.state() == TransactionState::RollingBack
        ||| self.state() == TransactionState::RolledBack
    }

    /// The commit of an attempt of `self` over `mgr` succeeds.
    pub open spec fn may_commit(&self, mgr: &TxnManager<T>) -> bool {
        &&& self.state() == TransactionState::Active
        &&& !self.rollback_only()
        &&& self.rts() <= mgr.clock()
        &&& mgr.clock() < u64::MAX
        &&& validates(mgr@, self.rts(), self.isolation(), self.reads(), self.writes())
    }

    pub fn get_id(&self) -> (r: u64)
        ensures
            r == self.txid(),
    {
        self.txid
    }

    /// Whether a rollback of the transaction was asked for: it is marked rollback-only, or its
    /// state is one of the rollback states.
    pub fn rollback_requested(&self) -> (r: bool)
        ensures
            r == self.asked_rollback(),
    {
        match self.state {
            TransactionState::MarkedRollback => true,
            TransactionState::RollingBack => true,
            TransactionState::RolledBack => true,
            _ => self.rollback_only,
        }
    }

    pub fn get_state(&self) -> (r: TransactionState)
        ensures
            r == self.state(),
    {
        self.state
    }

    /// Begins an attempt: the transaction becomes active, takes the clock as its read
    /// timestamp and starts with empty sets.
    pub fn start(&mut self, mgr: &TxnManager<T>)
        ensures
            final(self).same_config(old(self)),
            final(self).state() == TransactionState::Active,
            final(self).rts() == mgr.clock(),
            final(self).reads() == Map::<u64, ReadMark>::empty(),
            final(self).writes() == Map::<u64, WriteMark<T>>::empty(),
    {
        self.rts = mgr.clock;
        self.state = TransactionState::Active;
        self.reads.clear();
        self.writes.clear();
    }

    /// Marks the transaction so that its only possible outcome is a rollback.
    pub fn set_rollback_only(&mut self, flag: bool)
        ensures
            final(self).rollback_only() == flag,
            final(self).state() == old(self).state(),
            final(self).rts() == old(self).rts(),
            final(self).reads() == old(self).reads(),
            final(self).writes() == old(self).writes(),
    {
        self.rollback_only = flag;
    }

    /// Asks for the transaction to be rolled back.
    pub fn rollback(&mut self)
        ensures
            final(self).same_config(old(self)),
            final(self).state() == TransactionState::MarkedRollback,
            final(self).rts() == old(self).rts(),
            final(self).reads() == old(self).reads(),
            final(self).writes() == old(self).writes(),
    {
        self.state = TransactionState::MarkedRollback;
    }

    /// Suspends an optimistic transaction; reads and writes then see published data only.
    pub fn suspend(&mut self)
        ensures
            final(self).same_config(old(self)),
            final(self).state() == if old(self).concurrency() == TransactionConcurrency::Optimistic {
                TransactionState::Suspended
            } else {
                old(self).state()
            },
            final(self).rts() == old(self).rts(),
            final(self).reads() == old(self).reads(),
            final(self).writes() == old(self).writes(),
    {
        match self.cc {
            TransactionConcurrency::Optimistic => {
                self.state = TransactionState::Suspended;
            },
            _ => {},
        }
    }

    /// Resumes a suspended optimistic transaction.
    pub fn resume(&mut self)
        ensures
            final(self).same_config(old(self)),
            final(self).state() == if old(self).concurrency() == TransactionConcurrency::Optimistic {
                TransactionState::Active
            } else {
                old(self).state()
            },
            final(self).rts() == old(self).rts(),
            final(self).reads() == old(self).reads(),
            final(self).writes() == old(self).writes(),
    {
        match self.cc {
            TransactionConcurrency::Optimistic => {
                self.state = TransactionState::Active;
            },
            _ => {},
        }
    }

    /// Whether the current attempt passes validation over `mgr`.
    pub fn validate(&self, mgr: &TxnManager<T>) -> (r: bool)
        ensures
            r == validates(mgr@, self.rts(), self.isolation(), self.reads(), self.writes()),
    {
        ConflictManager::check(&self.iso, self.rts, &self.reads, &self.writes, &mgr.cells)
    }

    /// Ends the attempt without publishing: the sets are dropped, the read timestamp is
    /// refreshed and the transaction is rolled back.
    fn on_abort(&mut self, mgr: &TxnManager<T>)
        ensures
            final(self).same_config(old(self)),
            final(self).state() == TransactionState::RolledBack,
            final(self).rts() == mgr.clock(),
            final(self).reads() == Map::<u64, ReadMark>::empty(),
            final(self).writes() == Map::<u64, WriteMark<T>>::empty(),
    {
        self.reads.clear();
        self.writes.clear();
        self.rts = mgr.clock;
        self.state = TransactionState::RolledBack;
    }

    /// Commits the current attempt when it is active, not marked rollback-only and passes
    /// validation: draws the next stamp from the clock and publishes every buffered write at
    /// it. Otherwise the attempt is rolled back and `mgr` is left as it was.
    pub fn commit(&mut self, mgr: &mut TxnManager<T>) -> (r: bool)
        ensures
            r == old(self).may_commit(old(mgr)),
            final(self).same_config(old(self)),
            final(self).reads() == Map::<u64, ReadMark>::empty(),
            final(self).writes() == Map::<u64, WriteMark<T>>::empty(),
            final(mgr).last_txid() == old(mgr).last_txid(),
            r ==> committed(*old(self), *old(mgr), *final(mgr)),
            r ==> {
                &&& final(self).state() == TransactionState::Committed
                &&& final(mgr).clock() == old(mgr).clock() + 1
                &&& published(old(mgr)@, final(mgr)@, old(self).writes(), final(mgr).clock())
                &&& forall|id: u64|
                    #![trigger old(self).reads().contains_key(id)]
                    old(self).reads().contains_key(id) ==> old(mgr)@[id as int].stamp <= old(
                        self,
                    ).rts() && old(mgr)@[id as int].stamp < final(mgr).clock()
                &&& forall|id: u64|
                    #![trigger old(self).writes().contains_key(id)]
                    old(self).writes().contains_key(id) ==> final(mgr)@[id as int].stamp
                        == final(mgr).clock() && final(mgr)@[id as int].data == old(
                        self,
                    ).writes()[id].value
                &&& final(mgr).clock() > old(self).rts()
            },
            !r ==> {
                &&& final(self).state() == TransactionState::RolledBack
                &&& final(self).rts() == old(mgr).clock()
                &&& final(mgr)@ == old(mgr)@
                &&& final(mgr).clock() == old(mgr).clock()
            },
            old(mgr).wf() ==> final(mgr).wf(),
    {
        let active = match self.state {
            TransactionState::Active => true,
            _ => false,
        };
        if !active || self.rollback_only || self.rts > mgr.clock || mgr.clock == u64::MAX
            || !self.validate(mgr) {
            self.on_abort(mgr);
            return false;
        }
        let ghost before = mgr.cells@;
        let ghost ws = self.writes@;
        let ghost was_wf = mgr.wf();
        let total = mgr.cells.len();
        let wts = mgr.clock + 1;
        mgr.clock = wts;
        self.writes.publish(&mut mgr.cells, wts);
        self.reads.clear();
        self.state = TransactionState::Committed;
        proof {
            assert forall|id: u64| #![trigger ws.contains_key(id)] ws.contains_key(id) implies mgr.cells@[id as int].stamp
                == wts && mgr.cells@[id as int].data == ws[id].value by {
                assert((id as int) < before.len());
            }
            if was_wf {
                assert forall|i: int| 0 <= i < mgr.cells@.len() implies #[trigger] mgr.cells@[i].stamp
                    <= mgr.clock by {
                    assert(i < total);
                    if !ws.contains_key(i as u64) {
                        assert(mgr.cells@[i] == before[i]);
                        assert(before[i].stamp <= wts - 1);
                    }
                }
            }
        }
        true
    }
}

impl<T: Duplicate> Txn<T> {
    /// Reads `var`. An active attempt reads its own buffered write when it has one; otherwise
    /// it records what it observed in its read set, keeping the first observation, and reads
    /// the published value. In any other state the published value is read and nothing is
    /// recorded.
    pub fn read(&mut self, mgr: &TxnManager<T>, var: &TVar<T>) -> (r: T)
        requires
            (var.id() as int) < mgr@.len(),
        ensures
            final(self).same_config(old(self)),
            final(self).state() == old(self).state(),
            final(self).rts() == old(self).rts(),
            final(self).writes() == old(self).writes(),
            ({
                let id = var.id();
                let cell = mgr@[id as int];
                if old(self).state() == TransactionState::Active && old(self).writes().contains_key(id) {
                    &&& r == old(self).writes()[id].value
                    &&& final(self).reads() == old(self).reads()
                } else if old(self).state() == TransactionState::Active {
                    &&& r == cell.data
                    &&& final(self).reads() == if old(self).reads().contains_key(id) {
                        old(self).reads()
                    } else {
                        old(self).reads().insert(
                            id,
                            ReadMark { stamp: cell.stamp, modrev: cell.modrev },
                        )
                    }
                } else {
                    &&& r == cell.data
                    &&& final(self).reads() == old(self).reads()
                }
            }),
    {
        let id = var.get_id();
        let cell = &mgr.cells[mgr.slot(id)];
        match self.state {
            TransactionState::Active => {
                match self.writes.get(id) {
                    Some(w) => w.value.duplicate(),
                    None => {
                        self.reads.add(id, ReadMark { stamp: cell.stamp, modrev: cell.modrev });
                        cell.data.duplicate()
                    },
                }
            },
            _ => cell.data.duplicate(),
        }
    }

    /// Writes `value` to `var`. An active attempt buffers it: the first buffered write of a
    /// variable raises the variable's modification revision and remembers its stamp; a later
    /// one replaces the buffered value. In any other state nothing is buffered and the
    /// published value is returned.
    pub fn write(&mut self, mgr: &mut TxnManager<T>, var: &TVar<T>, value: T) -> (r: T)
        requires
            (var.id() as int) < old(mgr)@.len(),
        ensures
            final(self).same_config(old(self)),
            final(self).state() == old(self).state(),
            final(self).rts() == old(self).rts(),
            final(self).reads() == old(self).reads(),
            final(mgr).clock() == old(mgr).clock(),
            final(mgr).last_txid() == old(mgr).last_txid(),
            old(mgr).wf() ==> final(mgr).wf(),
            ({
                let id = var.id();
                let cell = old(mgr)@[id as int];
                if old(self).state() == TransactionState::Active && old(self).writes().contains_key(id) {
                    let w = old(self).writes()[id];
                    &&& r == value
                    &&& final(mgr)@ == old(mgr)@
                    &&& final(self).writes() == old(self).writes().insert(
                        id,
                        WriteMark { value, stamp: w.stamp, modrev: w.modrev },
                    )
                } else if old(self).state() == TransactionState::Active {
                    &&& r == value
                    &&& final(mgr)@ == old(mgr)@.update(
                        id as int,
                        VarState { data: cell.data, stamp: cell.stamp, modrev: raised(cell.modrev) },
                    )
                    &&& final(self).writes() == old(self).writes().insert(
                        id,
                        WriteMark { value, stamp: cell.stamp, modrev: raised(cell.modrev) },
                    )
                } else {
                    &&& r == cell.data
                    &&& final(mgr)@ == old(mgr)@
                    &&& final(self).writes() == old(self).writes()
                }
            }),
    {
        let id = var.get_id();
        let i = mgr.slot(id);
        match self.state {
            TransactionState::Active => {
                let out = value.duplicate();
                let (stamp, modrev) = match self.writes.get(id) {
                    Some(w) => (w.stamp, w.modrev),
                    None => {
                        let modrev = mgr.cells[i].modrev.saturating_add(1);
                        mgr.cells[i].modrev = modrev;
                        (mgr.cells[i].stamp, modrev)
                    },
                };
                self.writes.put(id, WriteMark { value, stamp, modrev });
                out
            },
            _ => mgr.cells[i].data.duplicate(),
        }
    }

    /// Runs `body` in attempts until one commits, and returns what that attempt's body
    /// returned. An attempt that fails validation is retried, up to `MAX_ATTEMPTS` times; an
    /// attempt whose body asked for a rollback ends the transaction with `Abort`, publishing
    /// nothing. On success, the committing attempt published its writes as `commit` states.
    pub fn begin<R, F: Fn(&mut Txn<T>, &mut TxnManager<T>) -> R>(
        &mut self,
        mgr: &mut TxnManager<T>,
        body: F,
    ) -> (r: Result<R, TxnErrorType>)
        requires
            forall|t: &mut Txn<T>, m: &mut TxnManager<T>| body.requires((t, m)),
        ensures
            final(self).reads() == Map::<u64, ReadMark>::empty(),
            final(self).writes() == Map::<u64, WriteMark<T>>::empty(),
            match r {
                Ok(_) => {
                    &&& final(self).state() == TransactionState::Committed
                    &&& exists|t1: Txn<T>, m1: TxnManager<T>|
                        #[trigger] committed(t1, m1, *final(mgr))
                },
                Err(e) => {
                    &&& final(self).state() == TransactionState::RolledBack
                    &&& final(self).rts() == final(mgr).clock()
                    &&& (e == TxnErrorType::Abort || e == TxnErrorType::Retry)
                    &&& e == TxnErrorType::Abort ==> exists|t1: Txn<T>|
                        #[trigger] t1.asked_rollback()
                    &&& e == TxnErrorType::Retry ==> exists|t1: Txn<T>, m1: TxnManager<T>|
                        {
                            &&& !#[trigger] t1.may_commit(&m1)
                            &&& final(mgr)@ == m1@
                            &&& final(mgr).clock() == m1.clock()
                        }
                },
            },
    {
        let ghost mut last_t = *self;
        let ghost mut last_m = *mgr;
        let mut attempts: u64 = 0;
        while attempts < MAX_ATTEMPTS
            invariant
                forall|t: &mut Txn<T>, m: &mut TxnManager<T>| body.requires((t, m)),
                attempts > 0 ==> {
                    &&& !last_t.may_commit(&last_m)
                    &&& mgr@ == last_m@
                    &&& mgr.clock() == last_m.clock()
                },
            decreases MAX_ATTEMPTS - attempts,
        {
            self.start(mgr);
            let res = body(self, mgr);
            if self.rollback_requested() {
                let ghost asked = *self;
                self.on_abort(mgr);
                assert(asked.asked_rollback());
                return Err(TxnErrorType::Abort);
            }
            let ghost t1 = *self;
            let ghost m1 = *mgr;
            if self.commit(mgr) {
                assert(committed(t1, m1, *mgr));
                return Ok(res);
            }
            proof {
                last_t = t1;
                last_m = m1;
            }
            attempts = attempts + 1;
        }
        self.on_abort(mgr);
        Err(TxnErrorType::Retry)
    }
}

} // verus!
