use crate::table::hoptable::TableKey;
use crate::txn::errors::TxnErrorType;
use crate::txn::readset::ReadMark;
use crate::txn::transact::{
    TransactionConcurrency, TransactionIsolation, TransactionState, Txn, TxnManager,
};
use crate::txn::vars::{Duplicate, TVar, VarState};
use crate::txn::writeset::WriteMark;
use std::sync::Arc;
use vstd::pervasive::unreached;
use vstd::prelude::*;

verus! {

/// An immutable-style map: a list of entries with distinct keys. Updates build a new shard.
pub struct Shard<K: TableKey, V> {
    entries: Vec<(K, V)>,
    map: Ghost<Map<K::Model, V>>,
    pos: Ghost<Map<K::Model, int>>,
}

impl<K: TableKey, V> Shard<K, V> {
    /// The entries, by key model.
    pub closed spec fn view(&self) -> Map<K::Model, V> {
        self.map@
    }

    pub closed spec fn wf(&self) -> bool {
        &&& forall|i: int|
            0 <= i < self.entries@.len() ==> {
                let m = (#[trigger] self.entries@[i]).0.model();
                &&& self.map@.contains_key(m)
                &&& self.pos@.contains_key(m)
                &&& self.pos@[m] == i
                &&& self.map@[m] == self.entries@[i].1
            }
        &&& forall|m: K::Model|
            #![trigger self.map@.contains_key(m)]
            self.map@.contains_key(m) ==> {
                &&& self.pos@.contains_key(m)
                &&& 0 <= self.pos@[m] < self.entries@.len()
                &&& self.entries@[self.pos@[m]].0.model() == m
            }
    }

    /// A shard with no entries.
    pub fn empty() -> (r: Shard<K, V>)
        ensures
            r.wf(),
            r@ == Map::<K::Model, V>::empty(),
    {
        Shard { entries: Vec::new(), map: Ghost(Map::empty()), pos: Ghost(Map::empty()) }
    }

    /// Number of entries.
    pub fn len(&self) -> (r: usize)
        requires
            self.wf(),
        ensures
            r == self@.len(),
    {
        proof {
            self.lemma_len();
        }
        self.entries.len()
    }

    proof fn lemma_len(&self)
        requires
            self.wf(),
        ensures
            self@.len() == self.entries@.len(),
            self@.dom().finite(),
    {
        let models = Seq::new(self.entries@.len(), |i: int| self.entries@[i].0.model());
        assert forall|i: int, j: int| 0 <= i < j < models.len() implies models[i] != models[j] by {
            assert(self.pos@[models[i]] == i);
            assert(self.entries@[j].0.model() == models[j]);
        }
        assert(self@.dom() =~= models.to_set()) by {
            assert forall|m: K::Model| self@.dom().contains(m) implies models.to_set().contains(m) by {
                assert(models[self.pos@[m]] == m);
            }
        }
        models.unique_seq_to_set();
    }

    /// Index of the entry with the key of `k`, if any.
    fn index_of(&self, k: &K) -> (r: Option<usize>)
        requires
            self.wf(),
        ensures
            match r {
                Some(i) => i < self.entries@.len() && self.entries@[i as int].0.model() == k.model()
                    && self@.contains_key(k.model()),
                None => !self@.contains_key(k.model()),
            },
    {
        let mut i: usize = 0;
        while i < self.entries.len()
            invariant
                self.wf(),
                i <= self.entries@.len(),
                forall|j: int| 0 <= j < i ==> (#[trigger] self.entries@[j]).0.model() != k.model(),
            decreases self.entries@.len() - i,
        {
            if self.entries[i].0.same_key(k) {
                return Some(i);
            }
            i = i + 1;
        }
        proof {
            if self@.contains_key(k.model()) {
                assert(self.entries@[self.pos@[k.model()]].0.model() == k.model());
            }
        }
        None
    }

    /// Whether the shard holds the key of `k`.
    pub fn contains_key(&self, k: &K) -> (r: bool)
        requires
            self.wf(),
        ensures
            r == self@.contains_key(k.model()),
    {
        self.index_of(k).is_some()
    }
}

impl<K: TableKey, V: Duplicate> Shard<K, V> {
    /// The value under the key of `k`, if any.
    pub fn get(&self, k: &K) -> (r: Option<V>)
        requires
            self.wf(),
        ensures
            r == if self@.contains_key(k.model()) {
                Some(self@[k.model()])
            } else {
                None
            },
    {
        match self.index_of(k) {
            Some(i) => Some(self.entries[i].1.duplicate()),
            None => None,
        }
    }

    /// A copy of the shard without the key of `k`.
    pub fn without(&self, k: &K) -> (r: Shard<K, V>)
        requires
            self.wf(),
        ensures
            r.wf(),
            r@ == self@.remove(k.model()),
    {
        let ghost m = k.model();
        let mut out = Shard::empty();
        let mut i: usize = 0;
        while i < self.entries.len()
            invariant
                self.wf(),
                out.wf(),
                m == k.model(),
                i <= self.entries@.len(),
                forall|x: K::Model|
                    #![trigger out@.contains_key(x)]
                    out@.contains_key(x) <==> (self@.contains_key(x) && x != m && self.pos@[x]
                        < i),
                forall|x: K::Model| #![trigger out@.contains_key(x)] out@.contains_key(x) ==> out@[x] == self@[x],
            decreases self.entries@.len() - i,
        {
            let e = &self.entries[i];
            if !e.0.same_key(k) {
                let ghost xm = e.0.model();
                let ghost before = out;
                let key = e.0.duplicate_key();
                let val = e.1.duplicate();
                let n = out.entries.len();
                out.entries.push((key, val));
                out.map = Ghost(out.map@.insert(xm, val));
                out.pos = Ghost(out.pos@.insert(xm, n as int));
                proof {
                    assert(self.pos@[xm] == i);
                    assert(!before@.contains_key(xm));
                    assert forall|j: int| 0 <= j < out.entries@.len() implies {
                        let mm = (#[trigger] out.entries@[j]).0.model();
                        &&& out.map@.contains_key(mm)
                        &&& out.pos@.contains_key(mm)
                        &&& out.pos@[mm] == j
                        &&& out.map@[mm] == out.entries@[j].1
                    } by {
                        if j < n {
                            assert(out.entries@[j] == before.entries@[j]);
                            assert(before.map@.contains_key(before.entries@[j].0.model()));
                        }
                    }
                    assert forall|x: K::Model|
                        #![trigger out.map@.contains_key(x)]
                        out.map@.contains_key(x) implies {
                        &&& out.pos@.contains_key(x)
                        &&& 0 <= out.pos@[x] < out.entries@.len()
                        &&& out.entries@[out.pos@[x]].0.model() == x
                    } by {
                        if x != xm {
                            assert(before.map@.contains_key(x));
                            assert(out.entries@[out.pos@[x]] == before.entries@[before.pos@[x]]);
                        }
                    }
                    assert forall|x: K::Model|
                        #![trigger out@.contains_key(x)]
                        out@.contains_key(x) <==> (self@.contains_key(x) && x != m && self.pos@[x]
                            < i + 1) by {
                        if self@.contains_key(x) && self.pos@[x] == i {
                            assert(self.entries@[i as int].0.model() == x);
                        }
                    }
                }
            } else {
                proof {
                    assert forall|x: K::Model|
                        #![trigger out@.contains_key(x)]
                        out@.contains_key(x) <==> (self@.contains_key(x) && x != m && self.pos@[x]
                            < i + 1) by {
                        if self@.contains_key(x) && self.pos@[x] == i {
                            assert(self.entries@[i as int].0.model() == x);
                        }
                    }
                }
            }
            i = i + 1;
        }
        proof {
            assert(out@ =~= self@.remove(m));
        }
        out
    }

    /// A copy of the shard with `v` under the key of `k`, replacing any value it had.
    pub fn with(&self, k: K, v: V) -> (r: Shard<K, V>)
        requires
            self.wf(),
        ensures
            r.wf(),
            r@ == self@.insert(k.model(), v),
    {
        let ghost m = k.model();
        let mut out = self.without(&k);
        let ghost before = out;
        let n = out.entries.len();
        out.entries.push((k, v));
        out.map = Ghost(out.map@.insert(m, v));
        out.pos = Ghost(out.pos@.insert(m, n as int));
        proof {
            assert forall|j: int| 0 <= j < out.entries@.len() implies {
                let mm = (#[trigger] out.entries@[j]).0.model();
                &&& out.map@.contains_key(mm)
                &&& out.pos@.contains_key(mm)
                &&& out.pos@[mm] == j
                &&& out.map@[mm] == out.entries@[j].1
            } by {
                if j < n {
                    assert(out.entries@[j] == before.entries@[j]);
                    assert(before.map@.contains_key(before.entries@[j].0.model()));
                }
            }
            assert forall|x: K::Model|
                #![trigger out.map@.contains_key(x)]
                out.map@.contains_key(x) implies {
                &&& out.pos@.contains_key(x)
                &&& 0 <= out.pos@[x] < out.entries@.len()
                &&& out.entries@[out.pos@[x]].0.model() == x
            } by {
                if x != m {
                    assert(before.map@.contains_key(x));
                    assert(out.entries@[out.pos@[x]] == before.entries@[before.pos@[x]]);
                }
            }
            assert(out@ =~= self@.insert(m, v));
        }
        out
    }
}

/// A change to one shard.
pub enum ShardOp<K, V> {
    /// Store a value under a key.
    Put(K, V),
    /// Remove a key.
    Drop(K),
    /// Remove every key.
    Empty,
}

/// The model of the key a change is about, if any.
pub open spec fn op_key_model<K: TableKey, V>(op: ShardOp<K, V>) -> Option<K::Model> {
    match op {
        ShardOp::Put(k, _) => Some(k.model()),
        ShardOp::Drop(k) => Some(k.model()),
        ShardOp::Empty => None,
    }
}

/// The key a change is about, if any, has its home at `i`.
pub open spec fn op_key_home<K: TableKey, V>(
    op: ShardOp<K, V>,
    home: spec_fn(K::Model) -> int,
    i: int,
) -> bool {
    match op_key_model(op) {
        Some(m) => home(m) == i,
        None => true,
    }
}

/// The map `m` after the change.
pub open spec fn op_view<K: TableKey, V>(m: Map<K::Model, V>, op: ShardOp<K, V>) -> Map<K::Model, V> {
    match op {
        ShardOp::Put(k, v) => m.insert(k.model(), v),
        ShardOp::Drop(k) => m.remove(k.model()),
        ShardOp::Empty => Map::empty(),
    }
}

/// What the key of the change had in `m`, if anything.
pub open spec fn op_previous<K: TableKey, V>(m: Map<K::Model, V>, op: ShardOp<K, V>) -> Option<V> {
    match op_key_model(op) {
        Some(km) => if m.contains_key(km) {
            Some(m[km])
        } else {
            None
        },
        None => None,
    }
}

/// Number of shards of a table made by `new`.
pub const DEFAULT_CAP: usize = 1024;

/// Sharded transactional hash table: each key lives in the shard its hash picks, and each
/// shard is a transactional variable over an immutable-style map. Updates run as transactions
/// that read the shard and write a new map into it.
pub struct LOTable<K: TableKey, V> {
    latch: Vec<TVar<Arc<Shard<K, V>>>>,
    txn_man: TxnManager<Arc<Shard<K, V>>>,
    txn: Txn<Arc<Shard<K, V>>>,
}

impl<K: TableKey, V> LOTable<K, V> {
    /// Number of shards.
    pub closed spec fn capacity(&self) -> nat {
        self.latch@.len()
    }

    /// The version clock of the table's transactions.
    pub closed spec fn clock(&self) -> u64 {
        self.txn_man.clock()
    }

    /// The manager of the table's transactions.
    pub closed spec fn manager(&self) -> TxnManager<Arc<Shard<K, V>>> {
        self.txn_man
    }

    /// The shard a key with model `m` lives in.
    pub closed spec fn home(&self, m: K::Model) -> int {
        (K::hash_model(m) % (self.latch@.len() as u64)) as int
    }

    /// The map published in shard `i`.
    pub closed spec fn shard(&self, i: int) -> Shard<K, V> {
        *self.txn_man@[i].data
    }

    /// The entries of the table.
    pub closed spec fn view(&self) -> Map<K::Model, V> {
        Map::new(
            |m: K::Model| self.shard(self.home(m))@.contains_key(m),
            |m: K::Model| self.shard(self.home(m))@[m],
        )
    }

    pub closed spec fn wf(&self) -> bool {
        &&& 0 < self.latch@.len() <= usize::MAX
        &&& self.txn_man@.len() == self.latch@.len()
        &&& self.txn_man.wf()
        &&& forall|i: int| 0 <= i < self.latch@.len() ==> (#[trigger] self.latch@[i]).id() == i
        &&& self.txn.isolation() == TransactionIsolation::RepeatableRead
        &&& !self.txn.rollback_only()
        &&& forall|i: int|
            #![trigger self.shard(i)]
            0 <= i < self.latch@.len() ==> {
                &&& self.shard(i).wf()
                &&& forall|m: K::Model|
                    self.shard(i)@.contains_key(m) ==> #[trigger] self.home(m) == i
            }
    }

    proof fn lemma_home_bound(&self, m: K::Model)
        requires
            self.wf(),
        ensures
            0 <= self.home(m) < self.latch@.len(),
    {
    }

    fn home_of(&self, k: &K) -> (r: usize)
        requires
            self.wf(),
        ensures
            r as int == self.home(k.model()),
            r < self.latch@.len(),
    {
        let n = self.latch.len() as u64;
        (k.hash_code() % n) as usize
    }

    /// The manager of the table's transactions.
    pub fn tx_manager(&self) -> (r: &TxnManager<Arc<Shard<K, V>>>)
        ensures
            *r == self.manager(),
    {
        &self.txn_man
    }

    /// An empty table with `cap` shards.
    pub fn with_capacity(cap: usize) -> (r: LOTable<K, V>)
        requires
            cap > 0,
        ensures
            r.wf(),
            r@ == Map::<K::Model, V>::empty(),
            r.capacity() == cap,
            r.clock() == 0,
    {
        let mut txn_man: TxnManager<Arc<Shard<K, V>>> = TxnManager::manager();
        let mut latch: Vec<TVar<Arc<Shard<K, V>>>> = Vec::new();
        while latch.len() < cap
            invariant
                latch@.len() <= cap,
                txn_man@.len() == latch@.len(),
                txn_man.wf(),
                txn_man.clock() == 0,
                forall|i: int| 0 <= i < latch@.len() ==> (#[trigger] latch@[i]).id() == i,
                forall|i: int|
                    0 <= i < txn_man@.len() ==> (*(#[trigger] txn_man@[i]).data).wf()
                        && (*txn_man@[i].data)@ == Map::<K::Model, V>::empty(),
            decreases cap - latch@.len(),
        {
            let var = TVar::new(&mut txn_man, Arc::new(Shard::empty()));
            latch.push(var);
        }
        let txn = match txn_man.txn_build(
            TransactionConcurrency::Optimistic,
            TransactionIsolation::RepeatableRead,
            100,
            1,
            String::new(),
        ) {
            Ok(t) => t,
            Err(_) => unreached(),
        };
        let r = LOTable { latch, txn_man, txn };
        assert(r@ =~= Map::<K::Model, V>::empty());
        r
    }

    /// An empty table with `DEFAULT_CAP` shards.
    pub fn new() -> (r: LOTable<K, V>)
        ensures
            r.wf(),
            r@ == Map::<K::Model, V>::empty(),
            r.capacity() == DEFAULT_CAP,
            r.clock() == 0,
    {
        Self::with_capacity(DEFAULT_CAP)
    }

    /// Whether the table holds the key of `k`.
    pub fn contains_key(&self, k: &K) -> (r: bool)
        requires
            self.wf(),
        ensures
            r == self@.contains_key(k.model()),
    {
        let i = self.home_of(k);
        let shard = self.txn_man.published(self.latch[i].get_id());
        proof {
            assert(self.shard(i as int).wf());
        }
        shard.contains_key(k)
    }
}

impl<K: TableKey, V: Duplicate> LOTable<K, V> {
    /// The value stored under `k`.
    pub fn get(&self, k: &K) -> (r: Option<V>)
        requires
            self.wf(),
        ensures
            r == if self@.contains_key(k.model()) {
                Some(self@[k.model()])
            } else {
                None
            },
    {
        let i = self.home_of(k);
        let shard = self.txn_man.published(self.latch[i].get_id());
        proof {
            assert(self.shard(i as int).wf());
        }
        shard.get(k)
    }

    /// Stores `v` under `k` in one transaction, handing back the value `k` had. The commit
    /// fails, leaving the table as it was, only when the version clock is exhausted.
    pub fn insert(&mut self, k: K, v: V) -> (r: Result<Option<V>, TxnErrorType>)
        requires
            old(self).wf(),
        ensures
            final(self).wf(),
            final(self).capacity() == old(self).capacity(),
            r is Ok == (old(self).clock() < u64::MAX),
            match r {
                Ok(prev) => {
                    &&& final(self)@ == old(self)@.insert(k.model(), v)
                    &&& prev == if old(self)@.contains_key(k.model()) {
                        Some(old(self)@[k.model()])
                    } else {
                        None
                    }
                    &&& final(self).clock() == old(self).clock() + 1
                },
                Err(e) => e == TxnErrorType::Retry && final(self)@ == old(self)@,
            },
    {
        let ghost pre = *self;
        let ghost m = k.model();
        let i = self.home_of(&k);
        let (ok, prev) = self.update_shard(i, ShardOp::Put(k, v));
        proof {
            self.lemma_view_after(pre, i as int, ok, op_view(pre.shard(i as int)@, ShardOp::Put(k, v)));
            if ok {
                assert(self@ =~= pre@.insert(m, v));
            } else {
                assert(self@ =~= pre@);
            }
        }
        if ok {
            Ok(prev)
        } else {
            Err(TxnErrorType::Retry)
        }
    }

    /// Removes `k` in one transaction, handing back the value it had. The commit fails,
    /// leaving the table as it was, only when the version clock is exhausted.
    pub fn remove(&mut self, k: &K) -> (r: Result<Option<V>, TxnErrorType>)
        requires
            old(self).wf(),
        ensures
            final(self).wf(),
            final(self).capacity() == old(self).capacity(),
            r is Ok == (old(self).clock() < u64::MAX),
            match r {
                Ok(prev) => {
                    &&& final(self)@ == old(self)@.remove(k.model())
                    &&& prev == if old(self)@.contains_key(k.model()) {
                        Some(old(self)@[k.model()])
                    } else {
                        None
                    }
                    &&& final(self).clock() == old(self).clock() + 1
                },
                Err(e) => e == TxnErrorType::Retry && final(self)@ == old(self)@,
            },
    {
        let ghost pre = *self;
        let ghost m = k.model();
        let i = self.home_of(k);
        let key = k.duplicate_key();
        let ghost op = ShardOp::<K, V>::Drop(key);
        let (ok, prev) = self.update_shard(i, ShardOp::Drop(key));
        proof {
            self.lemma_view_after(pre, i as int, ok, op_view(pre.shard(i as int)@, op));
            if ok {
                assert(self@ =~= pre@.remove(m));
            } else {
                assert(self@ =~= pre@);
            }
        }
        if ok {
            Ok(prev)
        } else {
            Err(TxnErrorType::Retry)
        }
    }

    /// Stores under `k` what `f` makes of its current value, or removes `k` when `f` gives
    /// `None`, in one transaction; returns what `f` gave. The commit fails, leaving the table as
    /// it was, only when the version clock is exhausted.
    pub fn replace_with<F: Fn(Option<V>) -> Option<V>>(&mut self, k: &K, f: F) -> (r: Result<
        Option<V>,
        TxnErrorType,
    >)
        requires
            old(self).wf(),
            forall|x: Option<V>| f.requires((x,)),
        ensures
            final(self).wf(),
            final(self).capacity() == old(self).capacity(),
            r is Ok == (old(self).clock() < u64::MAX),
            match r {
                Ok(next) => {
                    &&& f.ensures(
                        (
                            if old(self)@.contains_key(k.model()) {
                                Some(old(self)@[k.model()])
                            } else {
                                None
                            },
                        ),
                        next,
                    )
                    &&& final(self)@ == match next {
                        Some(v) => old(self)@.insert(k.model(), v),
                        None => old(self)@.remove(k.model()),
                    }
                },
                Err(e) => e == TxnErrorType::Retry && final(self)@ == old(self)@,
            },
    {
        let current = self.get(k);
        let next = f(current);
        match next {
            Some(v) => {
                let out = v.duplicate();
                match self.insert(k.duplicate_key(), v) {
                    Ok(_) => Ok(Some(out)),
                    Err(e) => Err(e),
                }
            },
            None => match self.remove(k) {
                Ok(_) => Ok(None),
                Err(e) => Err(e),
            },
        }
    }

    /// Empties the table, one transaction per shard, in shard order. Stops with `Retry` at the
    /// first shard whose commit fails, which happens only when the version clock is exhausted.
    pub fn clear(&mut self) -> (r: Result<(), TxnErrorType>)
        requires
            old(self).wf(),
        ensures
            final(self).wf(),
            final(self).capacity() == old(self).capacity(),
            r is Ok == (old(self).clock() + old(self).capacity() <= u64::MAX),
            r is Ok ==> final(self)@ == Map::<K::Model, V>::empty(),
            r is Err ==> r == Err::<(), TxnErrorType>(TxnErrorType::Retry),
    {
        let ghost pre = *self;
        let n = self.latch.len();
        let mut i: usize = 0;
        while i < n
            invariant
                self.wf(),
                pre == *old(self),
                n == self.latch@.len(),
                self.capacity() == pre.capacity(),
                i <= n,
                self.clock() == pre.clock() + i,
                forall|j: int| 0 <= j < i ==> (#[trigger] self.shard(j))@ == Map::<K::Model, V>::empty(),
            decreases n - i,
        {
            let (ok, _) = self.update_shard(i, ShardOp::Empty);
            if !ok {
                return Err(TxnErrorType::Retry);
            }
            i = i + 1;
        }
        proof {
            assert forall|m: K::Model| !self@.contains_key(m) by {
                self.lemma_home_bound(m);
                assert(self.shard(self.home(m))@ == Map::<K::Model, V>::empty());
            }
            assert(self@ =~= Map::<K::Model, V>::empty());
        }
        Ok(())
    }

    /// After an update of shard `i` to `next`, the table's view is the old one with the keys
    /// homed at `i` taken from `next`.
    proof fn lemma_view_after(&self, pre: LOTable<K, V>, i: int, ok: bool, next: Map<K::Model, V>)
        requires
            pre.wf(),
            self.wf(),
            self.capacity() == pre.capacity(),
            0 <= i < pre.latch@.len(),
            forall|j: int|
                0 <= j < pre.latch@.len() ==> #[trigger] self.shard(j)@ == if ok && j == i {
                    next
                } else {
                    pre.shard(j)@
                },
        ensures
            forall|m: K::Model|
                #![trigger self@.contains_key(m)]
                self.home(m) == pre.home(m) && (self@.contains_key(m) == if ok && pre.home(m) == i {
                    next.contains_key(m)
                } else {
                    pre@.contains_key(m)
                }) && (self@.contains_key(m) ==> self@[m] == if ok && pre.home(m) == i {
                    next[m]
                } else {
                    pre@[m]
                }),
    {
        assert forall|m: K::Model|
            #![trigger self@.contains_key(m)]
            self.home(m) == pre.home(m) && (self@.contains_key(m) == if ok && pre.home(m) == i {
                next.contains_key(m)
            } else {
                pre@.contains_key(m)
            }) && (self@.contains_key(m) ==> self@[m] == if ok && pre.home(m) == i {
                next[m]
            } else {
                pre@[m]
            }) by {
            pre.lemma_home_bound(m);
            assert(self.shard(pre.home(m))@ == if ok && pre.home(m) == i {
                next
            } else {
                pre.shard(pre.home(m))@
            });
        }
    }

    /// Keys homed at the first `i` shards.
    closed spec fn covered(&self, i: int) -> Set<K::Model> {
        Set::new(
            |m: K::Model|
                0 <= self.home(m) < i && self.shard(self.home(m))@.contains_key(m),
        )
    }

    proof fn lemma_covered_step(&self, i: int)
        requires
            self.wf(),
            0 <= i < self.latch@.len(),
            self.covered(i).finite(),
        ensures
            self.covered(i + 1) == self.covered(i).union(self.shard(i)@.dom()),
            self.covered(i).disjoint(self.shard(i)@.dom()),
            self.covered(i + 1).finite(),
            self.covered(i + 1).len() == self.covered(i).len() + self.shard(i)@.len(),
    {
        assert(self.shard(i).wf());
        self.shard(i).lemma_len();
        assert(self.covered(i + 1) =~= self.covered(i).union(self.shard(i)@.dom()));
        vstd::set_lib::lemma_set_disjoint_lens(self.covered(i), self.shard(i)@.dom());
    }

    /// Number of entries, or `usize::MAX` when there are more.
    pub fn len(&self) -> (r: usize)
        requires
            self.wf(),
        ensures
            r == if self@.len() <= usize::MAX {
                self@.len()
            } else {
                usize::MAX as nat
            },
            self@.dom().finite(),
    {
        let n = self.latch.len();
        let mut total: usize = 0;
        let mut i: usize = 0;
        proof {
            assert(self.covered(0) =~= Set::<K::Model>::empty());
        }
        while i < n
            invariant
                self.wf(),
                n == self.latch@.len(),
                i <= n,
                self.covered(i as int).finite(),
                total == if self.covered(i as int).len() <= usize::MAX {
                    self.covered(i as int).len()
                } else {
                    usize::MAX as nat
                },
            decreases n - i,
        {
            proof {
                self.lemma_covered_step(i as int);
                assert(self.shard(i as int).wf());
            }
            let shard = self.txn_man.published(self.latch[i].get_id());
            let c = shard.len();
            total = total.saturating_add(c);
            i = i + 1;
        }
        proof {
            assert(self.covered(n as int) =~= self@.dom()) by {
                assert forall|m: K::Model| self@.dom().contains(m) implies self.covered(n as int).contains(m) by {
                    self.lemma_home_bound(m);
                }
            }
        }
        total
    }

    /// Every key of the table once, shard by shard.
    pub fn keys(&self) -> (r: Vec<K>)
        requires
            self.wf(),
        ensures
            forall|a: int, b: int| 0 <= a < b < r@.len() ==> r@[a].model() != r@[b].model(),
            forall|a: int| 0 <= a < r@.len() ==> self@.contains_key(#[trigger] r@[a].model()),
            forall|m: K::Model|
                self@.contains_key(m) ==> exists|a: int| 0 <= a < r@.len() && #[trigger] r@[a].model() == m,
    {
        let n = self.latch.len();
        let mut out: Vec<K> = Vec::new();
        let mut i: usize = 0;
        while i < n
            invariant
                self.wf(),
                n == self.latch@.len(),
                i <= n,
                forall|a: int, b: int| 0 <= a < b < out@.len() ==> out@[a].model() != out@[b].model(),
                forall|a: int|
                    0 <= a < out@.len() ==> self.covered(i as int).contains(#[trigger] out@[a].model()),
                forall|m: K::Model|
                    self.covered(i as int).contains(m) ==> exists|a: int|
                        0 <= a < out@.len() && #[trigger] out@[a].model() == m,
            decreases n - i,
        {
            let shard = self.txn_man.published(self.latch[i].get_id());
            proof {
                assert(self.shard(i as int).wf());
            }
            let ghost base = out@;
            let mut j: usize = 0;
            while j < shard.entries.len()
                invariant
                    self.wf(),
                    n == self.latch@.len(),
                    i < n,
                    *shard == self.shard(i as int),
                    shard.wf(),
                    j <= shard.entries@.len(),
                    out@.len() == base.len() + j,
                    forall|a: int| 0 <= a < base.len() ==> out@[a] == base[a],
                    forall|a: int| 0 <= a < j ==> (#[trigger] out@[base.len() + a]).model()
                        == shard.entries@[a].0.model(),
                    forall|a: int, b: int| 0 <= a < b < base.len() ==> base[a].model() != base[b].model(),
                    forall|a: int|
                        0 <= a < base.len() ==> self.covered(i as int).contains(#[trigger] base[a].model()),
                decreases shard.entries@.len() - j,
            {
                let key = shard.entries[j].0.duplicate_key();
                out.push(key);
                j = j + 1;
            }
            proof {
                let sh = self.shard(i as int);
                let ni: int = i as int + 1;
                assert forall|a: int| 0 <= a < out@.len() implies self.covered(ni).contains(
                    #[trigger] out@[a].model(),
                ) by {
                    if a >= base.len() {
                        let e = a - base.len();
                        let m = sh.entries@[e].0.model();
                        assert(out@[base.len() + e].model() == m);
                        assert(sh.map@.contains_key(m));
                        assert(sh@.contains_key(m));
                        assert(self.home(m) == i as int);
                    } else {
                        assert(out@[a] == base[a]);
                        assert(self.covered(i as int).contains(base[a].model()));
                    }
                }
                assert forall|a: int, b: int| 0 <= a < b < out@.len() implies out@[a].model()
                    != out@[b].model() by {
                    if b >= base.len() {
                        let eb = b - base.len();
                        let mb = sh.entries@[eb].0.model();
                        assert(out@[base.len() + eb].model() == mb);
                        assert(sh.map@.contains_key(mb));
                        assert(sh@.contains_key(mb));
                        assert(self.home(mb) == i as int);
                        if a >= base.len() {
                            let ea = a - base.len();
                            assert(out@[base.len() + ea].model() == sh.entries@[ea].0.model());
                            assert(sh.pos@[sh.entries@[ea].0.model()] == ea);
                        } else {
                            assert(out@[a] == base[a]);
                            assert(self.covered(i as int).contains(base[a].model()));
                        }
                    } else {
                        assert(out@[a] == base[a]);
                        assert(out@[b] == base[b]);
                    }
                }
                assert forall|m: K::Model| self.covered(ni).contains(m) implies exists|a: int|
                    0 <= a < out@.len() && #[trigger] out@[a].model() == m by {
                    if self.home(m) == i {
                        let e = sh.pos@[m];
                        assert(out@[base.len() + e].model() == m);
                    } else {
                        assert(self.covered(i as int).contains(m));
                        let a = choose|a: int| 0 <= a < base.len() && #[trigger] base[a].model() == m;
                        assert(out@[a] == base[a]);
                    }
                }
            }
            i = i + 1;
        }
        proof {
            assert forall|a: int| 0 <= a < out@.len() implies self@.contains_key(#[trigger] out@[a].model()) by {
                assert(self.covered(n as int).contains(out@[a].model()));
            }
            assert forall|m: K::Model| self@.contains_key(m) implies exists|a: int|
                0 <= a < out@.len() && #[trigger] out@[a].model() == m by {
                self.lemma_home_bound(m);
                assert(self.covered(n as int).contains(m));
            }
        }
        out
    }

    /// The value of every key of the table, in the order of `keys`: shard by shard.
    pub fn values(&self) -> (r: Vec<V>)
        requires
            self.wf(),
        ensures
            exists|ks: Seq<K::Model>|
                {
                    &&& ks.len() == r@.len()
                    &&& forall|a: int, b: int| 0 <= a < b < ks.len() ==> ks[a] != ks[b]
                    &&& forall|a: int|
                        0 <= a < ks.len() ==> self@.contains_key(#[trigger] ks[a]) && r@[a]
                            == self@[ks[a]]
                    &&& forall|m: K::Model|
                        self@.contains_key(m) ==> exists|a: int| 0 <= a < ks.len() && #[trigger] ks[a] == m
                },
    {
        let n = self.latch.len();
        let mut out: Vec<V> = Vec::new();
        let ghost mut ks: Seq<K::Model> = Seq::empty();
        let mut i: usize = 0;
        while i < n
            invariant
                self.wf(),
                n == self.latch@.len(),
                i <= n,
                out@.len() == ks.len(),
                forall|a: int| 0 <= a < ks.len() ==> out@[a] == self@[#[trigger] ks[a]],
                forall|a: int, b: int| 0 <= a < b < out@.len() ==> ks[a] != ks[b],
                forall|a: int|
                    0 <= a < out@.len() ==> self.covered(i as int).contains(#[trigger] ks[a]),
                forall|m: K::Model|
                    self.covered(i as int).contains(m) ==> exists|a: int|
                        0 <= a < out@.len() && #[trigger] ks[a] == m,
            decreases n - i,
        {
            let shard = self.txn_man.published(self.latch[i].get_id());
            proof {
                assert(self.shard(i as int).wf());
            }
            let ghost base = ks;
            let ghost vbase = out@;
            let mut j: usize = 0;
            while j < shard.entries.len()
                invariant
                    self.wf(),
                    n == self.latch@.len(),
                    i < n,
                    *shard == self.shard(i as int),
                    shard.wf(),
                    j <= shard.entries@.len(),
                    ks.len() == base.len() + j,
                    out@.len() == ks.len(),
                    vbase.len() == base.len(),
                    forall|a: int| 0 <= a < base.len() ==> ks[a] == base[a],
                    forall|a: int| 0 <= a < base.len() ==> out@[a] == vbase[a],
                    forall|a: int| 0 <= a < base.len() ==> vbase[a] == self@[#[trigger] base[a]],
                    forall|a: int| 0 <= a < j ==> out@[base.len() + a] == shard.entries@[a].1,
                    forall|a: int| 0 <= a < j ==> (#[trigger] ks[base.len() + a])
                        == shard.entries@[a].0.model(),
                    forall|a: int, b: int| 0 <= a < b < base.len() ==> base[a] != base[b],
                    forall|a: int|
                        0 <= a < base.len() ==> self.covered(i as int).contains(#[trigger] base[a]),
                decreases shard.entries@.len() - j,
            {
                let val = shard.entries[j].1.duplicate();
                proof {
                    ks = ks.push(shard.entries@[j as int].0.model());
                }
                out.push(val);
                j = j + 1;
            }
            proof {
                let sh = self.shard(i as int);
                let ni: int = i as int + 1;
                assert forall|a: int| 0 <= a < ks.len() implies out@[a] == self@[#[trigger] ks[a]] by {
                    if a >= base.len() {
                        let e = a - base.len();
                        let m = sh.entries@[e].0.model();
                        assert(ks[base.len() + e] == m);
                        assert(out@[base.len() + e] == sh.entries@[e].1);
                        assert(sh.map@.contains_key(m));
                        assert(sh@.contains_key(m));
                        assert(self.home(m) == i as int);
                    } else {
                        assert(ks[a] == base[a]);
                        assert(out@[a] == vbase[a]);
                    }
                }
                assert forall|a: int| 0 <= a < out@.len() implies self.covered(ni).contains(
                    #[trigger] ks[a],
                ) by {
                    if a >= base.len() {
                        let e = a - base.len();
                        let m = sh.entries@[e].0.model();
                        assert(ks[base.len() + e] == m);
                        assert(sh.map@.contains_key(m));
                        assert(sh@.contains_key(m));
                        assert(self.home(m) == i as int);
                    } else {
                        assert(ks[a] == base[a]);
                        assert(self.covered(i as int).contains(base[a]));
                    }
                }
                assert forall|a: int, b: int| 0 <= a < b < out@.len() implies ks[a]
                    != ks[b] by {
                    if b >= base.len() {
                        let eb = b - base.len();
                        let mb = sh.entries@[eb].0.model();
                        assert(ks[base.len() + eb] == mb);
                        assert(sh.map@.contains_key(mb));
                        assert(sh@.contains_key(mb));
                        assert(self.home(mb) == i as int);
                        if a >= base.len() {
                            let ea = a - base.len();
                            assert(ks[base.len() + ea] == sh.entries@[ea].0.model());
                            assert(sh.pos@[sh.entries@[ea].0.model()] == ea);
                        } else {
                            assert(ks[a] == base[a]);
                            assert(self.covered(i as int).contains(base[a]));
                        }
                    } else {
                        assert(ks[a] == base[a]);
                        assert(ks[b] == base[b]);
                    }
                }
                assert forall|m: K::Model| self.covered(ni).contains(m) implies exists|a: int|
                    0 <= a < out@.len() && #[trigger] ks[a] == m by {
                    if self.home(m) == i {
                        let e = sh.pos@[m];
                        assert(ks[base.len() + e] == m);
                    } else {
                        assert(self.covered(i as int).contains(m));
                        let a = choose|a: int| 0 <= a < base.len() && #[trigger] base[a] == m;
                        assert(ks[a] == base[a]);
                    }
                }
            }
            i = i + 1;
        }
        proof {
            assert forall|a: int| 0 <= a < ks.len() implies self@.contains_key(#[trigger] ks[a]) by {
                assert(self.covered(n as int).contains(ks[a]));
            }
            assert forall|m: K::Model| self@.contains_key(m) implies exists|a: int|
                0 <= a < out@.len() && #[trigger] ks[a] == m by {
                self.lemma_home_bound(m);
                assert(self.covered(n as int).contains(m));
            }
            assert(ks.len() == out@.len());
        }
        out
    }

    /// Every entry of the table once, as a key and its value, shard by shard. Each shard is
    /// read as one snapshot.
    pub fn iter(&self) -> (r: Vec<(K, V)>)
        requires
            self.wf(),
        ensures
            exists|ks: Seq<K::Model>|
                {
                    &&& ks.len() == r@.len()
                    &&& forall|a: int, b: int| 0 <= a < b < ks.len() ==> ks[a] != ks[b]
                    &&& forall|a: int|
                        0 <= a < ks.len() ==> self@.contains_key(#[trigger] ks[a]) && r@[a].0.model()
                            == ks[a] && r@[a].1 == self@[ks[a]]
                    &&& forall|m: K::Model|
                        self@.contains_key(m) ==> exists|a: int| 0 <= a < ks.len() && #[trigger] ks[a] == m
                },
    {
        let n = self.latch.len();
        let mut out: Vec<(K, V)> = Vec::new();
        let ghost mut ks: Seq<K::Model> = Seq::empty();
        let mut i: usize = 0;
        while i < n
            invariant
                self.wf(),
                n == self.latch@.len(),
                i <= n,
                out@.len() == ks.len(),
                forall|a: int| 0 <= a < ks.len() ==> out@[a].1 == self@[#[trigger] ks[a]],
                forall|a: int| 0 <= a < ks.len() ==> out@[a].0.model() == #[trigger] ks[a],
                forall|a: int, b: int| 0 <= a < b < out@.len() ==> ks[a] != ks[b],
                forall|a: int|
                    0 <= a < out@.len() ==> self.covered(i as int).contains(#[trigger] ks[a]),
                forall|m: K::Model|
                    self.covered(i as int).contains(m) ==> exists|a: int|
                        0 <= a < out@.len() && #[trigger] ks[a] == m,
            decreases n - i,
        {
            let shard = self.txn_man.published(self.latch[i].get_id());
            proof {
                assert(self.shard(i as int).wf());
            }
            let ghost base = ks;
            let ghost vbase = out@;
            let mut j: usize = 0;
            while j < shard.entries.len()
                invariant
                    self.wf(),
                    n == self.latch@.len(),
                    i < n,
                    *shard == self.shard(i as int),
                    shard.wf(),
                    j <= shard.entries@.len(),
                    ks.len() == base.len() + j,
                    out@.len() == ks.len(),
                    vbase.len() == base.len(),
                    forall|a: int| 0 <= a < base.len() ==> ks[a] == base[a],
                    forall|a: int| 0 <= a < base.len() ==> out@[a] == vbase[a],
                    forall|a: int| 0 <= a < base.len() ==> vbase[a].1 == self@[#[trigger] base[a]],
                    forall|a: int| 0 <= a < base.len() ==> vbase[a].0.model() == #[trigger] base[a],
                    forall|a: int| 0 <= a < j ==> out@[base.len() + a].1 == shard.entries@[a].1,
                    forall|a: int| 0 <= a < j ==> out@[base.len() + a].0.model() == shard.entries@[a].0.model(),
                    forall|a: int| 0 <= a < j ==> (#[trigger] ks[base.len() + a])
                        == shard.entries@[a].0.model(),
                    forall|a: int, b: int| 0 <= a < b < base.len() ==> base[a] != base[b],
                    forall|a: int|
                        0 <= a < base.len() ==> self.covered(i as int).contains(#[trigger] base[a]),
                decreases shard.entries@.len() - j,
            {
                let key = shard.entries[j].0.duplicate_key();
                let val = shard.entries[j].1.duplicate();
                proof {
                    ks = ks.push(shard.entries@[j as int].0.model());
                }
                out.push((key, val));
                j = j + 1;
            }
            proof {
                let sh = self.shard(i as int);
                let ni: int = i as int + 1;
                assert forall|a: int| 0 <= a < ks.len() implies out@[a].1 == self@[#[trigger] ks[a]]
                    && out@[a].0.model() == ks[a] by {
                    if a >= base.len() {
                        let e = a - base.len();
                        let m = sh.entries@[e].0.model();
                        assert(ks[base.len() + e] == m);
                        assert(out@[base.len() + e].1 == sh.entries@[e].1);
                        assert(out@[base.len() + e].0.model() == m);
                        assert(sh.map@.contains_key(m));
                        assert(sh@.contains_key(m));
                        assert(self.home(m) == i as int);
                    } else {
                        assert(ks[a] == base[a]);
                        assert(out@[a] == vbase[a]);
                    }
                }
                assert forall|a: int| 0 <= a < out@.len() implies self.covered(ni).contains(
                    #[trigger] ks[a],
                ) by {
                    if a >= base.len() {
                        let e = a - base.len();
                        let m = sh.entries@[e].0.model();
                        assert(ks[base.len() + e] == m);
                        assert(sh.map@.contains_key(m));
                        assert(sh@.contains_key(m));
                        assert(self.home(m) == i as int);
                    } else {
                        assert(ks[a] == base[a]);
                        assert(self.covered(i as int).contains(base[a]));
                    }
                }
                assert forall|a: int, b: int| 0 <= a < b < out@.len() implies ks[a]
                    != ks[b] by {
                    if b >= base.len() {
                        let eb = b - base.len();
                        let mb = sh.entries@[eb].0.model();
                        assert(ks[base.len() + eb] == mb);
                        assert(sh.map@.contains_key(mb));
                        assert(sh@.contains_key(mb));
                        assert(self.home(mb) == i as int);
                        if a >= base.len() {
                            let ea = a - base.len();
                            assert(ks[base.len() + ea] == sh.entries@[ea].0.model());
                            assert(sh.pos@[sh.entries@[ea].0.model()] == ea);
                        } else {
                            assert(ks[a] == base[a]);
                            assert(self.covered(i as int).contains(base[a]));
                        }
                    } else {
                        assert(ks[a] == base[a]);
                        assert(ks[b] == base[b]);
                    }
                }
                assert forall|m: K::Model| self.covered(ni).contains(m) implies exists|a: int|
                    0 <= a < out@.len() && #[trigger] ks[a] == m by {
                    if self.home(m) == i {
                        let e = sh.pos@[m];
                        assert(ks[base.len() + e] == m);
                    } else {
                        assert(self.covered(i as int).contains(m));
                        let a = choose|a: int| 0 <= a < base.len() && #[trigger] base[a] == m;
                        assert(ks[a] == base[a]);
                    }
                }
            }
            i = i + 1;
        }
        proof {
            assert forall|a: int| 0 <= a < ks.len() implies self@.contains_key(#[trigger] ks[a]) by {
                assert(self.covered(n as int).contains(ks[a]));
            }
            assert forall|m: K::Model| self@.contains_key(m) implies exists|a: int|
                0 <= a < out@.len() && #[trigger] ks[a] == m by {
                self.lemma_home_bound(m);
                assert(self.covered(n as int).contains(m));
            }
            assert(ks.len() == out@.len());
        }
        out
    }

    /// Runs one transaction that reads shard `i`, applies `op` to the map it read, writes the
    /// result back and commits. Returns whether it committed, and what the key of `op` had.
    fn update_shard(&mut self, i: usize, op: ShardOp<K, V>) -> (r: (bool, Option<V>))
        requires
            old(self).wf(),
            i < old(self).latch@.len(),
            op_key_home(op, |m: K::Model| old(self).home(m), i as int),
        ensures
            final(self).wf(),
            final(self).capacity() == old(self).capacity(),
            r.0 == (old(self).clock() < u64::MAX),
            r.0 ==> final(self).clock() == old(self).clock() + 1,
            !r.0 ==> final(self).clock() == old(self).clock(),
            r.1 == op_previous(old(self).shard(i as int)@, op),
            forall|j: int|
                0 <= j < old(self).latch@.len() ==> #[trigger] final(self).shard(j)@ == if r.0 && j
                    == i {
                    op_view(old(self).shard(i as int)@, op)
                } else {
                    old(self).shard(j)@
                },
    {
        let ghost pre = *self;
        let ghost old_op = op;
        let id = self.latch[i].get_id();
        self.txn.start(&self.txn_man);
        let current = self.txn.read(&self.txn_man, &self.latch[i]);
        proof {
            assert(pre.shard(i as int).wf());
        }
        let (next, prev) = match op {
            ShardOp::Put(k, v) => {
                let prev = current.get(&k);
                (current.with(k, v), prev)
            },
            ShardOp::Drop(k) => {
                let prev = current.get(&k);
                (current.without(&k), prev)
            },
            ShardOp::Empty => (Shard::empty(), None),
        };
        let ghost nv = next;
        let ghost mark = ReadMark { stamp: pre.txn_man@[i as int].stamp, modrev: pre.txn_man@[i as int].modrev };
        assert(self.txn.reads() =~= Map::<u64, ReadMark>::empty().insert(id, mark));
        self.txn.write(&mut self.txn_man, &self.latch[i], Arc::new(next));
        let ghost mid = self.txn_man;
        proof {
            assert(pre.txn_man@[i as int].stamp <= pre.txn_man.clock());
            assert(self.txn.writes().contains_key(id));
            assert(self.txn.writes().dom() =~= set![id]);
        }
        let ghost w = self.txn.writes();
        let ok = self.txn.commit(&mut self.txn_man);
        proof {
            assert forall|j: int| 0 <= j < old(self).latch@.len() implies #[trigger] self.shard(j)
                == if ok && j == i {
                nv
            } else {
                pre.shard(j)
            } by {
                assert(mid@[j].data == pre.txn_man@[j].data);
                if ok {
                    assert(w.contains_key(j as u64) == (j == i));
                }
            }
            assert forall|j: int|
                #![trigger self.shard(j)]
                0 <= j < self.latch@.len() implies {
                &&& self.shard(j).wf()
                &&& forall|m: K::Model|
                    self.shard(j)@.contains_key(m) ==> #[trigger] self.home(m) == j
            } by {
                assert(self.latch@ == pre.latch@);
                if !(ok && j == i) {
                    assert(pre.shard(j) == self.shard(j));
                    assert(pre.shard(j).wf());
                    assert forall|m: K::Model|
                        self.shard(j)@.contains_key(m) implies #[trigger] self.home(m) == j by {
                        assert(pre.home(m) == j);
                    }
                } else {
                    assert forall|m: K::Model|
                        self.shard(j)@.contains_key(m) implies #[trigger] self.home(m) == j by {
                        assert(nv@.contains_key(m));
                        if !pre.shard(i as int)@.contains_key(m) {
                            assert(op_key_model(old_op) == Some(m));
                        }
                        assert(pre.home(m) == i);
                    }
                }
            }
        }
        (ok, prev)
    }
}

} // verus!
