use crate::sync::rerwlock::Container;
use crate::txn::vars::VarState;
use vstd::prelude::*;

verus! {

/// A buffered write: the value to publish, the stamp the variable had when the write was
/// first buffered, and the modification revision that write raised it to.
pub struct WriteMark<T> {
    pub value: T,
    pub stamp: u64,
    pub modrev: u64,
}

/// The writes an attempt has buffered, by variable id.
pub struct WriteSet<T> {
    marks: Vec<Option<WriteMark<T>>>,
}

/// `after` is `before` with every buffered write of `writes` published at stamp `wts`.
pub open spec fn published<T>(
    before: Seq<VarState<T>>,
    after: Seq<VarState<T>>,
    writes: Map<u64, WriteMark<T>>,
    wts: u64,
) -> bool {
    &&& after.len() == before.len()
    &&& forall|i: int|
        0 <= i < before.len() ==> #[trigger] after[i] == if writes.contains_key(i as u64) {
            VarState { data: writes[i as u64].value, stamp: wts, modrev: before[i].modrev }
        } else {
            before[i]
        }
}

/// A write published by a commit is the variable's value afterwards, stamped with the
/// commit's stamp: a transaction that reads the variable next reads that value.
pub proof fn lemma_published_write_visible<T>(
    before: Seq<VarState<T>>,
    after: Seq<VarState<T>>,
    writes: Map<u64, WriteMark<T>>,
    wts: u64,
    id: u64,
)
    requires
        published(before, after, writes, wts),
        writes.contains_key(id),
        (id as int) < before.len(),
    ensures
        after[id as int].data == writes[id].value,
        after[id as int].stamp == wts,
{
    assert(after[id as int] == VarState {
        data: writes[id].value,
        stamp: wts,
        modrev: before[id as int].modrev,
    });
}

/// `after` is the lock `before` once thread `me` gave back one write hold, if it had one.
pub open spec fn released(before: Container, after: Container, me: u64) -> bool {
    &&& after.writes_of(me) == if before.writes_of(me) > 0 {
        (before.writes_of(me) - 1) as nat
    } else {
        before.writes_of(me)
    }
    &&& after.writer() == if before.writes_of(me) == 1 {
        None
    } else {
        before.writer()
    }
    &&& forall|t: u64| #[trigger] after.readers_of(t) == before.readers_of(t)
    &&& forall|t: u64| t != me ==> #[trigger] after.writes_of(t) == before.writes_of(t)
}

impl<T> WriteSet<T> {
    /// Variable id to its buffered write.
    pub closed spec fn view(&self) -> Map<u64, WriteMark<T>> {
        Map::new(
            |id: u64| (id as int) < self.marks@.len() && self.marks@[id as int] is Some,
            |id: u64| self.marks@[id as int]->0,
        )
    }

    /// An empty write set for a new attempt.
    pub fn local() -> (r: WriteSet<T>)
        ensures
            r@ == Map::<u64, WriteMark<T>>::empty(),
    {
        let r = WriteSet { marks: Vec::new() };
        assert(r@ =~= Map::<u64, WriteMark<T>>::empty());
        r
    }

    /// The buffered write of variable `id`, if any.
    pub fn get(&self, id: u64) -> (r: Option<&WriteMark<T>>)
        ensures
            match r {
                Some(m) => self@.contains_key(id) && *m == self@[id],
                None => !self@.contains_key(id),
            },
    {
        if (id as u128) < (self.marks.len() as u128) {
            match &self.marks[id as usize] {
                Some(m) => Some(m),
                None => None,
            }
        } else {
            None
        }
    }

    /// The buffered value of the lowest-id write first buffered when its variable had stamp
    /// `stamp`, if any.
    pub fn get_by_stamp(&self, stamp: u64) -> (r: Option<&T>)
        ensures
            match r {
                Some(v) => exists|id: u64|
                    self@.contains_key(id) && self@[id].stamp == stamp && *v == self@[id].value,
                None => forall|id: u64| self@.contains_key(id) ==> self@[id].stamp != stamp,
            },
    {
        let mut i: usize = 0;
        while i < self.marks.len()
            invariant
                i <= self.marks@.len(),
                forall|id: u64|
                    (id as int) < i && self.marks@[id as int] is Some ==> self.marks@[id as int]->0.stamp
                        != stamp,
            decreases self.marks@.len() - i,
        {
            match &self.marks[i] {
                Some(m) => {
                    if m.stamp == stamp {
                        assert(self@.contains_key(i as u64));
                        return Some(&m.value);
                    }
                },
                None => {},
            }
            i = i + 1;
        }
        None
    }

    /// Buffers `mark` as the write of variable `id`, replacing any earlier one.
    pub fn put(&mut self, id: u64, mark: WriteMark<T>)
        requires
            (id as int) < usize::MAX,
        ensures
            final(self)@ == old(self)@.insert(id, mark),
    {
        let i = id as usize;
        while self.marks.len() <= i
            invariant
                (i as int) < usize::MAX,
                i == id,
                self@ == old(self)@,
            decreases i + 1 - self.marks@.len(),
        {
            self.marks.push(None);
            assert(self@ =~= old(self)@);
        }
        self.marks.set(i, Some(mark));
        assert(self@ =~= old(self)@.insert(id, mark));
    }

    /// The ids of the variables written, in ascending order.
    pub fn get_all_keys(&self) -> (r: Vec<u64>)
        ensures
            forall|i: int, j: int| 0 <= i < j < r@.len() ==> r@[i] < r@[j],
            forall|id: u64| r@.contains(id) <==> self@.contains_key(id),
    {
        let mut out: Vec<u64> = Vec::new();
        let mut i: usize = 0;
        while i < self.marks.len()
            invariant
                i <= self.marks@.len(),
                forall|a: int, b: int| 0 <= a < b < out@.len() ==> out@[a] < out@[b],
                forall|a: int| 0 <= a < out@.len() ==> out@[a] < i,
                forall|id: u64|
                    out@.contains(id) <==> ((id as int) < i && self.marks@[id as int] is Some),
            decreases self.marks@.len() - i,
        {
            let ghost before = out@;
            let present = self.marks[i].is_some();
            if present {
                out.push(i as u64);
            }
            proof {
                assert forall|id: u64|
                    out@.contains(id) <==> ((id as int) < i + 1 && self.marks@[id as int] is Some) by {
                    if out@.contains(id) {
                        let a = choose|a: int| 0 <= a < out@.len() && out@[a] == id;
                        if a < before.len() {
                            assert(before[a] == id);
                            assert(before.contains(id));
                        } else {
                            assert(present);
                            assert(id == i as u64);
                        }
                    }
                    if (id as int) < i + 1 && self.marks@[id as int] is Some {
                        if id as int == i as int {
                            assert(out@[out@.len() - 1] == id);
                        } else {
                            assert(before.contains(id));
                            let a = choose|a: int| 0 <= a < before.len() && before[a] == id;
                            assert(out@[a] == id);
                        }
                    }
                }
            }
            i = i + 1;
        }
        out
    }

    /// Publishes every buffered write into `cells` at stamp `wts`, in ascending order of id,
    /// and empties the set.
    pub fn publish(&mut self, cells: &mut Vec<VarState<T>>, wts: u64)
        requires
            forall|id: u64| old(self)@.contains_key(id) ==> (id as int) < old(cells)@.len(),
        ensures
            published(old(cells)@, final(cells)@, old(self)@, wts),
            final(self)@ == Map::<u64, WriteMark<T>>::empty(),
    {
        let ghost ws = self@;
        let ghost start = cells@;
        let mut i: usize = 0;
        let n = self.marks.len();
        let total = cells.len();
        while i < n
            invariant
                n == self.marks@.len(),
                total == start.len(),
                i <= n,
                cells@.len() == start.len(),
                forall|id: u64| ws.contains_key(id) ==> (id as int) < start.len(),
                forall|id: u64| ws.contains_key(id) ==> (id as int) < n,
                forall|j: int| i <= j < n ==> #[trigger] self.marks@[j] == if ws.contains_key(j as u64) {
                    Some(ws[j as u64])
                } else {
                    None::<WriteMark<T>>
                },
                forall|j: int|
                    0 <= j < start.len() ==> #[trigger] cells@[j] == if j < i && ws.contains_key(
                        j as u64,
                    ) {
                        VarState { data: ws[j as u64].value, stamp: wts, modrev: start[j].modrev }
                    } else {
                        start[j]
                    },
            decreases n - i,
        {
            let mut slot: Option<WriteMark<T>> = None;
            std::mem::swap(&mut self.marks[i], &mut slot);
            match slot {
                Some(m) => {
                    assert(ws.contains_key(i as u64));
                    let modrev = cells[i].modrev;
                    cells.set(i, VarState { data: m.value, stamp: wts, modrev });
                },
                None => {},
            }
            i = i + 1;
        }
        self.marks = Vec::new();
        proof {
            assert(self@ =~= Map::<u64, WriteMark<T>>::empty());
            assert forall|j: int| 0 <= j < start.len() implies #[trigger] cells@[j] == if ws.contains_key(j as u64) {
                VarState { data: ws[j as u64].value, stamp: wts, modrev: start[j].modrev }
            } else {
                start[j]
            } by {
                if ws.contains_key(j as u64) {
                    assert(j < n);
                }
            }
        }
    }

    /// Takes a write hold for thread `me` on the lock of every variable written, in ascending
    /// order of id, when every one of them would be granted; otherwise takes none and fails.
    pub fn try_lock(&self, locks: &mut Vec<Container>, me: u64) -> (r: bool)
        requires
            forall|id: u64| self@.contains_key(id) ==> (id as int) < old(locks)@.len(),
            forall|i: int| 0 <= i < old(locks)@.len() ==> (#[trigger] old(locks)@[i]).wf(),
        ensures
            final(locks)@.len() == old(locks)@.len(),
            forall|i: int| 0 <= i < final(locks)@.len() ==> (#[trigger] final(locks)@[i]).wf(),
            r == forall|id: u64|
                self@.contains_key(id) ==> #[trigger] old(locks)@[id as int].write_grantable(me),
            !r ==> final(locks)@ == old(locks)@,
            r ==> forall|i: int|
                0 <= i < old(locks)@.len() ==> if self@.contains_key(i as u64) {
                    &&& (#[trigger] final(locks)@[i]).writer() == Some(me)
                    &&& final(locks)@[i].writes_of(me) == old(locks)@[i].writes_of(me) + 1
                    &&& forall|t: u64|
                        #[trigger] final(locks)@[i].readers_of(t) == old(locks)@[i].readers_of(t)
                } else {
                    final(locks)@[i] == old(locks)@[i]
                },
    {
        let ids = self.get_all_keys();
        let n = locks.len();
        let mut k: usize = 0;
        while k < ids.len()
            invariant
                n == locks@.len(),
                k <= ids@.len(),
                forall|id: u64| ids@.contains(id) <==> self@.contains_key(id),
                forall|id: u64| self@.contains_key(id) ==> (id as int) < n,
                forall|i: int| 0 <= i < locks@.len() ==> (#[trigger] locks@[i]).wf(),
                forall|a: int| 0 <= a < k ==> #[trigger] locks@[ids@[a] as int].write_grantable(me),
            decreases ids@.len() - k,
        {
            let id = ids[k];
            assert(ids@.contains(id));
            if !locks[id as usize].can_write(me) {
                return false;
            }
            k = k + 1;
        }
        proof {
            assert forall|id: u64| self@.contains_key(id) implies #[trigger] locks@[id as int].write_grantable(me) by {
                assert(ids@.contains(id));
                let a = choose|a: int| 0 <= a < ids@.len() && ids@[a] == id;
                assert(locks@[ids@[a] as int].write_grantable(me));
            }
        }
        let ghost start = locks@;
        let ghost mut done: Set<u64> = Set::empty();
        let mut k: usize = 0;
        while k < ids.len()
            invariant
                n == locks@.len(),
                start == old(locks)@,
                k <= ids@.len(),
                forall|id: u64| ids@.contains(id) <==> self@.contains_key(id),
                forall|a: int, b: int| 0 <= a < b < ids@.len() ==> ids@[a] < ids@[b],
                forall|id: u64| self@.contains_key(id) ==> (id as int) < n,
                forall|id: u64| self@.contains_key(id) ==> #[trigger] start[id as int].write_grantable(me),
                forall|i: int| 0 <= i < locks@.len() ==> (#[trigger] locks@[i]).wf(),
                forall|x: u64| done.contains(x) ==> exists|a: int| 0 <= a < k && #[trigger] ids@[a] == x,
                forall|a: int| 0 <= a < k ==> done.contains(#[trigger] ids@[a]),
                forall|i: int|
                    0 <= i < n ==> if done.contains(i as u64) {
                        &&& (#[trigger] locks@[i]).writer() == Some(me)
                        &&& locks@[i].writes_of(me) == start[i].writes_of(me) + 1
                        &&& forall|t: u64| #[trigger] locks@[i].readers_of(t) == start[i].readers_of(t)
                    } else {
                        locks@[i] == start[i]
                    },
            decreases ids@.len() - k,
        {
            let id = ids[k];
            assert(ids@.contains(id));
            proof {
                if done.contains(id) {
                    let a = choose|a: int| 0 <= a < k && #[trigger] ids@[a] == id;
                    assert(ids@[a] < ids@[k as int]);
                }
                assert(locks@[id as int] == start[id as int]);
            }
            let ghost before = locks@;
            let granted = locks[id as usize].try_lock_write(me);
            proof {
                done = done.insert(id);
                assert forall|i: int| 0 <= i < n implies if done.contains(i as u64) {
                    &&& (#[trigger] locks@[i]).writer() == Some(me)
                    &&& locks@[i].writes_of(me) == start[i].writes_of(me) + 1
                    &&& forall|t: u64| #[trigger] locks@[i].readers_of(t) == start[i].readers_of(t)
                } else {
                    locks@[i] == start[i]
                } by {
                    if i != id as int {
                        assert(locks@[i] == before[i]);
                    }
                }
                assert forall|x: u64| done.contains(x) implies exists|a: int| 0 <= a < k + 1 && #[trigger] ids@[a] == x by {
                    if x != id {
                        let a = choose|a: int| 0 <= a < k && #[trigger] ids@[a] == x;
                        assert(ids@[a] == x);
                    } else {
                        assert(ids@[k as int] == x);
                    }
                }
            }
            k = k + 1;
        }
        proof {
            assert forall|x: u64| #[trigger] done.contains(x) == self@.contains_key(x) by {
                if self@.contains_key(x) {
                    assert(ids@.contains(x));
                    let a = choose|a: int| 0 <= a < ids@.len() && ids@[a] == x;
                    assert(done.contains(ids@[a]));
                }
                if done.contains(x) {
                    let a = choose|a: int| 0 <= a < k && #[trigger] ids@[a] == x;
                    assert(ids@.contains(ids@[a]));
                }
            }
        }
        true
    }

    /// Gives back one write hold of thread `me` on the lock of every variable written; the
    /// last hold of a lock frees its writer. Locks of other variables stay as they were.
    pub fn unlock(&self, locks: &mut Vec<Container>, me: u64)
        requires
            forall|id: u64| self@.contains_key(id) ==> (id as int) < old(locks)@.len(),
            forall|i: int| 0 <= i < old(locks)@.len() ==> (#[trigger] old(locks)@[i]).wf(),
        ensures
            final(locks)@.len() == old(locks)@.len(),
            forall|i: int| 0 <= i < final(locks)@.len() ==> (#[trigger] final(locks)@[i]).wf(),
            forall|i: int|
                0 <= i < old(locks)@.len() ==> if self@.contains_key(i as u64) {
                    released(old(locks)@[i], #[trigger] final(locks)@[i], me)
                } else {
                    final(locks)@[i] == old(locks)@[i]
                },
    {
        let ids = self.get_all_keys();
        let n = locks.len();
        let ghost start = locks@;
        let ghost mut done: Set<u64> = Set::empty();
        let mut k: usize = 0;
        while k < ids.len()
            invariant
                n == locks@.len(),
                start == old(locks)@,
                k <= ids@.len(),
                forall|id: u64| ids@.contains(id) <==> self@.contains_key(id),
                forall|a: int, b: int| 0 <= a < b < ids@.len() ==> ids@[a] < ids@[b],
                forall|id: u64| self@.contains_key(id) ==> (id as int) < n,
                forall|i: int| 0 <= i < locks@.len() ==> (#[trigger] locks@[i]).wf(),
                forall|x: u64| done.contains(x) ==> exists|a: int| 0 <= a < k && #[trigger] ids@[a] == x,
                forall|a: int| 0 <= a < k ==> done.contains(#[trigger] ids@[a]),
                forall|i: int|
                    0 <= i < n ==> if done.contains(i as u64) {
                        released(start[i], #[trigger] locks@[i], me)
                    } else {
                        locks@[i] == start[i]
                    },
            decreases ids@.len() - k,
        {
            let id = ids[k];
            assert(ids@.contains(id));
            proof {
                if done.contains(id) {
                    let a = choose|a: int| 0 <= a < k && #[trigger] ids@[a] == id;
                    assert(ids@[a] < ids@[k as int]);
                }
            }
            let ghost before = locks@;
            let _ = locks[id as usize].try_release_write(me);
            proof {
                done = done.insert(id);
                assert forall|i: int| 0 <= i < n implies if done.contains(i as u64) {
                    released(start[i], #[trigger] locks@[i], me)
                } else {
                    locks@[i] == start[i]
                } by {
                    if i != id as int {
                        assert(locks@[i] == before[i]);
                    }
                }
                assert forall|x: u64| done.contains(x) implies exists|a: int| 0 <= a < k + 1 && #[trigger] ids@[a] == x by {
                    if x != id {
                        let a = choose|a: int| 0 <= a < k && #[trigger] ids@[a] == x;
                        assert(ids@[a] == x);
                    } else {
                        assert(ids@[k as int] == x);
                    }
                }
            }
            k = k + 1;
        }
        proof {
            assert forall|x: u64| #[trigger] done.contains(x) == self@.contains_key(x) by {
                if self@.contains_key(x) {
                    assert(ids@.contains(x));
                    let a = choose|a: int| 0 <= a < ids@.len() && ids@[a] == x;
                    assert(done.contains(ids@[a]));
                }
                if done.contains(x) {
                    let a = choose|a: int| 0 <= a < k && #[trigger] ids@[a] == x;
                    assert(ids@.contains(ids@[a]));
                }
            }
        }
    }

    /// Drops every buffered write.
    pub fn clear(&mut self)
        ensures
            final(self)@ == Map::<u64, WriteMark<T>>::empty(),
    {
        self.marks = Vec::new();
        assert(self@ =~= Map::<u64, WriteMark<T>>::empty());
    }
}

} // verus!
