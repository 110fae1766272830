use vstd::prelude::*;

verus! {

/// A thread, by id, and how many times it holds a lock mode.
#[derive(Clone, Copy, Debug, PartialEq, Eq, Structural)]
pub struct ThreadRef {
    pub id: u64,
    pub count: usize,
}

impl ThreadRef {
    pub fn new(id: u64, count: usize) -> (r: ThreadRef)
        ensures
            r == (ThreadRef { id, count }),
    {
        ThreadRef { id, count }
    }

    /// Whether this entry belongs to thread `me`.
    pub fn is_current(&self, me: u64) -> (r: bool)
        ensures
            r == (self.id == me),
    {
        self.id == me
    }

    /// Counts one more hold when the entry belongs to `me` and the count does not overflow.
    pub fn try_inc(&mut self, me: u64) -> (r: bool)
        ensures
            r == (old(self).id == me && old(self).count < usize::MAX),
            final(self).id == old(self).id,
            final(self).count == if r {
                (old(self).count + 1) as usize
            } else {
                old(self).count
            },
    {
        if self.id == me && self.count < usize::MAX {
            self.count = self.count + 1;
            true
        } else {
            false
        }
    }

    /// Counts one hold less when the entry belongs to `me` and holds at least once.
    pub fn try_dec(&mut self, me: u64) -> (r: bool)
        ensures
            r == (old(self).id == me && old(self).count > 0),
            final(self).id == old(self).id,
            final(self).count == if r {
                (old(self).count - 1) as usize
            } else {
                old(self).count
            },
    {
        if self.id == me && self.count > 0 {
            self.count = self.count - 1;
            true
        } else {
            false
        }
    }

    pub fn is_positive(&self) -> (r: bool)
        ensures
            r == (self.count > 0),
    {
        self.count > 0
    }
}

/// Who holds a reentrant reader/writer lock: at most one writer thread with its hold count,
/// and a hold count per reader thread.
pub struct Container {
    writer: Option<ThreadRef>,
    readers: Vec<ThreadRef>,
    counts: Ghost<Map<u64, usize>>,
    pos: Ghost<Map<u64, int>>,
}

impl Container {
    /// Read holds of thread `t`.
    pub closed spec fn readers_of(&self, t: u64) -> nat {
        if self.counts@.contains_key(t) {
            self.counts@[t] as nat
        } else {
            0
        }
    }

    /// Write holds of thread `t`.
    pub closed spec fn writes_of(&self, t: u64) -> nat {
        match self.writer {
            Some(w) => if w.id == t {
                w.count as nat
            } else {
                0
            },
            None => 0,
        }
    }

    /// The thread holding the writer, if any.
    pub closed spec fn writer(&self) -> Option<u64> {
        match self.writer {
            Some(w) => Some(w.id),
            None => None,
        }
    }

    /// A write hold would be granted to thread `me`.
    pub open spec fn write_grantable(&self, me: u64) -> bool {
        match self.writer() {
            Some(w) => w == me && self.writes_of(me) < usize::MAX,
            None => forall|t: u64| t != me ==> #[trigger] self.readers_of(t) == 0,
        }
    }

    /// `self` and `other` record the same holds.
    pub open spec fn same_holds(&self, other: &Container) -> bool {
        &&& self.writer() == other.writer()
        &&& forall|t: u64| #[trigger] self.readers_of(t) == other.readers_of(t)
        &&& forall|t: u64| #[trigger] self.writes_of(t) == other.writes_of(t)
    }

    /// The lock's invariant: a writer holds at least once and excludes every other thread's
    /// reads.
    pub closed spec fn wf(&self) -> bool {
        &&& forall|i: int|
            0 <= i < self.readers@.len() ==> {
                let t = (#[trigger] self.readers@[i]).id;
                &&& self.counts@.contains_key(t)
                &&& self.counts@[t] == self.readers@[i].count
                &&& self.pos@.contains_key(t)
                &&& self.pos@[t] == i
            }
        &&& forall|t: u64|
            #![trigger self.counts@.contains_key(t)]
            self.counts@.contains_key(t) ==> {
                &&& self.pos@.contains_key(t)
                &&& 0 <= self.pos@[t] < self.readers@.len()
                &&& self.readers@[self.pos@[t]].id == t
            }
        &&& match self.writer {
            Some(w) => w.count > 0 && forall|t: u64| t != w.id ==> #[trigger] self.readers_of(t) == 0,
            None => true,
        }
    }

    /// Nobody holds the lock.
    pub fn new() -> (r: Container)
        ensures
            r.wf(),
            r.writer() is None,
            forall|t: u64| r.readers_of(t) == 0 && r.writes_of(t) == 0,
    {
        Container { writer: None, readers: Vec::new(), counts: Ghost(Map::empty()), pos: Ghost(Map::empty()) }
    }

    /// Takes a read hold for thread `me`: refused while another thread holds the writer, or
    /// when the count would overflow.
    pub fn try_lock_read(&mut self, me: u64) -> (r: bool)
        requires
            old(self).wf(),
        ensures
            final(self).wf(),
            r == ((old(self).writer() is None || old(self).writer() == Some(me))
                && old(self).readers_of(me) < usize::MAX),
            final(self).readers_of(me) == old(self).readers_of(me) + if r {
                1nat
            } else {
                0nat
            },
            forall|t: u64| t != me ==> #[trigger] final(self).readers_of(t) == old(self).readers_of(t),
            forall|t: u64| #[trigger] final(self).writes_of(t) == old(self).writes_of(t),
            final(self).writer() == old(self).writer(),
    {
        match &self.writer {
            Some(w) => {
                if w.id != me {
                    return false;
                }
            },
            None => {},
        }
        let cur = match self.reader_index(me) {
            Some(i) => self.readers[i].count,
            None => 0,
        };
        if cur == usize::MAX {
            return false;
        }
        self.set_readers(me, cur + 1);
        true
    }

    /// Gives back a read hold of thread `me`, if it has one.
    pub fn try_release_read(&mut self, me: u64) -> (r: bool)
        requires
            old(self).wf(),
        ensures
            final(self).wf(),
            r == (old(self).readers_of(me) > 0),
            final(self).readers_of(me) == if r {
                (old(self).readers_of(me) - 1) as nat
            } else {
                old(self).readers_of(me)
            },
            forall|t: u64| t != me ==> #[trigger] final(self).readers_of(t) == old(self).readers_of(t),
            forall|t: u64| #[trigger] final(self).writes_of(t) == old(self).writes_of(t),
            final(self).writer() == old(self).writer(),
    {
        let cur = match self.reader_index(me) {
            Some(i) => self.readers[i].count,
            None => 0,
        };
        if cur == 0 {
            return false;
        }
        self.set_readers(me, cur - 1);
        true
    }

    /// Whether some thread other than `me` holds a read.
    fn other_readers(&self, me: u64) -> (r: bool)
        requires
            self.wf(),
        ensures
            r == exists|t: u64| t != me && #[trigger] self.readers_of(t) > 0,
    {
        let mut i: usize = 0;
        while i < self.readers.len()
            invariant
                self.wf(),
                i <= self.readers@.len(),
                forall|j: int|
                    0 <= j < i ==> (#[trigger] self.readers@[j]).id == me || self.readers@[j].count
                        == 0,
            decreases self.readers@.len() - i,
        {
            let e = self.readers[i];
            if e.id != me && e.count > 0 {
                assert(self.readers_of(e.id) > 0);
                return true;
            }
            i = i + 1;
        }
        proof {
            assert forall|t: u64| t != me implies #[trigger] self.readers_of(t) == 0 by {
                if self.counts@.contains_key(t) {
                    assert(self.readers@[self.pos@[t]].id == t);
                }
            }
        }
        false
    }

    /// Takes a write hold for thread `me`. A thread holding the writer takes it again; otherwise
    /// the writer is free and it is granted when no other thread holds a read.
    pub fn try_lock_write(&mut self, me: u64) -> (r: bool)
        requires
            old(self).wf(),
        ensures
            final(self).wf(),
            r == old(self).write_grantable(me),
            final(self).writes_of(me) == old(self).writes_of(me) + if r {
                1nat
            } else {
                0nat
            },
            r ==> final(self).writer() == Some(me),
            !r ==> final(self).writer() == old(self).writer(),
            forall|t: u64| t != me ==> #[trigger] final(self).writes_of(t) == old(self).writes_of(t),
            forall|t: u64| #[trigger] final(self).readers_of(t) == old(self).readers_of(t),
    {
        match self.writer {
            Some(w) => {
                let ghost pre = *self;
                if w.id == me && w.count < usize::MAX {
                    self.writer = Some(ThreadRef { id: me, count: w.count + 1 });
                    proof {
                        assert forall|t: u64| t != me implies #[trigger] self.readers_of(t) == 0 by {
                            assert(pre.readers_of(t) == 0);
                        }
                    }
                    return true;
                }
                false
            },
            None => {
                if self.other_readers(me) {
                    return false;
                }
                let ghost pre = *self;
                self.writer = Some(ThreadRef { id: me, count: 1 });
                proof {
                    assert forall|t: u64| t != me implies #[trigger] self.readers_of(t) == 0 by {
                        assert(pre.readers_of(t) == self.readers_of(t));
                        if pre.readers_of(t) > 0 {
                            assert(exists|x: u64| x != me && #[trigger] pre.readers_of(x) > 0);
                        }
                    }
                }
                true
            },
        }
    }

    /// Whether a write hold would be granted to thread `me`.
    pub fn can_write(&self, me: u64) -> (r: bool)
        requires
            self.wf(),
        ensures
            r == self.write_grantable(me),
    {
        match self.writer {
            Some(w) => w.id == me && w.count < usize::MAX,
            None => !self.other_readers(me),
        }
    }

    /// Gives back a write hold of thread `me`, if it has one; the last one frees the writer.
    pub fn try_release_write(&mut self, me: u64) -> (r: bool)
        requires
            old(self).wf(),
        ensures
            final(self).wf(),
            r == (old(self).writes_of(me) > 0),
            final(self).writes_of(me) == if r {
                (old(self).writes_of(me) - 1) as nat
            } else {
                old(self).writes_of(me)
            },
            final(self).writer() == if r && old(self).writes_of(me) == 1 {
                None
            } else {
                old(self).writer()
            },
            forall|t: u64| #[trigger] final(self).readers_of(t) == old(self).readers_of(t),
            forall|t: u64| t != me ==> #[trigger] final(self).writes_of(t) == old(self).writes_of(t),
    {
        match self.writer {
            Some(w) => {
                if w.id != me {
                    return false;
                }
                let ghost pre = *self;
                if w.count == 1 {
                    self.writer = None;
                } else {
                    self.writer = Some(ThreadRef { id: me, count: w.count - 1 });
                    proof {
                        assert forall|t: u64| t != me implies #[trigger] self.readers_of(t) == 0 by {
                            assert(pre.readers_of(t) == 0);
                        }
                    }
                }
                true
            },
            None => false,
        }
    }

    /// Whether the writer is held by thread `me`.
    pub fn writer_from_current_thread(&self, me: u64) -> (r: bool)
        ensures
            r == (self.writer() == Some(me)),
    {
        match &self.writer {
            Some(w) => w.id == me,
            None => false,
        }
    }

    /// Whether at most one thread holds reads, and which one when exactly one does.
    pub fn readers_from_single_thread(&self) -> (r: (bool, Option<u64>))
        requires
            self.wf(),
        ensures
            r.0 == forall|a: u64, b: u64|
                #![trigger self.readers_of(a), self.readers_of(b)]
                self.readers_of(a) > 0 && self.readers_of(b) > 0 ==> a == b,
            r.0 ==> match r.1 {
                Some(t) => self.readers_of(t) > 0,
                None => forall|t: u64| #[trigger] self.readers_of(t) == 0,
            },
            !r.0 ==> r.1 is None,
    {
        let mut found: Option<u64> = None;
        let mut i: usize = 0;
        while i < self.readers.len()
            invariant
                self.wf(),
                i <= self.readers@.len(),
                match found {
                    Some(t) => self.readers_of(t) > 0 && forall|j: int|
                        0 <= j < i ==> (#[trigger] self.readers@[j]).id == t
                            || self.readers@[j].count == 0,
                    None => forall|j: int| 0 <= j < i ==> (#[trigger] self.readers@[j]).count == 0,
                },
            decreases self.readers@.len() - i,
        {
            let e = self.readers[i];
            if e.count > 0 {
                match found {
                    Some(t) => {
                        if t != e.id {
                            proof {
                                assert(self.readers_of(e.id) > 0);
                            }
                            return (false, None);
                        }
                    },
                    None => {
                        found = Some(e.id);
                    },
                }
            }
            i = i + 1;
        }
        proof {
            assert forall|t: u64| self.readers_of(t) > 0 implies found == Some(t) by {
                assert(self.readers@[self.pos@[t]].id == t);
            }
        }
        (true, found)
    }

    fn reader_index(&self, me: u64) -> (r: Option<usize>)
        requires
            self.wf(),
        ensures
            match r {
                Some(i) => i < self.readers@.len() && self.readers@[i as int].id == me
                    && self.counts@.contains_key(me),
                None => !self.counts@.contains_key(me),
            },
    {
        let mut i: usize = 0;
        while i < self.readers.len()
            invariant
                self.wf(),
                i <= self.readers@.len(),
                forall|j: int| 0 <= j < i ==> (#[trigger] self.readers@[j]).id != me,
            decreases self.readers@.len() - i,
        {
            if self.readers[i].id == me {
                return Some(i);
            }
            i = i + 1;
        }
        proof {
            if self.counts@.contains_key(me) {
                assert(self.readers@[self.pos@[me]].id == me);
            }
        }
        None
    }

    /// Sets the read hold count of thread `me`.
    fn set_readers(&mut self, me: u64, count: usize)
        requires
            old(self).wf(),
            old(self).writer matches Some(w) ==> (count > 0 ==> w.id == me),
        ensures
            final(self).wf(),
            final(self).writer == old(self).writer,
            final(self).readers_of(me) == count,
            forall|t: u64| t != me ==> #[trigger] final(self).readers_of(t) == old(self).readers_of(t),
    {
        match self.reader_index(me) {
            Some(i) => {
                let ghost pre = *self;
                self.readers.set(i, ThreadRef { id: me, count });
                self.counts = Ghost(self.counts@.insert(me, count));
                proof {
                    assert(pre.pos@[me] == i);
                    assert forall|j: int| 0 <= j < self.readers@.len() implies {
                        let t = (#[trigger] self.readers@[j]).id;
                        &&& self.counts@.contains_key(t)
                        &&& self.counts@[t] == self.readers@[j].count
                        &&& self.pos@.contains_key(t)
                        &&& self.pos@[t] == j
                    } by {
                        if j != i {
                            assert(self.readers@[j] == pre.readers@[j]);
                        }
                    }
                }
            },
            None => {
                let ghost pre = *self;
                let n = self.readers.len();
                self.readers.push(ThreadRef { id: me, count });
                self.counts = Ghost(self.counts@.insert(me, count));
                self.pos = Ghost(self.pos@.insert(me, n as int));
                proof {
                    assert forall|j: int| 0 <= j < self.readers@.len() implies {
                        let t = (#[trigger] self.readers@[j]).id;
                        &&& self.counts@.contains_key(t)
                        &&& self.counts@[t] == self.readers@[j].count
                        &&& self.pos@.contains_key(t)
                        &&& self.pos@[t] == j
                    } by {
                        if j < n {
                            assert(self.readers@[j] == pre.readers@[j]);
                            assert(pre.counts@.contains_key(pre.readers@[j].id));
                        }
                    }
                    assert forall|t: u64|
                        #![trigger self.counts@.contains_key(t)]
                        self.counts@.contains_key(t) implies {
                        &&& self.pos@.contains_key(t)
                        &&& 0 <= self.pos@[t] < self.readers@.len()
                        &&& self.readers@[self.pos@[t]].id == t
                    } by {
                        if t != me {
                            assert(pre.counts@.contains_key(t));
                        }
                    }
                }
            },
        }
        proof {
            match self.writer {
                Some(w) => {
                    assert forall|t: u64| t != w.id implies #[trigger] self.readers_of(t) == 0 by {
                        if t != me {
                            assert(old(self).readers_of(t) == 0);
                        }
                    }
                },
                None => {},
            }
        }
    }
}

/// While a thread holds the writer, no other thread holds a read.
pub proof fn lemma_writer_excludes_readers(c: Container, t: u64)
    requires
        c.wf(),
        c.writer() is Some,
        t != c.writer()->0,
    ensures
        c.readers_of(t) == 0,
{
}

/// A reader/writer lock whose holds are keyed by thread id: a thread may take reads and writes
/// again while it holds them, and may take the writer while it holds reads, as long as no
/// other thread holds a read. Taking and giving back holds is separate from reaching the data.
pub struct ReentrantRwLock<T> {
    container: Container,
    data: T,
}

impl<T> ReentrantRwLock<T> {
    pub closed spec fn holders(&self) -> Container {
        self.container
    }

    pub closed spec fn data(&self) -> T {
        self.data
    }

    pub open spec fn wf(&self) -> bool {
        self.holders().wf()
    }

    /// A lock nobody holds, over `data`.
    pub fn new(data: T) -> (r: ReentrantRwLock<T>)
        ensures
            r.wf(),
            r.data() == data,
            r.holders().writer() is None,
            forall|t: u64| r.holders().readers_of(t) == 0 && r.holders().writes_of(t) == 0,
    {
        ReentrantRwLock { container: Container::new(), data }
    }

    /// The data, taking the lock apart.
    pub fn into_inner(self) -> (r: T)
        ensures
            r == self.data(),
    {
        self.data
    }

    /// The data, for reading.
    pub fn get(&self) -> (r: &T)
        ensures
            *r == self.data(),
    {
        &self.data
    }

    /// The data, for writing; exclusive access to the lock stands for holding it.
    pub fn get_mut(&mut self) -> (r: &mut T)
        ensures
            *r == old(self).data(),
            final(self).data() == *final(r),
            final(self).holders() == old(self).holders(),
    {
        &mut self.data
    }

    /// Takes a read hold for thread `me`; see `Container::try_lock_read`.
    pub fn try_read(&mut self, me: u64) -> (r: bool)
        requires
            old(self).wf(),
        ensures
            final(self).wf(),
            final(self).data() == old(self).data(),
            r == ((old(self).holders().writer() is None || old(self).holders().writer() == Some(me))
                && old(self).holders().readers_of(me) < usize::MAX),
            final(self).holders().readers_of(me) == old(self).holders().readers_of(me) + if r {
                1nat
            } else {
                0nat
            },
            forall|t: u64|
                t != me ==> #[trigger] final(self).holders().readers_of(t) == old(
                    self,
                ).holders().readers_of(t),
            final(self).holders().writer() == old(self).holders().writer(),
    {
        self.container.try_lock_read(me)
    }

    /// Gives back a read hold of thread `me`.
    pub fn release_read(&mut self, me: u64) -> (r: bool)
        requires
            old(self).wf(),
        ensures
            final(self).wf(),
            final(self).data() == old(self).data(),
            r == (old(self).holders().readers_of(me) > 0),
            final(self).holders().readers_of(me) == if r {
                (old(self).holders().readers_of(me) - 1) as nat
            } else {
                old(self).holders().readers_of(me)
            },
            forall|t: u64|
                t != me ==> #[trigger] final(self).holders().readers_of(t) == old(
                    self,
                ).holders().readers_of(t),
            forall|t: u64| #[trigger] final(self).holders().writes_of(t) == old(self).holders().writes_of(t),
            final(self).holders().writer() == old(self).holders().writer(),
    {
        self.container.try_release_read(me)
    }

    /// Takes a write hold for thread `me`; see `Container::try_lock_write`.
    pub fn try_write(&mut self, me: u64) -> (r: bool)
        requires
            old(self).wf(),
        ensures
            final(self).wf(),
            final(self).data() == old(self).data(),
            r == old(self).holders().write_grantable(me),
            final(self).holders().writes_of(me) == old(self).holders().writes_of(me) + if r {
                1nat
            } else {
                0nat
            },
            r ==> final(self).holders().writer() == Some(me),
            !r ==> final(self).holders().writer() == old(self).holders().writer(),
            forall|t: u64|
                t != me ==> #[trigger] final(self).holders().writes_of(t) == old(
                    self,
                ).holders().writes_of(t),
            forall|t: u64| #[trigger] final(self).holders().readers_of(t) == old(self).holders().readers_of(t),
    {
        self.container.try_lock_write(me)
    }

    /// Gives back a write hold of thread `me`.
    pub fn release_write(&mut self, me: u64) -> (r: bool)
        requires
            old(self).wf(),
        ensures
            final(self).wf(),
            final(self).data() == old(self).data(),
            r == (old(self).holders().writes_of(me) > 0),
            final(self).holders().writes_of(me) == if r {
                (old(self).holders().writes_of(me) - 1) as nat
            } else {
                old(self).holders().writes_of(me)
            },
            final(self).holders().writer() == if r && old(self).holders().writes_of(me) == 1 {
                None
            } else {
                old(self).holders().writer()
            },
            forall|t: u64|
                t != me ==> #[trigger] final(self).holders().writes_of(t) == old(
                    self,
                ).holders().writes_of(t),
            forall|t: u64| #[trigger] final(self).holders().readers_of(t) == old(self).holders().readers_of(t),
    {
        self.container.try_release_write(me)
    }

    /// Whether a write hold would be refused to thread `me`.
    pub fn is_locked(&self, me: u64) -> (r: bool)
        requires
            self.wf(),
        ensures
            r == !self.holders().write_grantable(me),
    {
        !self.container.can_write(me)
    }

    /// Whether thread `me` holds the writer.
    pub fn is_writer_held_by_current(&self, me: u64) -> (r: bool)
        ensures
            r == (self.holders().writer() == Some(me)),
    {
        self.container.writer_from_current_thread(me)
    }
}

} // verus!
