use crate::txn::version::Version;
use vstd::prelude::*;

verus! {

/// What a read observed of a variable: its stamp and its modification revision.
#[derive(Clone, Copy, Debug, PartialEq, Eq, Structural)]
pub struct ReadMark {
    pub stamp: u64,
    pub modrev: u64,
}

/// The variables an attempt has read, each with what its first read observed.
pub struct ReadSet {
    marks: Vec<Option<ReadMark>>,
}

impl ReadSet {
    /// Variable id to what its first read observed.
    pub closed spec fn view(&self) -> Map<u64, ReadMark> {
        Map::new(
            |id: u64| (id as int) < self.marks@.len() && self.marks@[id as int] is Some,
            |id: u64| self.marks@[id as int]->0,
        )
    }

    fn new() -> (r: ReadSet)
        ensures
            r@ == Map::<u64, ReadMark>::empty(),
    {
        let r = ReadSet { marks: Vec::new() };
        assert(r@ =~= Map::<u64, ReadMark>::empty());
        r
    }

    /// An empty read set for a new attempt.
    pub fn local() -> (r: ReadSet)
        ensures
            r@ == Map::<u64, ReadMark>::empty(),
    {
        Self::new()
    }

    /// The ids of the variables read, in ascending order.
    pub fn get_all(&self) -> (r: Vec<u64>)
        ensures
            forall|i: int, j: int| 0 <= i < j < r@.len() ==> r@[i] < r@[j],
            forall|id: u64| r@.contains(id) <==> self@.contains_key(id),
    {
        let mut out: Vec<u64> = Vec::new();
        let mut i: usize = 0;
        while i < self.marks.len()
            invariant
                i <= self.marks@.len(),
                forall|a: int, b: int| 0 <= a < b < out@.len() ==> out@[a] < out@[b],
                forall|a: int| 0 <= a < out@.len() ==> out@[a] < i,
                forall|id: u64|
                    out@.contains(id) <==> ((id as int) < i && self.marks@[id as int] is Some),
            decreases self.marks@.len() - i,
        {
            let ghost before = out@;
            let present = self.marks[i].is_some();
            if present {
                out.push(i as u64);
            }
            proof {
                assert forall|id: u64|
                    out@.contains(id) <==> ((id as int) < i + 1 && self.marks@[id as int] is Some) by {
                    if out@.contains(id) {
                        let a = choose|a: int| 0 <= a < out@.len() && out@[a] == id;
                        if a < before.len() {
                            assert(before[a] == id);
                            assert(before.contains(id));
                        } else {
                            assert(present);
                            assert(id == i as u64);
                        }
                    }
                    if (id as int) < i + 1 && self.marks@[id as int] is Some {
                        if id as int == i as int {
                            assert(out@[out@.len() - 1] == id);
                        } else {
                            assert(before.contains(id));
                            let a = choose|a: int| 0 <= a < before.len() && before[a] == id;
                            assert(out@[a] == id);
                        }
                    }
                }
            }
            i = i + 1;
        }
        out
    }

    /// The variables read, as read entries, in ascending order of id.
    pub fn get_all_versions(&self) -> (r: Vec<Version>)
        ensures
            forall|i: int, j: int| 0 <= i < j < r@.len() ==> r@[i].id() < r@[j].id(),
            forall|i: int| 0 <= i < r@.len() ==> r@[i] is Read,
            forall|id: u64| self@.contains_key(id) <==> r@.contains(Version::Read(id)),
    {
        let ids = self.get_all();
        let mut out: Vec<Version> = Vec::new();
        let mut i: usize = 0;
        while i < ids.len()
            invariant
                i <= ids@.len(),
                out@.len() == i,
                forall|a: int| 0 <= a < i ==> #[trigger] out@[a] == Version::Read(ids@[a]),
            decreases ids@.len() - i,
        {
            out.push(Version::Read(ids[i]));
            i = i + 1;
        }
        assert forall|id: u64| self@.contains_key(id) <==> out@.contains(Version::Read(id)) by {
            if self@.contains_key(id) {
                assert(ids@.contains(id));
                let a = choose|a: int| 0 <= a < ids@.len() && ids@[a] == id;
                assert(out@[a] == Version::Read(id));
            }
            if out@.contains(Version::Read(id)) {
                let a = choose|a: int| 0 <= a < out@.len() && out@[a] == Version::Read(id);
                assert(ids@[a] == id);
                assert(ids@.contains(id));
            }
        }
        out
    }

    /// What the first read of variable `id` observed, if it was read.
    pub fn get(&self, id: u64) -> (r: Option<ReadMark>)
        ensures
            r == if self@.contains_key(id) {
                Some(self@[id])
            } else {
                None
            },
    {
        let i = id as usize;
        if (id as u128) < (self.marks.len() as u128) {
            self.marks[i]
        } else {
            None
        }
    }

    /// Records a read of variable `id` that observed `mark`, unless the variable was read before:
    /// then the first observation stays.
    pub fn add(&mut self, id: u64, mark: ReadMark)
        requires
            (id as int) < usize::MAX,
        ensures
            final(self)@ == if old(self)@.contains_key(id) {
                old(self)@
            } else {
                old(self)@.insert(id, mark)
            },
    {
        let i = id as usize;
        while self.marks.len() <= i
            invariant
                (i as int) < usize::MAX,
                i == id,
                self@ == old(self)@,
            decreases i + 1 - self.marks@.len(),
        {
            self.marks.push(None);
            assert(self@ =~= old(self)@);
        }
        if self.marks[i].is_none() {
            self.marks.set(i, Some(mark));
            assert(self@ =~= old(self)@.insert(id, mark));
        }
    }

    /// Smallest stamp observed, or `u64::MAX` when nothing was read.
    pub fn first(&self) -> (r: u64)
        ensures
            forall|id: u64| self@.contains_key(id) ==> r <= self@[id].stamp,
            r == u64::MAX || exists|id: u64| self@.contains_key(id) && r == self@[id].stamp,
    {
        let mut min_stamp = u64::MAX;
        let ghost mut wit: u64 = 0;
        let mut i: usize = 0;
        while i < self.marks.len()
            invariant
                i <= self.marks@.len(),
                forall|id: u64|
                    (id as int) < i && self.marks@[id as int] is Some ==> min_stamp
                        <= self.marks@[id as int]->0.stamp,
                min_stamp == u64::MAX || ((wit as int) < i && self.marks@[wit as int] is Some
                    && min_stamp == self.marks@[wit as int]->0.stamp),
            decreases self.marks@.len() - i,
        {
            match self.marks[i] {
                Some(m) => {
                    if m.stamp < min_stamp {
                        min_stamp = m.stamp;
                        proof {
                            wit = i as u64;
                        }
                    }
                },
                None => {},
            }
            i = i + 1;
        }
        proof {
            if min_stamp != u64::MAX {
                assert(self@.contains_key(wit));
            }
        }
        min_stamp
    }

    /// Forgets every read.
    pub fn clear(&mut self)
        ensures
            final(self)@ == Map::<u64, ReadMark>::empty(),
    {
        self.marks = Vec::new();
        assert(self@ =~= Map::<u64, ReadMark>::empty());
    }
}

} // verus!
