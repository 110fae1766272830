use crate::txn::readset::{ReadMark, ReadSet};
use crate::txn::transact::{raised, TransactionIsolation};
use crate::txn::vars::VarState;
use crate::txn::writeset::{published, WriteMark, WriteSet};
use std::cmp::Ordering;
use vstd::prelude::*;

verus! {

/// A read of variable `id` that observed `m` still holds at validation: the variable exists,
/// no commit after the attempt began has stamped it, and, above read-committed isolation,
/// nobody raised its modification revision since, unless the attempt itself writes it.
pub open spec fn read_valid<T>(
    cells: Seq<VarState<T>>,
    rts: u64,
    iso: TransactionIsolation,
    writes: Map<u64, WriteMark<T>>,
    id: u64,
    m: ReadMark,
) -> bool {
    &&& (id as int) < cells.len()
    &&& cells[id as int].stamp <= rts
    &&& (!(iso is ReadCommitted) ==> writes.contains_key(id) || cells[id as int].modrev
        == m.modrev)
}

/// A buffered write of variable `id` still holds at validation: neither a commit nor another
/// writer touched the variable since the write was buffered.
pub open spec fn write_valid<T>(cells: Seq<VarState<T>>, id: u64, w: WriteMark<T>) -> bool {
    &&& (id as int) < cells.len()
    &&& cells[id as int].stamp == w.stamp
    &&& cells[id as int].modrev == w.modrev
}

/// An attempt with read timestamp `rts`, isolation `iso`, reads `reads` and buffered writes
/// `writes` may commit over the published variables `cells`.
pub open spec fn validates<T>(
    cells: Seq<VarState<T>>,
    rts: u64,
    iso: TransactionIsolation,
    reads: Map<u64, ReadMark>,
    writes: Map<u64, WriteMark<T>>,
) -> bool {
    &&& forall|id: u64|
        #![trigger reads.contains_key(id)]
        reads.contains_key(id) ==> read_valid(cells, rts, iso, writes, id, reads[id])
    &&& forall|id: u64| #![trigger writes.contains_key(id)] writes.contains_key(id) ==> (id as int) < cells.len()
    &&& (iso is Serializable ==> forall|id: u64|
        #![trigger writes.contains_key(id)]
        writes.contains_key(id) ==> write_valid(cells, id, writes[id]))
}

/// Two attempts race to write variable `id`: `first` buffered its write over `cells`, then
/// `second` buffered its own, raising the modification revision again. From then on the
/// first cannot pass the serializable write check, neither now nor after any later commit
/// that publishes the variable, while the second passes it until someone else touches the
/// variable. So at most one of the two commits; the other retries and reads the winner.
pub proof fn lemma_racing_writers<T>(
    cells: Seq<VarState<T>>,
    id: u64,
    first: WriteMark<T>,
    second: WriteMark<T>,
)
    requires
        (id as int) < cells.len(),
        cells[id as int].modrev < u64::MAX,
        first.stamp == cells[id as int].stamp,
        first.modrev == cells[id as int].modrev,
        second.stamp == cells[id as int].stamp,
        second.modrev == raised(cells[id as int].modrev),
    ensures
        ({
            let c = cells[id as int];
            let raced = cells.update(
                id as int,
                VarState { data: c.data, stamp: c.stamp, modrev: raised(c.modrev) },
            );
            &&& !write_valid(raced, id, first)
            &&& write_valid(raced, id, second)
            &&& forall|after: Seq<VarState<T>>, writes: Map<u64, WriteMark<T>>, wts: u64|
                published(raced, after, writes, wts) && wts != first.stamp ==> !write_valid(
                    after,
                    id,
                    first,
                )
        }),
{
    let c = cells[id as int];
    let raced = cells.update(
        id as int,
        VarState { data: c.data, stamp: c.stamp, modrev: raised(c.modrev) },
    );
    assert forall|after: Seq<VarState<T>>, writes: Map<u64, WriteMark<T>>, wts: u64|
        published(raced, after, writes, wts) && wts != first.stamp implies !write_valid(
        after,
        id,
        first,
    ) by {
        assert(after[id as int] == if writes.contains_key(id) {
            VarState { data: writes[id].value, stamp: wts, modrev: raced[id as int].modrev }
        } else {
            raced[id as int]
        });
    }
}

/// Which set a comparison came from.
#[derive(Clone, Copy, Debug, PartialEq, Eq, Structural)]
pub enum CompareSet {
    ReadLocal,
    WriteLocal,
}

/// A revision seen by an attempt, and whether it is still the current one.
#[derive(Clone, Copy, Debug, PartialEq, Eq, Structural)]
pub struct Compare {
    pub rev: u64,
    pub current: bool,
    pub set: CompareSet,
}

/// How revision `a` orders against revision `b`.
pub open spec fn rev_order(a: u64, b: u64) -> Ordering {
    if a < b {
        Ordering::Less
    } else if a == b {
        Ordering::Equal
    } else {
        Ordering::Greater
    }
}

impl Compare {
    pub fn new(rev: u64, current: bool, set: CompareSet) -> (r: Compare)
        ensures
            r == (Compare { rev, current, set }),
    {
        Compare { rev, current, set }
    }

    /// Whether this comparison's revision orders against `other`'s as `ordering` says.
    pub fn check(&self, other: &Compare, ordering: Ordering) -> (r: bool)
        ensures
            r == (rev_order(self.rev, other.rev) == ordering),
    {
        let o = if self.rev < other.rev {
            Ordering::Less
        } else if self.rev == other.rev {
            Ordering::Equal
        } else {
            Ordering::Greater
        };
        match (o, ordering) {
            (Ordering::Less, Ordering::Less) => true,
            (Ordering::Equal, Ordering::Equal) => true,
            (Ordering::Greater, Ordering::Greater) => true,
            _ => false,
        }
    }
}

/// The isolation-specific conflict check run before a commit.
pub struct ConflictManager;

impl ConflictManager {
    /// Whether an attempt with read timestamp `rts`, reads `reads` and writes `writes` may
    /// commit over `cells` under isolation `iso`.
    pub fn check<T>(
        iso: &TransactionIsolation,
        rts: u64,
        reads: &ReadSet,
        writes: &WriteSet<T>,
        cells: &Vec<VarState<T>>,
    ) -> (r: bool)
        ensures
            r == validates(cells@, rts, *iso, reads@, writes@),
    {
        let rids = reads.get_all();
        let mut k: usize = 0;
        while k < rids.len()
            invariant
                k <= rids@.len(),
                forall|id: u64| rids@.contains(id) <==> reads@.contains_key(id),
                forall|a: int|
                    0 <= a < k ==> read_valid(
                        cells@,
                        rts,
                        *iso,
                        writes@,
                        #[trigger] rids@[a],
                        reads@[rids@[a]],
                    ),
            decreases rids@.len() - k,
        {
            let id = rids[k];
            assert(rids@.contains(id));
            let mark = match reads.get(id) {
                Some(m) => m,
                None => {
                    return false;
                },
            };
            if (id as u128) >= (cells.len() as u128) {
                return false;
            }
            let cell = &cells[id as usize];
            if cell.stamp > rts {
                return false;
            }
            match iso {
                TransactionIsolation::ReadCommitted => {},
                _ => {
                    if writes.get(id).is_none() && cell.modrev != mark.modrev {
                        return false;
                    }
                },
            }
            k = k + 1;
        }
        assert forall|id: u64| #![trigger reads@.contains_key(id)] reads@.contains_key(id) implies read_valid(
            cells@,
            rts,
            *iso,
            writes@,
            id,
            reads@[id],
        ) by {
            assert(rids@.contains(id));
            let a = choose|a: int| 0 <= a < rids@.len() && rids@[a] == id;
            assert(read_valid(cells@, rts, *iso, writes@, rids@[a], reads@[rids@[a]]));
        }
        let wids = writes.get_all_keys();
        let serializable = match iso {
            TransactionIsolation::Serializable => true,
            _ => false,
        };
        let mut k: usize = 0;
        while k < wids.len()
            invariant
                k <= wids@.len(),
                serializable == (*iso is Serializable),
                forall|id: u64| wids@.contains(id) <==> writes@.contains_key(id),
                forall|a: int|
                    0 <= a < k ==> ((#[trigger] wids@[a]) as int) < cells@.len() && (serializable
                        ==> write_valid(cells@, wids@[a], writes@[wids@[a]])),
            decreases wids@.len() - k,
        {
            let id = wids[k];
            assert(wids@.contains(id));
            if (id as u128) >= (cells.len() as u128) {
                return false;
            }
            if serializable {
                let cell = &cells[id as usize];
                match writes.get(id) {
                    Some(w) => {
                        if cell.stamp != w.stamp || cell.modrev != w.modrev {
                            return false;
                        }
                    },
                    None => {
                        return false;
                    },
                }
            }
            k = k + 1;
        }
        assert forall|id: u64| #![trigger writes@.contains_key(id)] writes@.contains_key(id) implies (id as int)
            < cells@.len() && (serializable ==> write_valid(cells@, id, writes@[id])) by {
            assert(wids@.contains(id));
            let a = choose|a: int| 0 <= a < wids@.len() && wids@[a] == id;
            assert(((wids@[a]) as int) < cells@.len());
        }
        true
    }
}

} // verus!
