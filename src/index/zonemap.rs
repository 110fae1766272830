use crate::stats::bitonics::CountingBitonic;
use vstd::prelude::*;

verus! {

/// One zone of a column: its value range, its selectivity and a counter of its hits.
#[derive(Debug)]
pub struct Zone {
    pub min: usize,
    pub max: usize,
    pub selectivity: usize,
    pub stats: CountingBitonic,
}

impl Zone {
    /// A zone over `[min, max]` with the given selectivity and no hits yet.
    pub fn with_range(min: usize, max: usize, selectivity: usize) -> (r: Zone)
        ensures
            r.min == min,
            r.max == max,
            r.selectivity == selectivity,
            r.stats.wf(),
            r.stats.counter() == 0,
    {
        Zone { min, max, selectivity, stats: CountingBitonic::default() }
    }

    /// Hit count of the zone.
    pub fn hits(&self) -> (r: usize)
        ensures
            r == self.stats.counter(),
    {
        self.stats.get()
    }

    /// The zone as `(min, max, selectivity)`.
    pub fn zone_triple(&self) -> (r: (usize, usize, usize))
        ensures
            r == (self.min, self.max, self.selectivity),
    {
        (self.min, self.max, self.selectivity)
    }
}

} // verus!
