use crate::stats::bitonics::{
    bitonic_bound, bitonic_fresh, bitonic_out, bitonic_step, is_wire_count, merger_bound,
    merger_fresh, merger_out, merger_step, BalancingBitonic, BalancingMerger,
};
use vstd::prelude::*;

pub use crate::stats::bitonics::Balancer;

verus! {

/// Merging layer of a balancing network of a given width.
#[derive(Debug)]
pub struct Merger {
    pub inner: BalancingMerger,
}

impl Merger {
    pub open spec fn wf(&self) -> bool {
        self.inner.wf()
    }

    pub open spec fn width(&self) -> nat {
        self.inner.width()
    }

    /// The merging network underneath.
    pub open spec fn network(&self) -> BalancingMerger {
        self.inner
    }

    /// A merger of width `width`, every balancer pointing to wire 0.
    pub fn new(width: usize) -> (r: Merger)
        requires
            is_wire_count(width as nat),
        ensures
            r.wf(),
            r.width() == width,
            merger_fresh(r.network(), width as nat),
    {
        Merger { inner: BalancingMerger::new(width) }
    }

    /// Sends a traversal entering on wire `input` through the merger; returns its output wire.
    pub fn traverse(&mut self, input: usize) -> (r: usize)
        requires
            old(self).wf(),
        ensures
            final(self).wf(),
            final(self).width() == old(self).width(),
            r == merger_out(old(self).network(), old(self).width(), input as nat),
            r <= merger_bound(old(self).width()),
            merger_step(old(self).network(), final(self).network(), old(self).width(), input as nat),
    {
        self.inner.traverse(input)
    }
}

/// Bitonic balancing network of a given width.
#[derive(Debug)]
pub struct Bitonic {
    pub inner: BalancingBitonic,
}

impl Bitonic {
    pub open spec fn wf(&self) -> bool {
        self.inner.wf()
    }

    pub open spec fn width(&self) -> nat {
        self.inner.width()
    }

    /// The balancing network underneath.
    pub open spec fn network(&self) -> BalancingBitonic {
        self.inner
    }

    /// A network of width `width`, every balancer pointing to wire 0.
    pub fn new(width: usize) -> (r: Bitonic)
        requires
            is_wire_count(width as nat),
        ensures
            r.wf(),
            r.width() == width,
            bitonic_fresh(r.network(), width as nat),
    {
        Bitonic { inner: BalancingBitonic::new(width) }
    }

    /// Sends a traversal entering on wire `input` through the network; returns its output wire.
    pub fn traverse(&mut self, input: usize) -> (r: usize)
        requires
            old(self).wf(),
        ensures
            final(self).wf(),
            final(self).width() == old(self).width(),
            r == bitonic_out(old(self).network(), old(self).width(), input as nat),
            r <= bitonic_bound(old(self).width()),
            r < old(self).width(),
            bitonic_step(old(self).network(), final(self).network(), old(self).width(), input as nat),
    {
        self.inner.traverse(input)
    }
}

} // verus!
