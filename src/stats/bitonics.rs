use vstd::prelude::*;

verus! {

/// A wire count the networks are built for: two, or twice such a count.
pub open spec fn is_wire_count(w: nat) -> bool
    decreases w,
{
    if w <= 2 {
        w == 2
    } else {
        w % 2 == 0 && is_wire_count(w / 2)
    }
}

/// Largest output wire of a merger of width `w`.
pub open spec fn merger_bound(w: nat) -> nat
    decreases w,
{
    if w > 2 {
        merger_bound(w / 2) + 1
    } else {
        1
    }
}

/// Largest output wire of a bitonic network of width `w`.
pub open spec fn bitonic_bound(w: nat) -> nat
    decreases w,
{
    if w > 2 {
        bitonic_bound(w / 2) + merger_bound(w)
    } else {
        merger_bound(w)
    }
}

proof fn lemma_merger_bound(w: nat)
    requires
        is_wire_count(w),
    ensures
        merger_bound(w) <= w / 2,
    decreases w,
{
    if w > 2 {
        lemma_merger_bound(w / 2);
    }
}

proof fn lemma_bitonic_bound(w: nat)
    requires
        is_wire_count(w),
    ensures
        bitonic_bound(w) < w,
    decreases w,
{
    lemma_merger_bound(w);
    if w > 2 {
        lemma_bitonic_bound(w / 2);
    }
}

/// A two-way switch: sends traversals to wire 0 and wire 1 in turn, starting with 0.
#[derive(Debug)]
pub struct Balancer {
    pub toggle: bool,
}

impl Balancer {
    /// Whether the next traversal leaves on wire 0.
    pub open spec fn up(&self) -> bool {
        self.toggle
    }

    pub fn new() -> (r: Balancer)
        ensures
            r.up(),
    {
        Balancer { toggle: true }
    }

    /// Returns the output wire and flips the switch.
    pub fn traverse(&mut self) -> (r: usize)
        ensures
            r == if old(self).up() { 0usize } else { 1usize },
            final(self).up() == !old(self).up(),
    {
        let res = self.toggle;
        self.toggle = !res;
        if res {
            0
        } else {
            1
        }
    }
}

/// Merging layer of a balancing network: two half-width mergers feeding a layer of balancers.
#[derive(Debug)]
pub struct BalancingMerger {
    pub halves: Vec<BalancingMerger>,
    pub layer: Vec<Balancer>,
    pub width: usize,
}

/// `m` is a merger of width `w` with all of its parts.
pub open spec fn merger_wf(m: BalancingMerger, w: nat) -> bool
    decreases w,
{
    &&& m.width == w
    &&& is_wire_count(w)
    &&& m.layer@.len() == w / 2
    &&& if w > 2 {
        &&& m.halves@.len() == 2
        &&& merger_wf(m.halves@[0], w / 2)
        &&& merger_wf(m.halves@[1], w / 2)
    } else {
        m.halves@.len() == 0
    }
}

/// `m` is a fresh merger of width `w`: every balancer of it points to wire 0.
pub open spec fn merger_fresh(m: BalancingMerger, w: nat) -> bool
    decreases w,
{
    &&& forall|i: int| 0 <= i < m.layer@.len() ==> (#[trigger] m.layer@[i]).up()
    &&& w > 2 ==> merger_fresh(m.halves@[0], w / 2) && merger_fresh(m.halves@[1], w / 2)
}

/// Output wire of a traversal of `m` (width `w`) entering on wire `input`.
pub open spec fn merger_out(m: BalancingMerger, w: nat, input: nat) -> nat
    decreases w,
{
    let o = if w > 2 {
        merger_out(m.halves@[(input % 2) as int], w / 2, input / 2)
    } else {
        0
    };
    o + if m.layer@[o as int].up() {
        0nat
    } else {
        1nat
    }
}

/// `n` is `m` (width `w`) after a traversal entering on wire `input`: the balancer it left
/// through is flipped, in the half it went through, and nothing else changed.
pub open spec fn merger_step(m: BalancingMerger, n: BalancingMerger, w: nat, input: nat) -> bool
    decreases w,
{
    let i = (input % 2) as int;
    let o = if w > 2 {
        merger_out(m.halves@[i], w / 2, input / 2)
    } else {
        0
    };
    &&& n.width == m.width
    &&& n.layer@.len() == m.layer@.len()
    &&& n.layer@[o as int].up() == !m.layer@[o as int].up()
    &&& forall|j: int| 0 <= j < m.layer@.len() && j != o ==> n.layer@[j] == m.layer@[j]
    &&& if w > 2 {
        &&& n.halves@.len() == 2
        &&& merger_step(m.halves@[i], n.halves@[i], w / 2, input / 2)
        &&& n.halves@[1 - i] == m.halves@[1 - i]
    } else {
        n.halves@ == m.halves@
    }
}

impl BalancingMerger {
    pub open spec fn wf(&self) -> bool {
        merger_wf(*self, self.width as nat)
    }

    pub open spec fn width(&self) -> nat {
        self.width as nat
    }

    /// A merger of width `width`, every balancer pointing to wire 0.
    pub fn new(width: usize) -> (r: BalancingMerger)
        requires
            is_wire_count(width as nat),
        ensures
            r.wf(),
            r.width() == width,
            merger_fresh(r, width as nat),
        decreases width,
    {
        let half = width / 2;
        let mut layer: Vec<Balancer> = Vec::new();
        while layer.len() < half
            invariant
                half == width / 2,
                layer@.len() <= half,
                forall|i: int| 0 <= i < layer@.len() ==> (#[trigger] layer@[i]).up(),
            decreases half - layer@.len(),
        {
            layer.push(Balancer::new());
        }
        let halves = if width > 2 {
            vec![BalancingMerger::new(half), BalancingMerger::new(half)]
        } else {
            Vec::new()
        };
        BalancingMerger { halves, layer, width }
    }

    /// Sends a traversal entering on wire `input` through the merger; returns its output wire.
    pub fn traverse(&mut self, input: usize) -> (r: usize)
        requires
            old(self).wf(),
        ensures
            final(self).wf(),
            final(self).width() == old(self).width(),
            r == merger_out(*old(self), old(self).width(), input as nat),
            r <= merger_bound(old(self).width()),
            merger_step(*old(self), *final(self), old(self).width(), input as nat),
        decreases old(self).width(),
    {
        let ghost w = self.width as nat;
        proof {
            lemma_merger_bound(w);
            if w > 2 {
                lemma_merger_bound(w / 2);
                reveal_with_fuel(merger_wf, 2);
                assert(self.halves@[(input % 2) as int].wf());
            }
        }
        let output = if self.width > 2 {
            let i = input % 2;
            self.halves[i].traverse(input / 2)
        } else {
            0
        };
        let step = self.layer[output].traverse();
        output + step
    }
}

/// Balancing bitonic network: two half-width networks feeding a merger.
#[derive(Debug)]
pub struct BalancingBitonic {
    pub halves: Vec<BalancingBitonic>,
    pub merger: BalancingMerger,
    pub width: usize,
}

/// `b` is a bitonic network of width `w` with all of its parts.
pub open spec fn bitonic_wf(b: BalancingBitonic, w: nat) -> bool
    decreases w,
{
    &&& b.width == w
    &&& is_wire_count(w)
    &&& merger_wf(b.merger, w)
    &&& if w > 2 {
        &&& b.halves@.len() == 2
        &&& bitonic_wf(b.halves@[0], w / 2)
        &&& bitonic_wf(b.halves@[1], w / 2)
    } else {
        b.halves@.len() == 0
    }
}

/// `b` is a fresh network of width `w`: every balancer of it points to wire 0.
pub open spec fn bitonic_fresh(b: BalancingBitonic, w: nat) -> bool
    decreases w,
{
    &&& merger_fresh(b.merger, w)
    &&& w > 2 ==> bitonic_fresh(b.halves@[0], w / 2) && bitonic_fresh(b.halves@[1], w / 2)
}

/// Output wire of a traversal of `b` (width `w`) entering on wire `input`.
pub open spec fn bitonic_out(b: BalancingBitonic, w: nat, input: nat) -> nat
    decreases w,
{
    let o = if w > 2 {
        bitonic_out(b.halves@[(input % 2) as int], w / 2, input / 2)
    } else {
        0
    };
    o + merger_out(b.merger, w, o)
}

/// `n` is `b` (width `w`) after a traversal entering on wire `input`.
pub open spec fn bitonic_step(b: BalancingBitonic, n: BalancingBitonic, w: nat, input: nat) -> bool
    decreases w,
{
    let i = (input % 2) as int;
    let o = if w > 2 {
        bitonic_out(b.halves@[i], w / 2, input / 2)
    } else {
        0
    };
    &&& n.width == b.width
    &&& merger_step(b.merger, n.merger, w, o)
    &&& if w > 2 {
        &&& n.halves@.len() == 2
        &&& bitonic_step(b.halves@[i], n.halves@[i], w / 2, input / 2)
        &&& n.halves@[1 - i] == b.halves@[1 - i]
    } else {
        n.halves@ == b.halves@
    }
}

impl BalancingBitonic {
    pub open spec fn wf(&self) -> bool {
        bitonic_wf(*self, self.width as nat)
    }

    pub open spec fn width(&self) -> nat {
        self.width as nat
    }

    /// A network of width `width`, every balancer pointing to wire 0.
    pub fn new(width: usize) -> (r: BalancingBitonic)
        requires
            is_wire_count(width as nat),
        ensures
            r.wf(),
            r.width() == width,
            bitonic_fresh(r, width as nat),
        decreases width,
    {
        let halves = if width > 2 {
            vec![BalancingBitonic::new(width / 2), BalancingBitonic::new(width / 2)]
        } else {
            Vec::new()
        };
        BalancingBitonic { halves, merger: BalancingMerger::new(width), width }
    }

    /// Sends a traversal entering on wire `input` through the network; returns its output wire,
    /// which is below the width.
    pub fn traverse(&mut self, input: usize) -> (r: usize)
        requires
            old(self).wf(),
        ensures
            final(self).wf(),
            final(self).width() == old(self).width(),
            r == bitonic_out(*old(self), old(self).width(), input as nat),
            r <= bitonic_bound(old(self).width()),
            r < old(self).width(),
            bitonic_step(*old(self), *final(self), old(self).width(), input as nat),
        decreases old(self).width(),
    {
        let ghost w = self.width as nat;
        proof {
            lemma_bitonic_bound(w);
            lemma_merger_bound(w);
            if w > 2 {
                lemma_bitonic_bound(w / 2);
                reveal_with_fuel(bitonic_wf, 2);
                assert(self.halves@[(input % 2) as int].wf());
            }
        }
        let output = if self.width > 2 {
            let i = input % 2;
            self.halves[i].traverse(input / 2)
        } else {
            0
        };
        let step = self.merger.traverse(output);
        output + step
    }
}

/// What a traversal that leaves on wire `wire` adds to the counter, `trips` being the number
/// of traversals so far, this one included: the wire itself, except that a traversal that
/// completes a full round of `w` trips takes the number of rounds back off its wire when it can.
pub open spec fn counting_step(trips: usize, wire: usize, w: usize) -> usize {
    let q = trips / w;
    if trips % w > 0 || wire < q {
        wire
    } else {
        (wire - q) as usize
    }
}

/// Counting bitonic network: a balancing network whose traversals add up into a counter.
#[derive(Debug)]
pub struct CountingBitonic {
    pub balancing: BalancingBitonic,
    pub state: usize,
    pub trips: usize,
    pub width: usize,
}

impl CountingBitonic {
    pub open spec fn wf(&self) -> bool {
        &&& self.balancing.wf()
        &&& self.balancing.width() == self.width
    }

    pub open spec fn width(&self) -> nat {
        self.width as nat
    }

    /// The accumulated counter.
    pub open spec fn counter(&self) -> usize {
        self.state
    }

    /// Number of traversals so far, modulo the word size.
    pub open spec fn trips(&self) -> usize {
        self.trips
    }

    /// The underlying balancing network.
    pub open spec fn network(&self) -> BalancingBitonic {
        self.balancing
    }

    /// A counting network of width `width` with its counter at zero.
    pub fn new(width: usize) -> (r: CountingBitonic)
        requires
            is_wire_count(width as nat),
        ensures
            r.wf(),
            r.width() == width,
            r.counter() == 0,
            r.trips() == 0,
            bitonic_fresh(r.network(), width as nat),
    {
        CountingBitonic { balancing: BalancingBitonic::new(width), state: 0, trips: 0, width }
    }

    /// Traverses the network from wire `input`; adds what the traversal counts to the counter
    /// and returns the counter as it was before.
    pub fn traverse(&mut self, input: usize) -> (r: usize)
        requires
            old(self).wf(),
        ensures
            final(self).wf(),
            final(self).width() == old(self).width(),
            r == old(self).counter(),
            final(self).trips() == old(self).trips().wrapping_add(1),
            bitonic_step(old(self).network(), final(self).network(), old(self).width(), input as nat),
            final(self).counter() == old(self).counter().wrapping_add(
                counting_step(
                    final(self).trips(),
                    bitonic_out(old(self).network(), old(self).width(), input as nat) as usize,
                    old(self).width() as usize,
                ),
            ),
    {
        let wire = self.balancing.traverse(input);
        let trips = self.trips.wrapping_add(1);
        self.trips = trips;
        let q = trips / self.width;
        let r = trips % self.width;
        let add = if r > 0 {
            wire
        } else {
            match wire.checked_sub(q) {
                Some(e) => e,
                None => wire,
            }
        };
        let prev = self.state;
        self.state = prev.wrapping_add(add);
        prev
    }

    /// The accumulated counter.
    pub fn get(&self) -> (r: usize)
        ensures
            r == self.counter(),
    {
        self.state
    }
}

impl Default for CountingBitonic {
    /// A counting network of width eight.
    fn default() -> (r: CountingBitonic)
        ensures
            r.wf(),
            r.width() == 8,
            r.counter() == 0,
            r.trips() == 0,
    {
        assert(is_wire_count(8)) by {
            reveal_with_fuel(is_wire_count, 3);
        }
        CountingBitonic::new(8)
    }
}

} // verus!
