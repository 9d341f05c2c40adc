//! Nodes of the cumulative distribution of the rate over harmonic order.
//!
//! The cumulative rate is stored at sixteen harmonic orders, the first of
//! which is the lowest harmonic `n_min`. The later nodes are spread evenly in
//! `ln(n - n_min + 1)`; each is rounded to a harmonic, and where rounding
//! would repeat (or, for the summed tables, fall behind) the previous node,
//! the node is pushed to the harmonic after it instead. The cumulative rate
//! at a node is then read from the running sum over harmonics, whose entry
//! for harmonic `n` sits at position `n - n_min`; nodes beyond the last
//! summed harmonic read the last entry, the total.
use vstd::prelude::*;

verus! {

/// Placement of a node when the partial rates are summed: a rounded
/// candidate that does not exceed the previous node is replaced by the
/// harmonic after it. The flag tells whether the candidate was replaced.
pub open spec fn summation_step(prev: i32, candidate: i32) -> (i32, bool) {
    if candidate <= prev {
        ((prev + 1) as i32, true)
    } else {
        (candidate, false)
    }
}

/// Placement of a node when the partial rates are integrated over
/// harmonic order: only a candidate equal to the previous node is replaced
/// by the harmonic after it.
pub open spec fn integration_step(prev: i32, candidate: i32) -> (i32, bool) {
    if candidate == prev {
        ((prev + 1) as i32, true)
    } else {
        (candidate, false)
    }
}

/// The step of either rule.
pub open spec fn node_step(summed: bool, prev: i32, candidate: i32) -> (i32, bool) {
    if summed {
        summation_step(prev, candidate)
    } else {
        integration_step(prev, candidate)
    }
}

/// Whether the step from `prev` pushes past it, which needs a harmonic
/// after `prev`.
pub open spec fn step_pushes(summed: bool, prev: i32, candidate: i32) -> bool {
    if summed {
        candidate <= prev
    } else {
        candidate == prev
    }
}

/// What the placement rules do: a summed table keeps a candidate above the
/// previous node as it is and unpushed, and replaces a candidate at or below
/// it by the harmonic right after the previous node, reporting a push; an
/// integrated table keeps every candidate that differs from the previous
/// node, and only a repeat of it is replaced by the harmonic after it. In
/// both rules the node placed differs from the candidate exactly when the
/// push is reported.
pub proof fn lemma_placement_rules(summed: bool, prev: i32, candidate: i32)
    requires
        step_pushes(summed, prev, candidate) ==> prev < i32::MAX,
    ensures
        candidate > prev ==> summation_step(prev, candidate).0 == candidate && !summation_step(
            prev,
            candidate,
        ).1,
        candidate != prev ==> integration_step(prev, candidate).0 == candidate && !integration_step(
            prev,
            candidate,
        ).1,
        step_pushes(summed, prev, candidate) ==> node_step(summed, prev, candidate).0 == prev + 1
            && node_step(summed, prev, candidate).1,
        !step_pushes(summed, prev, candidate) ==> node_step(summed, prev, candidate).0 == candidate
            && !node_step(summed, prev, candidate).1,
        node_step(summed, prev, candidate).1 <==> node_step(summed, prev, candidate).0 != candidate,
        summed ==> node_step(summed, prev, candidate).0 > prev && node_step(summed, prev, candidate).0
            >= candidate,
        summed ==> (node_step(summed, prev, candidate).1 <==> candidate <= prev),
        !summed ==> (node_step(summed, prev, candidate).1 <==> candidate == prev),
        !summed ==> node_step(summed, prev, candidate).0 != prev,
{
}

/// Places the next node of a summed table after `prev`, given the rounded
/// `candidate`; the flag is set where the candidate was replaced.
pub fn next_node_by_summation(prev: i32, candidate: i32) -> (res: (i32, bool))
    requires
        candidate <= prev ==> prev < i32::MAX,
    ensures
        res == summation_step(prev, candidate),
        candidate > prev ==> res.0 == candidate && !res.1,
        candidate <= prev ==> res.0 == prev + 1 && res.1,
{
    if candidate <= prev {
        (prev + 1, true)
    } else {
        (candidate, false)
    }
}

/// Places the next node of an integrated table after `prev`, given the
/// rounded `candidate`; the flag is set where the candidate was replaced.
pub fn next_node_by_integration(prev: i32, candidate: i32) -> (res: (i32, bool))
    requires
        candidate == prev ==> prev < i32::MAX,
    ensures
        res == integration_step(prev, candidate),
        candidate != prev ==> res.0 == candidate && !res.1,
        candidate == prev ==> res.0 == prev + 1 && res.1,
{
    if candidate == prev {
        (prev + 1, true)
    } else {
        (candidate, false)
    }
}

/// The nodes of a cumulative table placed so far, starting at `n_min`,
/// under the rule of summed tables or of integrated tables.
pub struct NodeGrid {
    nodes: Vec<i32>,
    summed: bool,
}

impl View for NodeGrid {
    type V = Seq<i32>;

    closed spec fn view(&self) -> Seq<i32> {
        self.nodes@
    }
}

impl NodeGrid {
    /// Whether nodes are placed by the rule of summed tables.
    pub closed spec fn is_summed(&self) -> bool {
        self.summed
    }

    /// What every grid keeps: it starts with one node; under the summation
    /// rule the nodes strictly increase, so none lies below the first;
    /// under the integration rule no node repeats the one before it.
    pub open spec fn wf(&self) -> bool {
        &&& self@.len() >= 1
        &&& self.is_summed() ==> forall|i: int, j: int|
            0 <= i < j < self@.len() ==> self@[i] < self@[j]
        &&& self.is_summed() ==> forall|i: int| 0 <= i < self@.len() ==> self@[0] <= #[trigger] self@[i]
        &&& !self.is_summed() ==> forall|i: int|
            0 < i < self@.len() ==> self@[i - 1] != #[trigger] self@[i]
    }

    /// A grid holding only the lowest harmonic `n_min`, placing later nodes
    /// by the rule of summed tables where `summed`, else of integrated ones.
    pub fn new(n_min: i32, summed: bool) -> (res: NodeGrid)
        ensures
            res.wf(),
            res@ == seq![n_min],
            res.is_summed() == summed,
    {
        let mut nodes: Vec<i32> = Vec::new();
        nodes.push(n_min);
        NodeGrid { nodes, summed }
    }

    /// The last node placed.
    pub fn last(&self) -> (res: i32)
        requires
            self.wf(),
        ensures
            res == self@.last(),
    {
        self.nodes[self.nodes.len() - 1]
    }

    /// The number of nodes placed.
    pub fn len(&self) -> (res: usize)
        ensures
            res == self@.len(),
    {
        self.nodes.len()
    }

    /// The nodes placed, first to last.
    pub fn nodes(&self) -> (res: Vec<i32>)
        ensures
            res@ == self@,
    {
        self.nodes.clone()
    }

    /// Places the next node after the last one, given the rounded
    /// `candidate`, by the grid's rule; tells whether the candidate was
    /// pushed past the last node.
    pub fn place(&mut self, candidate: i32) -> (pushed: bool)
        requires
            old(self).wf(),
            step_pushes(old(self).is_summed(), old(self)@.last(), candidate) ==> old(self)@.last()
                < i32::MAX,
        ensures
            final(self).wf(),
            final(self).is_summed() == old(self).is_summed(),
            final(self)@ == old(self)@.push(
                node_step(old(self).is_summed(), old(self)@.last(), candidate).0,
            ),
            pushed == node_step(old(self).is_summed(), old(self)@.last(), candidate).1,
            old(self).is_summed() && candidate > old(self)@.last() ==> !pushed && final(self)@
                == old(self)@.push(candidate),
            old(self).is_summed() && candidate <= old(self)@.last() ==> pushed && final(self)@
                == old(self)@.push((old(self)@.last() + 1) as i32),
            !old(self).is_summed() && candidate != old(self)@.last() ==> !pushed && final(self)@
                == old(self)@.push(candidate),
            !old(self).is_summed() && candidate == old(self)@.last() ==> pushed && final(self)@
                == old(self)@.push((old(self)@.last() + 1) as i32),
    {
        let prev = self.nodes[self.nodes.len() - 1];
        let (node, pushed) = if self.summed {
            next_node_by_summation(prev, candidate)
        } else {
            next_node_by_integration(prev, candidate)
        };
        let ghost before = self.nodes@;
        self.nodes.push(node);
        proof {
            let after = self.nodes@;
            assert(after.len() == before.len() + 1);
            assert(forall|i: int| 0 <= i < before.len() ==> after[i] == before[i]);
            if self.summed {
                assert(node > prev);
                assert forall|i: int, j: int| 0 <= i < j < after.len() implies after[i] < after[j] by {
                    if j == before.len() {
                        if i < before.len() - 1 {
                            assert(before[i] < before[before.len() - 1]);
                        }
                    }
                }
                assert forall|i: int| 0 <= i < after.len() implies after[0] <= #[trigger] after[i] by {
                    if i == before.len() {
                        assert(before[0] <= before[before.len() - 1]);
                    }
                }
            } else {
                assert forall|i: int| 0 < i < after.len() implies after[i - 1] != #[trigger] after[i] by {
                    if i == before.len() {
                        assert(after[i - 1] == prev);
                    } else {
                        assert(before[i - 1] != before[i]);
                    }
                }
            }
        }
        pushed
    }
}

/// Nodes placed by the summation rule strictly increase and none lies
/// below the lowest harmonic; so the offset `node - n_min` at which a node
/// reads the running sum is never negative.
pub proof fn lemma_summed_grid_increases(grid: NodeGrid)
    requires
        grid.wf(),
        grid.is_summed(),
    ensures
        forall|i: int, j: int| 0 <= i < j < grid@.len() ==> grid@[i] < grid@[j],
        forall|i: int| 0 <= i < grid@.len() ==> grid@[0] <= #[trigger] grid@[i],
{
}

/// Nodes placed by the integration rule never repeat the node just before
/// them.
pub proof fn lemma_integrated_grid_never_repeats(grid: NodeGrid)
    requires
        grid.wf(),
        !grid.is_summed(),
    ensures
        forall|i: int| 0 < i < grid@.len() ==> grid@[i - 1] != #[trigger] grid@[i],
{
}

/// The entry of the running sum that a node reads.
#[derive(PartialEq, Eq, Structural, Clone, Copy, Debug)]
pub enum RateEntry {
    /// The running sum reaches the node's harmonic; its entry is here.
    Own(usize),
    /// The node lies beyond the last summed harmonic; it reads the last
    /// entry, the total, which is here.
    Total(usize),
}

/// The entry of the running sum over harmonics `n_min, n_min + 1, ...` of
/// length `len` that the node at harmonic `node` reads.
pub open spec fn rate_entry(n_min: i32, node: i32, len: usize) -> RateEntry {
    if node - n_min < len {
        RateEntry::Own((node - n_min) as usize)
    } else {
        RateEntry::Total((len - 1) as usize)
    }
}

/// The position an entry refers to.
pub open spec fn entry_position(e: RateEntry) -> int {
    match e {
        RateEntry::Own(i) => i as int,
        RateEntry::Total(i) => i as int,
    }
}

/// The entry of the running sum that the node at harmonic `node` reads.
pub fn cdf_rate_entry(n_min: i32, node: i32, len: usize) -> (res: RateEntry)
    requires
        n_min <= node,
        len > 0,
    ensures
        res == rate_entry(n_min, node, len),
        entry_position(res) < len,
        node - n_min < len ==> res == RateEntry::Own((node - n_min) as usize),
        node - n_min >= len ==> res == RateEntry::Total((len - 1) as usize),
{
    let offset: i64 = node as i64 - n_min as i64;
    if (offset as u64) < (len as u64) {
        RateEntry::Own(offset as usize)
    } else {
        RateEntry::Total(len - 1)
    }
}

/// The entries of the running sum that each of `nodes` reads, in order.
pub fn cdf_rate_entries(n_min: i32, nodes: &Vec<i32>, len: usize) -> (res: Vec<RateEntry>)
    requires
        forall|i: int| 0 <= i < nodes.len() ==> n_min <= #[trigger] nodes@[i],
        len > 0,
    ensures
        res.len() == nodes.len(),
        forall|i: int| 0 <= i < nodes.len() ==> #[trigger] res@[i] == rate_entry(n_min, nodes@[i], len),
{
    let mut res: Vec<RateEntry> = Vec::new();
    let count = nodes.len();
    for i in 0..count
        invariant
            count == nodes.len(),
            len > 0,
            forall|k: int| 0 <= k < nodes.len() ==> n_min <= #[trigger] nodes@[k],
            res.len() == i,
            forall|k: int| 0 <= k < i ==> #[trigger] res@[k] == rate_entry(n_min, nodes@[k], len),
    {
        let entry = cdf_rate_entry(n_min, nodes[i], len);
        res.push(entry);
    }
    res
}

/// Where the running sum holds the harmonics `n_min, n_min + 1, ...` in
/// turn, a node at a harmonic that the sum reaches reads the entry of that
/// very harmonic, and a node beyond it reads the last entry, the total.
pub proof fn lemma_cdf_entry_is_node_harmonic(n_min: i32, harmonics: Seq<i32>, node: i32)
    requires
        harmonics.len() > 0,
        harmonics.len() <= usize::MAX,
        forall|i: int| 0 <= i < harmonics.len() ==> #[trigger] harmonics[i] == n_min + i,
        n_min <= node,
    ensures
        ({
            let e = rate_entry(n_min, node, harmonics.len() as usize);
            &&& e matches RateEntry::Own(i) ==> harmonics[i as int] == node
            &&& e matches RateEntry::Total(i) ==> i == harmonics.len() - 1 && node >= n_min
                + harmonics.len()
            &&& 0 <= entry_position(e) < harmonics.len()
        }),
{
}

} // verus!
