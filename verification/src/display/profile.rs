//! How long it took to decompress the nodes of an array tree.

use vstd::prelude::*;

verus! {

/// What was measured of one node of an array tree. Times are in nanoseconds.
#[derive(Clone, Copy, Debug, PartialEq, Eq, Hash, Structural)]
pub struct NodeTiming {
    /// The time to decompress the node with everything below it.
    pub subtree: u64,
    /// The time to decompress each of its children by itself, added up.
    pub children: u64,
    /// The size of the node, encoded.
    pub input_bytes: u64,
    /// The size of the node, decompressed.
    pub output_bytes: u64,
    /// The number of rows.
    pub rows: u64,
}

impl NodeTiming {
    /// The time that the node saves by doing the work of its children as part of its own, if it is
    /// done before its children by themselves would be.
    pub fn fusion_saving(&self) -> (r: Option<u64>)
        ensures
            match r {
                Some(saving) => self.subtree < self.children && saving == self.children
                    - self.subtree,
                None => self.subtree >= self.children,
            },
    {
        if self.subtree < self.children {
            Some(self.children - self.subtree)
        } else {
            None
        }
    }

    /// The time that the node takes beyond the time of its children.
    pub fn self_time(&self) -> (r: u64)
        ensures
            r == (if self.subtree >= self.children {
                self.subtree - self.children
            } else {
                0
            }),
    {
        if self.subtree >= self.children {
            self.subtree - self.children
        } else {
            0
        }
    }
}

/// What was measured of the nodes of an array tree. Every node has a number of its own.
#[derive(Debug)]
pub struct DecompressionProfile {
    root_time: u64,
    timings: Vec<(u64, NodeTiming)>,
}

/// What was measured of a node, by the first entry for it.
pub open spec fn timing_of(timings: Seq<(u64, NodeTiming)>, node: u64) -> Option<NodeTiming>
    decreases timings.len(),
{
    if timings.len() == 0 {
        None
    } else if timings[0].0 == node {
        Some(timings[0].1)
    } else {
        timing_of(timings.skip(1), node)
    }
}

impl DecompressionProfile {
    /// The time of the whole tree.
    pub closed spec fn spec_root_time(&self) -> u64 {
        self.root_time
    }

    /// The nodes that were measured.
    pub closed spec fn timings(&self) -> Seq<(u64, NodeTiming)> {
        self.timings@
    }

    /// The profile with the time of the whole tree and the timings of nodes by their number.
    pub fn new(root_time: u64, timings: Vec<(u64, NodeTiming)>) -> (r: DecompressionProfile)
        ensures
            r.spec_root_time() == root_time,
            r.timings() == timings@,
    {
        DecompressionProfile { root_time, timings }
    }

    /// The time of the whole tree.
    pub fn root_time(&self) -> (r: u64)
        ensures
            r == self.spec_root_time(),
    {
        self.root_time
    }

    /// What was measured of a node, if it was measured.
    pub fn get(&self, node: u64) -> (r: Option<&NodeTiming>)
        ensures
            match r {
                Some(timing) => timing_of(self.timings(), node) == Some(*timing),
                None => timing_of(self.timings(), node) is None,
            },
    {
        let ghost all = self.timings@;
        let mut i: usize = 0;
        assert(all.skip(0) =~= all);
        while i < self.timings.len()
            invariant
                i <= self.timings@.len(),
                all == self.timings@,
                timing_of(all.skip(i as int), node) == timing_of(all, node),
            decreases self.timings@.len() - i,
        {
            assert(all.skip(i as int)[0] == all[i as int]);
            assert(all.skip(i as int).skip(1) =~= all.skip(i + 1));
            if self.timings[i].0 == node {
                return Some(&self.timings[i].1);
            }
            i += 1;
        }
        None
    }
}

} // verus!
