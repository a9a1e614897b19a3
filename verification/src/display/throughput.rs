//! The throughput of the nodes of an array tree.

use vstd::prelude::*;
use vstd::string::StringExecFns;

use crate::display::profile::{timing_of, DecompressionProfile, NodeTiming};
use crate::text::{number, number_text};

verus! {

/// Adds a `throughput:` line to the nodes of a displayed array tree, from a profile.
///
/// The line says how long it takes to decompress the node with everything below it, the share of
/// that in the time of the whole tree, the rates it implies, and either the time of the node itself
/// or how much of its children's work it fuses into its own.
#[derive(Debug)]
pub struct ThroughputExtractor {
    profile: DecompressionProfile,
}

impl ThroughputExtractor {
    /// The profile behind this extractor.
    pub closed spec fn spec_profile(&self) -> DecompressionProfile {
        self.profile
    }

    /// An extractor with a profile that has been measured already.
    pub fn new(profile: DecompressionProfile) -> (r: ThroughputExtractor)
        ensures
            r.spec_profile() == profile,
    {
        ThroughputExtractor { profile }
    }

    /// The profile behind this extractor.
    pub fn profile(&self) -> (r: &DecompressionProfile)
        ensures
            *r == self.spec_profile(),
    {
        &self.profile
    }

    /// What there is to say of a node: nothing if it was not measured.
    pub fn timing(&self, node: u64) -> (r: Option<Timing>)
        ensures
            match r {
                Some(timing) => timing_of(self.spec_profile().timings(), node) == Some(timing.node)
                    && timing.root == self.spec_profile().spec_root_time(),
                None => timing_of(self.spec_profile().timings(), node) is None,
            },
    {
        match self.profile.get(node) {
            Some(timing) => Some(Timing { node: *timing, root: self.profile.root_time() }),
            None => None,
        }
    }
}

/// What was measured of a node, and the time of the whole tree.
#[derive(Clone, Copy, Debug, PartialEq, Eq, Hash, Structural)]
pub struct Timing {
    /// What was measured of the node.
    pub node: NodeTiming,
    /// The time of the whole tree, in nanoseconds.
    pub root: u64,
}

/// The rendered figures of a [`Timing`].
#[derive(Debug)]
pub struct Figures {
    /// The time of the subtree.
    pub elapsed: String,
    /// Its share in the time of the whole tree, in percent.
    pub percent: String,
    /// The rate at which encoded bytes are read.
    pub input: String,
    /// The rate at which decompressed bytes are written.
    pub output: String,
    /// The rate at which rows are decompressed.
    pub rows: String,
    /// The time that [`Timing::closing`] asks for.
    pub closing: String,
}

/// What the line on a node ends with.
#[derive(Clone, Copy, Debug, PartialEq, Eq, Hash, Structural)]
pub enum Closing {
    /// The node does the work of its children as part of its own, and saves this time.
    Fused(u64),
    /// The node takes this time by itself.
    Itself(u64),
}

/// The line on a node.
pub open spec fn line_text(indent: Seq<char>, closing: Closing, figures: Figures) -> Seq<char> {
    let figures_text = figures.elapsed@ + " ("@ + figures.percent@ + "%) | in "@ + figures.input@
        + " | out "@ + figures.output@ + " | "@ + figures.rows@;
    let closing_text = match closing {
        Closing::Fused(_) => " | fuses children (saves "@ + figures.closing@ + ")"@,
        Closing::Itself(_) => " | self "@ + figures.closing@,
    };
    indent + "throughput: "@ + figures_text + closing_text + "\n"@
}

impl Timing {
    /// What the line on this node ends with.
    pub open spec fn spec_closing(self) -> Closing {
        if self.node.subtree < self.node.children {
            Closing::Fused((self.node.children - self.node.subtree) as u64)
        } else {
            Closing::Itself((self.node.subtree - self.node.children) as u64)
        }
    }

    /// What the line on this node ends with.
    pub fn closing(&self) -> (r: Closing)
        ensures
            r == self.spec_closing(),
    {
        match self.node.fusion_saving() {
            Some(saving) => Closing::Fused(saving),
            None => Closing::Itself(self.node.self_time()),
        }
    }

    /// The line on this node, with its figures as they were rendered.
    pub fn line(&self, indent: &str, figures: &Figures) -> (r: String)
        ensures
            r@ == line_text(indent@, self.spec_closing(), *figures),
    {
        let mut r = indent.to_owned();
        r.append("throughput: ");
        r.append(&figures.elapsed);
        r.append(" (");
        r.append(&figures.percent);
        r.append("%) | in ");
        r.append(&figures.input);
        r.append(" | out ");
        r.append(&figures.output);
        r.append(" | ");
        r.append(&figures.rows);
        match self.closing() {
            Closing::Fused(_) => {
                r.append(" | fuses children (saves ");
                r.append(&figures.closing);
                r.append(")");
            },
            Closing::Itself(_) => {
                r.append(" | self ");
                r.append(&figures.closing);
            },
        }
        r.append("\n");
        assert(r@ =~= line_text(indent@, self.spec_closing(), *figures));
        r
    }
}

/// A duration in nanoseconds, rendered as `1.81ms`.
#[derive(Clone, Copy, Debug, PartialEq, Eq, Hash, Structural)]
pub struct Elapsed(pub u64);

/// The unit of a duration, and how many nanoseconds it has: the largest unit that the duration is
/// not shorter than.
pub open spec fn unit_of(nanos: u64) -> (nat, Seq<char>) {
    if nanos >= 1_000_000_000 {
        (1_000_000_000, "s"@)
    } else if nanos >= 1_000_000 {
        (1_000_000, "ms"@)
    } else if nanos >= 1_000 {
        (1_000, "\u{b5}s"@)
    } else {
        (1, "ns"@)
    }
}

impl Elapsed {
    /// How many nanoseconds the unit of this duration has, and the unit.
    pub fn unit(&self) -> (r: (u64, &'static str))
        ensures
            r.0 == unit_of(self.0).0,
            r.1@ == unit_of(self.0).1,
    {
        if self.0 >= 1_000_000_000 {
            (1_000_000_000, "s")
        } else if self.0 >= 1_000_000 {
            (1_000_000, "ms")
        } else if self.0 >= 1_000 {
            (1_000, "\u{b5}s")
        } else {
            (1, "ns")
        }
    }

    /// This duration in whole nanoseconds, if they are its unit.
    pub fn whole_nanos(&self) -> (r: Option<String>)
        ensures
            match r {
                Some(text) => self.0 < 1_000 && text@ == number(self.0 as int) + "ns"@,
                None => self.0 >= 1_000,
            },
    {
        if self.0 >= 1_000 {
            return None;
        }
        let mut text = number_text(self.0 as i128);
        text.append("ns");
        Some(text)
    }
}

/// A thousand to the power `n`.
pub open spec fn thousands(n: nat) -> nat
    decreases n,
{
    if n == 0 {
        1
    } else {
        1000 * thousands((n - 1) as nat)
    }
}

/// A rate per second by its whole part, rendered in the largest unit that keeps it above one, such
/// as `1.90 GB/s`.
#[derive(Clone, Copy, Debug, PartialEq, Eq, Hash, Structural)]
pub struct Rate(pub u64);

impl Rate {
    /// Which of `units` units to render this rate in, and how many times the first unit it is.
    /// Each unit is a thousand times the one before.
    pub fn unit(&self, units: usize) -> (r: (u64, usize))
        requires
            1 <= units,
        ensures
            r.1 < units,
            r.0 == thousands(r.1 as nat),
            r.1 > 0 ==> self.0 >= r.0,
            r.1 + 1 < units ==> self.0 < 1000 * r.0,
    {
        let mut scale: u64 = 1;
        let mut unit: usize = 0;
        while unit + 1 < units && self.0 / 1000 >= scale
            invariant
                unit < units,
                scale == thousands(unit as nat),
                unit > 0 ==> self.0 >= scale,
            decreases units - unit,
        {
            scale = scale * 1000;
            unit += 1;
        }
        (scale, unit)
    }
}

} // verus!
