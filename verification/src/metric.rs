//! The metric kinds an agent reports, and the tokens that name them on the wire.

use vstd::prelude::*;

verus! {

/// A kind of hardware reading the agent collects.
#[derive(Debug, Clone, Copy, PartialEq, Eq, Structural)]
pub enum HardwareMetric {
    Cpu,
    Memory,
}

impl HardwareMetric {
    /// The uppercase token that names this kind in a record.
    pub open spec fn token(self) -> Seq<char> {
        match self {
            HardwareMetric::Cpu => "CPU"@,
            HardwareMetric::Memory => "MEM"@,
        }
    }

    /// The kinds in their fixed enumeration order.
    pub open spec fn enumeration() -> Seq<HardwareMetric> {
        seq![HardwareMetric::Cpu, HardwareMetric::Memory]
    }

    /// Returns the wire token of this kind.
    pub fn as_str(&self) -> (token: &'static str)
        ensures
            token@ == self.token(),
    {
        match self {
            HardwareMetric::Cpu => "CPU",
            HardwareMetric::Memory => "MEM",
        }
    }

    /// Returns every kind, in the order in which a sample lists them.
    pub fn all() -> (kinds: &'static [HardwareMetric])
        ensures
            kinds@ == Self::enumeration(),
    {
        &[HardwareMetric::Cpu, HardwareMetric::Memory]
    }
}

} // verus!
