//! What the presenter needs to know of a metric before it renders it: the
//! class its name falls in, and the unit a memory reading is shown in.

use vstd::prelude::*;
use crate::text::{same_text, to_uppercase, uppercase};

verus! {

/// The classes of metrics that are rendered differently.
#[derive(Debug, Clone, Copy, PartialEq, Eq, Structural)]
pub enum MetricClass {
    /// Processor utilisation, a percentage.
    Cpu,
    /// Memory in use, in kilobytes.
    Memory,
    /// Disk utilisation, a percentage.
    Disk,
    /// Network throughput.
    Network,
    /// A temperature.
    Temperature,
    /// A name the presenter does not know.
    Other,
}

/// The class that an uppercase metric name falls in.
pub open spec fn class_of(token: Seq<char>) -> MetricClass {
    if token == "CPU"@ {
        MetricClass::Cpu
    } else if token == "MEM"@ || token == "MEMORY"@ {
        MetricClass::Memory
    } else if token == "DISK"@ || token == "STORAGE"@ {
        MetricClass::Disk
    } else if token == "NETWORK"@ || token == "NET"@ {
        MetricClass::Network
    } else if token == "TEMPERATURE"@ || token == "TEMP"@ {
        MetricClass::Temperature
    } else {
        MetricClass::Other
    }
}

impl MetricClass {
    /// Classifies a metric name that is already in uppercase.
    pub fn from_token(token: &str) -> (class: MetricClass)
        ensures
            class == class_of(token@),
    {
        if same_text(token, "CPU") {
            MetricClass::Cpu
        } else if same_text(token, "MEM") || same_text(token, "MEMORY") {
            MetricClass::Memory
        } else if same_text(token, "DISK") || same_text(token, "STORAGE") {
            MetricClass::Disk
        } else if same_text(token, "NETWORK") || same_text(token, "NET") {
            MetricClass::Network
        } else if same_text(token, "TEMPERATURE") || same_text(token, "TEMP") {
            MetricClass::Temperature
        } else {
            MetricClass::Other
        }
    }

    /// Classifies a metric name, whatever the case of its letters.
    pub fn of_name(name: &str) -> (class: MetricClass)
        ensures
            class == class_of(uppercase(name@)),
    {
        let token = to_uppercase(name);
        MetricClass::from_token(token.as_str())
    }
}

/// The kilobytes that make a megabyte.
pub const KILOBYTES_PER_MEGABYTE: u64 = 1_024;

/// The kilobytes that make a gigabyte.
pub const KILOBYTES_PER_GIGABYTE: u64 = 1_048_576;

/// The unit in which a memory reading is shown.
#[derive(Debug, Clone, Copy, PartialEq, Eq, Structural)]
pub enum MemoryUnit {
    Kilobytes,
    Megabytes,
    Gigabytes,
}

/// The unit for a reading of `kilobytes` whole kilobytes: gigabytes from one
/// gigabyte on, megabytes from one megabyte on, kilobytes below that.
pub open spec fn unit_of(kilobytes: u64) -> MemoryUnit {
    if kilobytes >= KILOBYTES_PER_GIGABYTE {
        MemoryUnit::Gigabytes
    } else if kilobytes >= KILOBYTES_PER_MEGABYTE {
        MemoryUnit::Megabytes
    } else {
        MemoryUnit::Kilobytes
    }
}

impl MemoryUnit {
    /// The kilobytes that make one of this unit.
    pub open spec fn kilobytes(self) -> u64 {
        match self {
            MemoryUnit::Kilobytes => 1,
            MemoryUnit::Megabytes => KILOBYTES_PER_MEGABYTE,
            MemoryUnit::Gigabytes => KILOBYTES_PER_GIGABYTE,
        }
    }

    /// The abbreviation written after a value in this unit.
    pub open spec fn abbreviation(self) -> Seq<char> {
        match self {
            MemoryUnit::Kilobytes => "KB"@,
            MemoryUnit::Megabytes => "MB"@,
            MemoryUnit::Gigabytes => "GB"@,
        }
    }

    /// Chooses the unit for a reading, given its whole kilobytes.
    pub fn for_kilobytes(kilobytes: u64) -> (unit: MemoryUnit)
        ensures
            unit == unit_of(kilobytes),
    {
        if kilobytes >= KILOBYTES_PER_GIGABYTE {
            MemoryUnit::Gigabytes
        } else if kilobytes >= KILOBYTES_PER_MEGABYTE {
            MemoryUnit::Megabytes
        } else {
            MemoryUnit::Kilobytes
        }
    }

    /// The number a reading in kilobytes is divided by to be shown in this
    /// unit.
    pub fn divisor(&self) -> (kilobytes: u64)
        ensures
            kilobytes == self.kilobytes(),
    {
        match self {
            MemoryUnit::Kilobytes => 1,
            MemoryUnit::Megabytes => KILOBYTES_PER_MEGABYTE,
            MemoryUnit::Gigabytes => KILOBYTES_PER_GIGABYTE,
        }
    }

    /// The abbreviation of this unit.
    pub fn suffix(&self) -> (text: &'static str)
        ensures
            text@ == self.abbreviation(),
    {
        match self {
            MemoryUnit::Kilobytes => "KB",
            MemoryUnit::Megabytes => "MB",
            MemoryUnit::Gigabytes => "GB",
        }
    }
}

/// A reading is shown in the largest unit of which it holds at least one: it
/// is never below one of its unit, and never reaches one of the next.
pub proof fn lemma_unit_fits(kilobytes: u64)
    ensures
        unit_of(kilobytes) != MemoryUnit::Kilobytes ==> kilobytes >= unit_of(kilobytes).kilobytes(),
        unit_of(kilobytes) == MemoryUnit::Kilobytes ==> kilobytes < KILOBYTES_PER_MEGABYTE,
        unit_of(kilobytes) == MemoryUnit::Megabytes ==> kilobytes < KILOBYTES_PER_GIGABYTE,
{
}

} // verus!
