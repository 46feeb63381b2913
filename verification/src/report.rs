//! What a link artifact says about its sections.

use vstd::prelude::*;

verus! {

/// The sizes, in bytes, that placement works from, and the RAM region.
///
/// A section that the artifact lacks has size zero. Only `.text` can be
/// told apart as absent, since one policy cannot do without it. The RAM
/// region is always there: a report without it cannot be built.
#[derive(Debug, PartialEq, Eq)]
pub struct SectionReport {
    /// Size of `.text`, where the artifact has one.
    pub text: Option<u32>,
    /// Size of `.bss`.
    pub bss: u32,
    /// Size of `.data`.
    pub data: u32,
    /// Size of `.heap`.
    pub heap: u32,
    /// Size of the RAM region, which `.stack` spans.
    pub stack_size: u32,
    /// Address at which the RAM region begins.
    pub stack_base: u32,
    /// Sizes of the other sections, in the order of the report.
    pub others: Vec<u32>,
}

/// The mathematical content of a `SectionReport`.
pub struct SectionFacts {
    pub text: Option<u32>,
    pub bss: u32,
    pub data: u32,
    pub heap: u32,
    pub stack_size: u32,
    pub stack_base: u32,
    pub others: Seq<u32>,
}

impl View for SectionReport {
    type V = SectionFacts;

    open spec fn view(&self) -> SectionFacts {
        SectionFacts {
            text: self.text,
            bss: self.bss,
            data: self.data,
            heap: self.heap,
            stack_size: self.stack_size,
            stack_base: self.stack_base,
            others: self.others@,
        }
    }
}

impl SectionFacts {
    /// The address just past the RAM region.
    pub open spec fn ram_top(self) -> nat {
        (self.stack_base + self.stack_size) as nat
    }
}

} // verus!
