//! Where the stack begins.
//!
//! The sections that must stay clear of the stack are stacked at the top of
//! the RAM region, and the stack is put right below them, growing downward.

use vstd::prelude::*;
use crate::align::{
    is_multiple, lemma_round_down_is_greatest, lemma_round_up_is_least, round_down, round_up,
    rounddown, roundup,
};
use crate::error::{LinkError, Section};
use crate::report::{SectionFacts, SectionReport};

verus! {

/// How an overflow of the stack is to be caught.
#[derive(Debug, Clone, Copy, PartialEq, Eq, Structural)]
pub enum Policy {
    /// The stack shares its upper boundary with the data sections. Nothing
    /// traps an overflow, but it always runs into the same place.
    Adjacency,
    /// Code and data are padded to their alignments and the stack ends on a
    /// page boundary, so an overflow leaves the pages the stack may write.
    PageIsolated,
}

/// The two granularities of a target, both at least 1.
#[derive(Debug, Clone, Copy, PartialEq, Eq)]
pub struct AlignmentPolicy {
    align: u32,
    page_align: u32,
}

/// The mathematical content of an `AlignmentPolicy`.
pub struct Alignment {
    /// Granularity of `.bss`, `.data`, `.heap` and the other sections.
    pub align: nat,
    /// Granularity of `.text` and of the address at which the stack begins.
    pub page_align: nat,
}

impl Alignment {
    /// Both granularities are usable as divisors.
    pub open spec fn wf(self) -> bool {
        self.align >= 1 && self.page_align >= 1
    }
}

impl View for AlignmentPolicy {
    type V = Alignment;

    closed spec fn view(&self) -> Alignment {
        Alignment { align: self.align as nat, page_align: self.page_align as nat }
    }
}

impl AlignmentPolicy {
    #[verifier::type_invariant]
    spec fn positive(self) -> bool {
        self.align >= 1 && self.page_align >= 1
    }

    /// A policy with the two granularities, unless one of them is zero.
    pub fn new(align: u32, page_align: u32) -> (r: Option<AlignmentPolicy>)
        ensures
            r is Some <==> align >= 1 && page_align >= 1,
            r matches Some(p) ==> p@ == (Alignment {
                align: align as nat,
                page_align: page_align as nat,
            }),
    {
        if align >= 1 && page_align >= 1 {
            Some(AlignmentPolicy { align, page_align })
        } else {
            None
        }
    }

    /// Granularity of the data sections.
    pub fn align(&self) -> (r: u32)
        ensures
            r == self@.align,
            self@.wf(),
    {
        proof {
            use_type_invariant(self);
        }
        self.align
    }

    /// Granularity of code and of the stack's first address.
    pub fn page_align(&self) -> (r: u32)
        ensures
            r == self@.page_align,
            self@.wf(),
    {
        proof {
            use_type_invariant(self);
        }
        self.page_align
    }
}

/// The symbols to define in the second link, with their value.
#[derive(Debug, Clone, Copy, PartialEq, Eq, Structural)]
pub enum PlacementResult {
    /// `_stack_start` alone.
    StackStart(u64),
    /// `_sbss` and `_stack_start`, both at this one address.
    SharedStart(u64),
}

impl PlacementResult {
    /// The value of `_stack_start`.
    pub open spec fn spec_stack_start(self) -> u64 {
        match self {
            PlacementResult::StackStart(v) => v,
            PlacementResult::SharedStart(v) => v,
        }
    }

    /// The value of `_sbss`, where the policy defines that symbol.
    pub open spec fn spec_sbss(self) -> Option<u64> {
        match self {
            PlacementResult::StackStart(_) => None,
            PlacementResult::SharedStart(v) => Some(v),
        }
    }

    /// The value of `_stack_start`.
    #[verifier::when_used_as_spec(spec_stack_start)]
    pub fn stack_start(self) -> (r: u64)
        ensures
            r == self.spec_stack_start(),
    {
        match self {
            PlacementResult::StackStart(v) => v,
            PlacementResult::SharedStart(v) => v,
        }
    }

    /// The value of `_sbss`, where the policy defines that symbol.
    #[verifier::when_used_as_spec(spec_sbss)]
    pub fn sbss(self) -> (r: Option<u64>)
        ensures
            r == self.spec_sbss(),
    {
        match self {
            PlacementResult::StackStart(_) => None,
            PlacementResult::SharedStart(v) => Some(v),
        }
    }
}

/// The sum of `sizes`, each padded to `align`.
pub open spec fn padded_total(sizes: Seq<u32>, align: nat) -> nat
    decreases sizes.len(),
{
    if sizes.len() == 0 {
        0
    } else {
        padded_total(sizes.drop_last(), align) + round_up(sizes.last() as nat, align)
    }
}

/// The bytes at the top of the RAM region that the stack must stay below.
///
/// Under adjacency these are `.bss`, `.data` and `.heap` as they are. Under
/// page isolation `.text` is padded to whole pages and every other section to
/// the small alignment.
pub open spec fn reserved(facts: SectionFacts, a: Alignment, variant: Policy) -> nat {
    match variant {
        Policy::Adjacency => (facts.bss + facts.data + facts.heap) as nat,
        Policy::PageIsolated => {
            let text: nat = match facts.text {
                Some(t) => t as nat,
                None => 0,
            };
            round_up(text, a.page_align) + round_up(facts.bss as nat, a.align) + round_up(
                facts.data as nat,
                a.align,
            ) + round_up(facts.heap as nat, a.align) + padded_total(facts.others, a.align)
        },
    }
}

/// What placement yields on these facts.
///
/// Page isolation needs `.text`. Under either policy the reserved bytes must
/// fit in the RAM region. The stack begins right below them; under page
/// isolation that address is cut back to a page boundary.
pub open spec fn placement(facts: SectionFacts, a: Alignment, variant: Policy) -> Result<
    PlacementResult,
    LinkError,
> {
    if variant == Policy::PageIsolated && facts.text is None {
        Err(LinkError::MissingMandatorySection(Section::Text))
    } else if reserved(facts, a, variant) > facts.stack_size {
        Err(LinkError::LayoutOverflow)
    } else {
        let raw_top = (facts.ram_top() - reserved(facts, a, variant)) as nat;
        match variant {
            Policy::Adjacency => Ok(PlacementResult::SharedStart(raw_top as u64)),
            Policy::PageIsolated => Ok(
                PlacementResult::StackStart(round_down(raw_top, a.page_align) as u64),
            ),
        }
    }
}

/// A padded sum grows with every section added: the sum of the first `k`
/// sizes never exceeds the sum of all.
pub proof fn lemma_padded_total_grows(sizes: Seq<u32>, align: nat, k: int)
    requires
        align >= 1,
        0 <= k <= sizes.len(),
    ensures
        padded_total(sizes.take(k), align) <= padded_total(sizes, align),
    decreases sizes.len() - k,
{
    if k == sizes.len() {
        assert(sizes.take(k) =~= sizes);
    } else {
        lemma_padded_total_grows(sizes, align, k + 1);
        assert(sizes.take(k + 1).drop_last() =~= sizes.take(k));
    }
}

/// Sections that are larger than the RAM region are refused: no address is
/// made up for them.
pub proof fn lemma_overflow_is_refused(facts: SectionFacts, a: Alignment, variant: Policy)
    requires
        a.wf(),
        reserved(facts, a, variant) > facts.stack_size,
        variant == Policy::PageIsolated ==> facts.text is Some,
    ensures
        placement(facts, a, variant) == Err::<PlacementResult, LinkError>(
            LinkError::LayoutOverflow,
        ),
{
}

/// An address that placement yields lies in the RAM region, right below the
/// reserved bytes, and fits in 64 bits. Under page isolation it is the page
/// boundary at or below that place, and still lies in the region where the
/// region begins on a page boundary.
pub proof fn lemma_placement_is_in_region(facts: SectionFacts, a: Alignment, variant: Policy)
    requires
        a.wf(),
        placement(facts, a, variant) is Ok,
    ensures
        ({
            let start = placement(facts, a, variant)->Ok_0.spec_stack_start();
            let kept = reserved(facts, a, variant);
            match variant {
                Policy::Adjacency => {
                    &&& start + kept == facts.ram_top()
                    &&& facts.stack_base <= start <= facts.ram_top()
                    &&& placement(facts, a, variant)->Ok_0.spec_sbss() == Some(start)
                },
                Policy::PageIsolated => {
                    &&& is_multiple(start as int, a.page_align as int)
                    &&& start + kept <= facts.ram_top() < start + kept + a.page_align
                    &&& is_multiple(facts.stack_base as int, a.page_align as int)
                        ==> facts.stack_base <= start
                    &&& placement(facts, a, variant)->Ok_0.spec_sbss() is None
                },
            }
        }),
{
    let kept = reserved(facts, a, variant);
    let raw_top = (facts.ram_top() - kept) as nat;
    if variant == Policy::PageIsolated {
        lemma_round_down_is_greatest(raw_top, a.page_align);
    }
}

/// Placement depends on the facts, the alignments and the policy, and on
/// nothing else: two runs on equal inputs yield equal results.
pub proof fn lemma_calculate_is_repeatable(
    first: SectionReport,
    second: SectionReport,
    a: AlignmentPolicy,
    b: AlignmentPolicy,
    variant: Policy,
    first_result: Result<PlacementResult, LinkError>,
    second_result: Result<PlacementResult, LinkError>,
)
    requires
        first@ == second@,
        a@ == b@,
        first_result == placement(first@, a@, variant),
        second_result == placement(second@, b@, variant),
    ensures
        first_result == second_result,
{
}

/// Computes where the stack begins.
pub fn calculate(report: &SectionReport, alignment: &AlignmentPolicy, variant: Policy) -> (r:
    Result<PlacementResult, LinkError>)
    ensures
        r == placement(report@, alignment@, variant),
{
    let room: u64 = report.stack_size as u64;
    let top: u64 = report.stack_base as u64 + room;
    match variant {
        Policy::Adjacency => {
            let kept: u64 = report.bss as u64 + report.data as u64 + report.heap as u64;
            if kept > room {
                Err(LinkError::LayoutOverflow)
            } else {
                Ok(PlacementResult::SharedStart(top - kept))
            }
        },
        Policy::PageIsolated => {
            let text: u32 = match report.text {
                Some(t) => t,
                None => {
                    return Err(LinkError::MissingMandatorySection(Section::Text));
                },
            };
            let small: u32 = alignment.align();
            let page: u32 = alignment.page_align();
            proof {
                lemma_round_up_is_least(text as nat, page as nat);
                lemma_round_up_is_least(report.bss as nat, small as nat);
                lemma_round_up_is_least(report.data as nat, small as nat);
                lemma_round_up_is_least(report.heap as nat, small as nat);
            }
            let named: u64 = roundup(text, page) + roundup(report.bss, small) + roundup(
                report.data,
                small,
            ) + roundup(report.heap, small);
            let mut rest: u64 = 0;
            let mut i: usize = 0;
            while i < report.others.len()
                invariant
                    0 <= i <= report.others.len(),
                    small >= 1,
                    small == alignment@.align,
                    room == report.stack_size,
                    variant == Policy::PageIsolated,
                    report.text is Some,
                    rest == padded_total(report.others@.take(i as int), small as nat),
                    rest <= room,
                decreases report.others.len() - i,
            {
                let size: u32 = report.others[i];
                proof {
                    lemma_round_up_is_least(size as nat, small as nat);
                    assert(report.others@.take(i + 1).drop_last() =~= report.others@.take(
                        i as int,
                    ));
                    lemma_padded_total_grows(report.others@, small as nat, i + 1);
                }
                rest = rest + roundup(size, small);
                if rest > room {
                    return Err(LinkError::LayoutOverflow);
                }
                i = i + 1;
            }
            proof {
                assert(report.others@.take(i as int) =~= report.others@);
            }
            let kept: u64 = named + rest;
            if kept > room {
                Err(LinkError::LayoutOverflow)
            } else {
                Ok(PlacementResult::StackStart(rounddown(top - kept, page)))
            }
        },
    }
}

} // verus!
