//! The ways in which a link can fail.

use vstd::prelude::*;
use vstd::string::*;
use crate::decimal::{decimal, render_decimal};

verus! {

/// A section that placement cannot do without.
#[derive(Debug, Clone, Copy, PartialEq, Eq, Structural)]
pub enum Section {
    /// `.stack`: the RAM region, needed under both policies.
    Stack,
    /// `.text`: needed where code is kept on pages of its own.
    Text,
}

/// One of the three tool runs of a link.
#[derive(Debug, Clone, Copy, PartialEq, Eq, Structural)]
pub enum Stage {
    /// The linker, run as the caller asked.
    FirstLink,
    /// The size tool, run on what the first link produced.
    SizeReport,
    /// The linker again, with the stack symbols defined.
    SecondLink,
}

/// Why a link was given up. Every one of these ends the run: nothing is
/// retried and nothing partial is kept.
#[derive(Debug, Clone, Copy, PartialEq, Eq, Structural)]
pub enum LinkError {
    /// The arguments hold no `-o` followed by a path.
    MissingOutputArgument,
    /// The tool of this stage could not be started.
    SubprocessSpawnFailure(Stage),
    /// The tool of this stage ran and reported failure.
    SubprocessNonZeroExit(Stage),
    /// The report has no line for this section.
    MissingMandatorySection(Section),
    /// Line `line` of the report (counted from 1) names a section and lacks
    /// a readable number where one belongs.
    MalformedSectionSize { line: usize },
    /// The sections to keep clear of the stack are larger than the RAM region.
    LayoutOverflow,
}

/// The name of a stage in a diagnostic.
pub open spec fn stage_name(stage: Stage) -> Seq<char> {
    match stage {
        Stage::FirstLink => "first link"@,
        Stage::SizeReport => "size report"@,
        Stage::SecondLink => "second link"@,
    }
}

/// The name of a section as reports write it.
pub open spec fn section_name(section: Section) -> Seq<char> {
    match section {
        Section::Stack => ".stack"@,
        Section::Text => ".text"@,
    }
}

/// The diagnostic for `e`: the step that failed, a colon, and what went
/// wrong, with the section or the line where there is one.
pub open spec fn diagnostic(e: LinkError) -> Seq<char> {
    match e {
        LinkError::MissingOutputArgument => "arguments: no `-o` followed by a path"@,
        LinkError::SubprocessSpawnFailure(stage) => stage_name(stage)
            + ": the tool could not be started"@,
        LinkError::SubprocessNonZeroExit(stage) => stage_name(stage)
            + ": the tool reported failure"@,
        LinkError::MissingMandatorySection(section) => "section report: no line for "@
            + section_name(section),
        LinkError::MalformedSectionSize { line } => "section report: a number is missing or cannot be read in line "@
            + decimal(line as nat),
        LinkError::LayoutOverflow => "placement: the sections are larger than the RAM region"@,
    }
}

impl Stage {
    /// The name of the stage in a diagnostic.
    pub fn name(&self) -> (r: &'static str)
        ensures
            r@ == stage_name(*self),
    {
        match self {
            Stage::FirstLink => "first link",
            Stage::SizeReport => "size report",
            Stage::SecondLink => "second link",
        }
    }
}

impl Section {
    /// The name of the section as reports write it.
    pub fn name(&self) -> (r: &'static str)
        ensures
            r@ == section_name(*self),
    {
        match self {
            Section::Stack => ".stack",
            Section::Text => ".text",
        }
    }
}

impl LinkError {
    /// The diagnostic to print for this error.
    pub fn diagnostic(&self) -> (r: String)
        ensures
            r@ == diagnostic(*self),
    {
        match self {
            LinkError::MissingOutputArgument => String::from_str(
                "arguments: no `-o` followed by a path",
            ),
            LinkError::SubprocessSpawnFailure(stage) => {
                let mut r: String = String::from_str(stage.name());
                r.append(": the tool could not be started");
                r
            },
            LinkError::SubprocessNonZeroExit(stage) => {
                let mut r: String = String::from_str(stage.name());
                r.append(": the tool reported failure");
                r
            },
            LinkError::MissingMandatorySection(section) => {
                let mut r: String = String::from_str("section report: no line for ");
                r.append(section.name());
                r
            },
            LinkError::MalformedSectionSize { line } => {
                let mut r: String = String::from_str(
                    "section report: a number is missing or cannot be read in line ",
                );
                let number: String = render_decimal(*line as u64);
                r.append(number.as_str());
                r
            },
            LinkError::LayoutOverflow => String::from_str(
                "placement: the sections are larger than the RAM region",
            ),
        }
    }
}

} // verus!
