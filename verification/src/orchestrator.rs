//! The order of a link: which tool runs next, and with which arguments.
//!
//! A link is three runs: the linker as the caller asked, the size tool on
//! what it produced, and the linker again with the stack symbols defined.
//! Nothing here starts a tool. The caller does, and reports how each run
//! ended; `LinkJob::advance` answers with the next thing to do.

use vstd::prelude::*;
use vstd::string::*;
use crate::defsym::directives;
use crate::error::{LinkError, Stage};
use crate::extract::{extract, extraction};
use crate::placement::{calculate, placement, Alignment, AlignmentPolicy, PlacementResult, Policy};

verus! {

/// The tools of a link.
#[derive(Debug, PartialEq, Eq)]
pub struct Toolchain {
    /// The linker to run.
    pub linker: String,
    /// Arguments that the linker gets before all others, in both links.
    pub linker_flags: Vec<String>,
    /// The tool that prints the section report of an artifact.
    pub size_tool: String,
}

/// The mathematical content of a `Toolchain`.
pub struct Tools {
    pub linker: Seq<char>,
    pub linker_flags: Seq<Seq<char>>,
    pub size_tool: Seq<char>,
}

impl View for Toolchain {
    type V = Tools;

    open spec fn view(&self) -> Tools {
        Tools {
            linker: self.linker@,
            linker_flags: self.linker_flags.deep_view(),
            size_tool: self.size_tool@,
        }
    }
}

/// The tools used where the caller names none: `rust-lld` as the linker,
/// unless `linker` names another, and the size tool of the RISC-V toolchain.
/// Under page isolation the linker is told to act as `ld.lld` and to keep
/// code on pages of its own.
pub open spec fn default_tools(variant: Policy, linker: Option<Seq<char>>) -> Tools {
    Tools {
        linker: match linker {
            Some(name) => name,
            None => "rust-lld"@,
        },
        linker_flags: match variant {
            Policy::Adjacency => Seq::empty(),
            Policy::PageIsolated => seq![
                "-flavor"@,
                "ld.lld"@,
                "-zseparate-code"@,
                "-zseparate-loadable-segments"@,
            ],
        },
        size_tool: "riscv64-unknown-elf-size"@,
    }
}

impl Toolchain {
    /// The tools used where the caller names none but, perhaps, the linker.
    pub fn for_policy(variant: Policy, linker: Option<String>) -> (r: Toolchain)
        ensures
            r@ == default_tools(
                variant,
                match linker {
                    Some(name) => Some(name@),
                    None => None,
                },
            ),
    {
        let chosen: String = match linker {
            Some(name) => name,
            None => String::from_str("rust-lld"),
        };
        let mut flags: Vec<String> = Vec::new();
        match variant {
            Policy::Adjacency => {},
            Policy::PageIsolated => {
                flags.push(String::from_str("-flavor"));
                flags.push(String::from_str("ld.lld"));
                flags.push(String::from_str("-zseparate-code"));
                flags.push(String::from_str("-zseparate-loadable-segments"));
            },
        }
        let r = Toolchain {
            linker: chosen,
            linker_flags: flags,
            size_tool: String::from_str("riscv64-unknown-elf-size"),
        };
        assert(r@.linker_flags =~= default_tools(variant, None).linker_flags);
        r
    }
}

/// One run of a tool.
#[derive(Debug, PartialEq, Eq)]
pub struct Command {
    /// The program to start.
    pub program: String,
    /// Its arguments, in order.
    pub args: Vec<String>,
    /// Whether what the program prints is wanted back.
    pub capture: bool,
}

/// The mathematical content of a `Command`.
pub struct CommandLine {
    pub program: Seq<char>,
    pub args: Seq<Seq<char>>,
    pub capture: bool,
}

impl View for Command {
    type V = CommandLine;

    open spec fn view(&self) -> CommandLine {
        CommandLine {
            program: self.program@,
            args: self.args.deep_view(),
            capture: self.capture,
        }
    }
}

/// How a run of a tool ended.
#[derive(Debug, PartialEq, Eq)]
pub enum Completion {
    /// The program could not be started.
    SpawnFailed,
    /// The program ran and reported failure.
    Failed,
    /// The program ran and reported success. What it printed is here where
    /// the command asked for it, and is empty where it did not.
    Succeeded(Vec<u8>),
}

/// The mathematical content of a `Completion`.
pub enum Ending {
    SpawnFailed,
    Failed,
    Succeeded(Seq<u8>),
}

impl View for Completion {
    type V = Ending;

    open spec fn view(&self) -> Ending {
        match self {
            Completion::SpawnFailed => Ending::SpawnFailed,
            Completion::Failed => Ending::Failed,
            Completion::Succeeded(printed) => Ending::Succeeded(printed@),
        }
    }
}

/// How far a link has come.
#[derive(Debug, Clone, Copy, PartialEq, Eq, Structural)]
pub enum Phase {
    /// The tool of this stage is running.
    Running(Stage),
    /// Both links succeeded: the artifact is final.
    Finished,
    /// The link was given up.
    Failed(LinkError),
}

/// What the caller is to do next.
#[derive(Debug, PartialEq, Eq)]
pub enum Action {
    /// Run this command, wait for it, and report how it ended.
    Run(Command),
    /// Leave with success.
    Complete,
    /// Leave with this error.
    Abort(LinkError),
}

/// The mathematical content of an `Action`.
pub enum Plan {
    Run(CommandLine),
    Complete,
    Abort(LinkError),
}

impl View for Action {
    type V = Plan;

    open spec fn view(&self) -> Plan {
        match self {
            Action::Run(command) => Plan::Run(command@),
            Action::Complete => Plan::Complete,
            Action::Abort(e) => Plan::Abort(*e),
        }
    }
}

/// A link to carry out.
#[derive(Debug, PartialEq, Eq)]
pub struct LinkJob {
    /// The tools to run.
    pub toolchain: Toolchain,
    /// The granularities of the target.
    pub alignment: AlignmentPolicy,
    /// How an overflow of the stack is to be caught.
    pub variant: Policy,
    /// The arguments that the caller gave for the linker.
    pub args: Vec<String>,
}

/// The mathematical content of a `LinkJob`.
pub struct Job {
    pub tools: Tools,
    pub alignment: Alignment,
    pub variant: Policy,
    pub args: Seq<Seq<char>>,
}

impl View for LinkJob {
    type V = Job;

    open spec fn view(&self) -> Job {
        Job {
            tools: self.toolchain@,
            alignment: self.alignment@,
            variant: self.variant,
            args: self.args.deep_view(),
        }
    }
}

/// The number of arguments that stand before the first `-o`.
pub open spec fn before_output_flag(args: Seq<Seq<char>>) -> nat
    decreases args.len(),
{
    if args.len() > 0 && args[0] != "-o"@ {
        1 + before_output_flag(args.drop_first())
    } else {
        0
    }
}

/// Where the path of the artifact stands in `args`: right after the first
/// `-o`. There is none where no argument is `-o`, or the first `-o` is the
/// last argument.
pub open spec fn output_index(args: Seq<Seq<char>>) -> Option<int> {
    let at = before_output_flag(args) as int + 1;
    if at < args.len() {
        Some(at)
    } else {
        None
    }
}

/// `k` arguments other than `-o`, followed by the end or by `-o`, are the
/// arguments before the first `-o`.
pub proof fn lemma_before_output_flag(args: Seq<Seq<char>>, k: int)
    requires
        0 <= k <= args.len(),
        forall|j: int| 0 <= j < k ==> #[trigger] args[j] != "-o"@,
        k < args.len() ==> args[k] == "-o"@,
    ensures
        before_output_flag(args) == k,
    decreases k,
{
    if k > 0 {
        let rest = args.drop_first();
        assert forall|j: int| 0 <= j < k - 1 implies #[trigger] rest[j] != "-o"@ by {
            assert(rest[j] == args[j + 1]);
        }
        assert(k - 1 < rest.len() ==> rest[k - 1] == args[k]);
        lemma_before_output_flag(rest, k - 1);
    }
}

/// The arguments before the first `-o` are not `-o`, and what follows them,
/// if anything does, is.
pub proof fn lemma_output_flag_is_first(args: Seq<Seq<char>>)
    ensures
        before_output_flag(args) <= args.len(),
        forall|j: int| 0 <= j < before_output_flag(args) ==> #[trigger] args[j] != "-o"@,
        before_output_flag(args) < args.len() ==> args[before_output_flag(args) as int] == "-o"@,
    decreases args.len(),
{
    if args.len() > 0 && args[0] != "-o"@ {
        let rest = args.drop_first();
        lemma_output_flag_is_first(rest);
        assert forall|j: int| 0 <= j < before_output_flag(args) implies #[trigger] args[j]
            != "-o"@ by {
            if j > 0 {
                assert(args[j] == rest[j - 1]);
            }
        }
        if before_output_flag(args) < args.len() {
            assert(args[before_output_flag(args) as int] == rest[before_output_flag(rest) as int]);
        }
    }
}

/// The path of the artifact is the argument after the first `-o`. It is
/// missing exactly where no argument but the last is `-o`.
pub proof fn lemma_output_follows_first_flag(args: Seq<Seq<char>>)
    ensures
        match output_index(args) {
            Some(at) => {
                &&& 1 <= at < args.len()
                &&& args[at - 1] == "-o"@
                &&& forall|j: int| 0 <= j < at - 1 ==> #[trigger] args[j] != "-o"@
            },
            None => forall|j: int| 0 <= j < args.len() - 1 ==> #[trigger] args[j] != "-o"@,
        },
{
    lemma_output_flag_is_first(args);
}

/// Arguments without a path for the artifact start no tool: the link is
/// given up before its first step, and stays given up whatever is reported.
pub proof fn lemma_missing_output_runs_nothing(job: Job, done: Ending)
    requires
        output_index(job.args) is None,
    ensures
        first_step(job) == abort(LinkError::MissingOutputArgument),
        next_step(job, first_step(job).0, done) == abort(LinkError::MissingOutputArgument),
{
}

/// The first link: the linker with its flags and the caller's arguments.
pub open spec fn first_link(job: Job) -> CommandLine {
    CommandLine {
        program: job.tools.linker,
        args: job.tools.linker_flags + job.args,
        capture: false,
    }
}

/// The size report: the size tool on the artifact at `path`, one line per
/// section, with what it prints handed back.
pub open spec fn size_report(job: Job, path: Seq<char>) -> CommandLine {
    CommandLine { program: job.tools.size_tool, args: seq!["-A"@, path], capture: true }
}

/// The second link: as the first, with the stack symbols defined before the
/// caller's arguments.
pub open spec fn second_link(job: Job, placed: PlacementResult) -> CommandLine {
    CommandLine {
        program: job.tools.linker,
        args: job.tools.linker_flags + directives(placed) + job.args,
        capture: false,
    }
}

/// Giving up with `e`.
pub open spec fn abort(e: LinkError) -> (Phase, Plan) {
    (Phase::Failed(e), Plan::Abort(e))
}

/// Where the stack goes, from what the size tool printed.
pub open spec fn placed_from(job: Job, printed: Seq<u8>) -> Result<PlacementResult, LinkError> {
    match extraction(printed, job.variant) {
        Err(e) => Err(e),
        Ok(facts) => placement(facts, job.alignment, job.variant),
    }
}

/// How a link begins. Without a path for the artifact it does not: no tool
/// is run.
pub open spec fn first_step(job: Job) -> (Phase, Plan) {
    if output_index(job.args) is None {
        abort(LinkError::MissingOutputArgument)
    } else {
        (Phase::Running(Stage::FirstLink), Plan::Run(first_link(job)))
    }
}

/// How a link goes on after the run of `phase` ended with `done`.
///
/// A tool that did not start or that failed ends the link. So does a report
/// that cannot be read or that leaves no room for the stack. A link that is
/// over stays as it is.
pub open spec fn next_step(job: Job, phase: Phase, done: Ending) -> (Phase, Plan) {
    match phase {
        Phase::Finished => (Phase::Finished, Plan::Complete),
        Phase::Failed(e) => abort(e),
        Phase::Running(stage) => match done {
            Ending::SpawnFailed => abort(LinkError::SubprocessSpawnFailure(stage)),
            Ending::Failed => abort(LinkError::SubprocessNonZeroExit(stage)),
            Ending::Succeeded(printed) => match stage {
                Stage::FirstLink => match output_index(job.args) {
                    None => abort(LinkError::MissingOutputArgument),
                    Some(at) => (
                        Phase::Running(Stage::SizeReport),
                        Plan::Run(size_report(job, job.args[at])),
                    ),
                },
                Stage::SizeReport => match placed_from(job, printed) {
                    Err(e) => abort(e),
                    Ok(placed) => (
                        Phase::Running(Stage::SecondLink),
                        Plan::Run(second_link(job, placed)),
                    ),
                },
                Stage::SecondLink => (Phase::Finished, Plan::Complete),
            },
        },
    }
}

/// Finds the path of the artifact among the arguments.
pub fn find_output(args: &Vec<String>) -> (r: Option<usize>)
    ensures
        match r {
            Some(at) => output_index(args.deep_view()) == Some(at as int),
            None => output_index(args.deep_view()) is None,
        },
{
    let flag: String = String::from_str("-o");
    let mut i: usize = 0;
    while i < args.len() && args[i] != flag
        invariant
            0 <= i <= args.len(),
            flag@ == "-o"@,
            forall|j: int| 0 <= j < i ==> #[trigger] args.deep_view()[j] != "-o"@,
        decreases args.len() - i,
    {
        i = i + 1;
    }
    proof {
        lemma_before_output_flag(args.deep_view(), i as int);
    }
    if i < args.len() && i + 1 < args.len() {
        Some(i + 1)
    } else {
        None
    }
}

/// Adds copies of the strings of `from` to the end of `into`.
fn push_all(into: &mut Vec<String>, from: &Vec<String>)
    ensures
        final(into).deep_view() == old(into).deep_view() + from.deep_view(),
{
    let ghost before = into.deep_view();
    let mut i: usize = 0;
    while i < from.len()
        invariant
            0 <= i <= from.len(),
            into.deep_view() == before + from.deep_view().take(i as int),
        decreases from.len() - i,
    {
        let ghost so_far = into.deep_view();
        into.push(from[i].clone());
        assert(into.deep_view() =~= so_far.push(from[i as int]@));
        assert(from.deep_view().take(i + 1) =~= from.deep_view().take(i as int).push(
            from[i as int]@,
        ));
        i = i + 1;
    }
    assert(from.deep_view().take(i as int) =~= from.deep_view());
}

impl LinkJob {
    /// The command of the first link.
    fn first_link(&self) -> (r: Command)
        ensures
            r@ == first_link(self@),
    {
        let mut args: Vec<String> = Vec::new();
        push_all(&mut args, &self.toolchain.linker_flags);
        push_all(&mut args, &self.args);
        assert(args.deep_view() =~= self@.tools.linker_flags + self@.args);
        Command { program: self.toolchain.linker.clone(), args, capture: false }
    }

    /// The command of the size report on the artifact at `path`.
    fn size_report(&self, path: &String) -> (r: Command)
        ensures
            r@ == size_report(self@, path@),
    {
        let mut args: Vec<String> = Vec::new();
        args.push(String::from_str("-A"));
        args.push(path.clone());
        assert(args.deep_view() =~= seq!["-A"@, path@]);
        Command { program: self.toolchain.size_tool.clone(), args, capture: true }
    }

    /// The command of the second link.
    fn second_link(&self, placed: PlacementResult) -> (r: Command)
        ensures
            r@ == second_link(self@, placed),
    {
        let mut args: Vec<String> = Vec::new();
        push_all(&mut args, &self.toolchain.linker_flags);
        let defined: Vec<String> = placed.directives();
        push_all(&mut args, &defined);
        push_all(&mut args, &self.args);
        assert(args.deep_view() =~= self@.tools.linker_flags + directives(placed) + self@.args);
        Command { program: self.toolchain.linker.clone(), args, capture: false }
    }

    /// Where the stack goes, from what the size tool printed.
    pub fn place(&self, printed: &[u8]) -> (r: Result<PlacementResult, LinkError>)
        ensures
            r == placed_from(self@, printed@),
    {
        match extract(printed, self.variant) {
            Err(e) => Err(e),
            Ok(report) => calculate(&report, &self.alignment, self.variant),
        }
    }

    /// Begins the link: the phase it is in and what to do first.
    pub fn start(&self) -> (r: (Phase, Action))
        ensures
            (r.0, r.1@) == first_step(self@),
    {
        match find_output(&self.args) {
            None => (
                Phase::Failed(LinkError::MissingOutputArgument),
                Action::Abort(LinkError::MissingOutputArgument),
            ),
            Some(_) => (Phase::Running(Stage::FirstLink), Action::Run(self.first_link())),
        }
    }

    /// Goes on with the link after the run of `phase` ended with `done`: the
    /// phase it is in now and what to do next.
    pub fn advance(&self, phase: Phase, done: &Completion) -> (r: (Phase, Action))
        ensures
            (r.0, r.1@) == next_step(self@, phase, done@),
    {
        let stage: Stage = match phase {
            Phase::Finished => {
                return (Phase::Finished, Action::Complete);
            },
            Phase::Failed(e) => {
                return (Phase::Failed(e), Action::Abort(e));
            },
            Phase::Running(stage) => stage,
        };
        let failure: LinkError = match done {
            Completion::SpawnFailed => LinkError::SubprocessSpawnFailure(stage),
            Completion::Failed => LinkError::SubprocessNonZeroExit(stage),
            Completion::Succeeded(printed) => match stage {
                Stage::FirstLink => match find_output(&self.args) {
                    None => LinkError::MissingOutputArgument,
                    Some(at) => {
                        return (
                            Phase::Running(Stage::SizeReport),
                            Action::Run(self.size_report(&self.args[at])),
                        );
                    },
                },
                Stage::SizeReport => match self.place(printed.as_slice()) {
                    Err(e) => e,
                    Ok(placed) => {
                        return (
                            Phase::Running(Stage::SecondLink),
                            Action::Run(self.second_link(placed)),
                        );
                    },
                },
                Stage::SecondLink => {
                    return (Phase::Finished, Action::Complete);
                },
            },
        };
        (Phase::Failed(failure), Action::Abort(failure))
    }
}

} // verus!
