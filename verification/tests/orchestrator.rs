use stack_placement::decimal::render_decimal;
use stack_placement::defsym::render_defsym;
use stack_placement::error::{LinkError, Section, Stage};
use stack_placement::orchestrator::{
    find_output, Action, Command, Completion, LinkJob, Phase, Toolchain,
};
use stack_placement::placement::{AlignmentPolicy, PlacementResult, Policy};

fn strings(items: &[&str]) -> Vec<String> {
    items.iter().map(|s| s.to_string()).collect()
}

fn job(variant: Policy, args: &[&str]) -> LinkJob {
    LinkJob {
        toolchain: Toolchain::for_policy(variant, None),
        alignment: AlignmentPolicy::new(8, 4096).unwrap(),
        variant,
        args: strings(args),
    }
}

fn printed(text: &str) -> Completion {
    Completion::Succeeded(text.as_bytes().to_vec())
}

const FLAGS: [&str; 4] = ["-flavor", "ld.lld", "-zseparate-code", "-zseparate-loadable-segments"];

const REPORT: &str = ".text 100 65536\n.bss 16 73744\n.stack 65536 536870912\n";

#[test]
fn decimal_digits_are_written() {
    assert_eq!(render_decimal(0), "0");
    assert_eq!(render_decimal(7), "7");
    assert_eq!(render_decimal(10), "10");
    assert_eq!(render_decimal(4096), "4096");
    assert_eq!(render_decimal(536932352), "536932352");
    assert_eq!(render_decimal(u64::MAX), "18446744073709551615");
}

#[test]
fn decimal_agrees_with_the_standard_formatter() {
    let mut n: u64 = 1;
    for _ in 0..64 {
        assert_eq!(render_decimal(n), n.to_string());
        assert_eq!(render_decimal(n - 1), (n - 1).to_string());
        n = n.wrapping_mul(2);
    }
}

#[test]
fn a_symbol_definition_is_written() {
    assert_eq!(render_defsym("_stack_start", 0x2000_E000), "--defsym=_stack_start=536928256");
    assert_eq!(render_defsym("_sbss", 0), "--defsym=_sbss=0");
}

#[test]
fn page_isolation_defines_one_symbol() {
    assert_eq!(
        PlacementResult::StackStart(0x2000_E000).directives(),
        strings(&["--defsym=_stack_start=536928256"])
    );
}

#[test]
fn adjacency_defines_two_symbols_with_one_value() {
    assert_eq!(
        PlacementResult::SharedStart(0x2000_FFD0).directives(),
        strings(&["--defsym=_sbss=536936400", "--defsym=_stack_start=536936400"])
    );
}

#[test]
fn default_tools_depend_on_the_policy() {
    let t = Toolchain::for_policy(Policy::PageIsolated, None);
    assert_eq!(t.linker, "rust-lld");
    assert_eq!(t.linker_flags, strings(&FLAGS));
    assert_eq!(t.size_tool, "riscv64-unknown-elf-size");
    let t = Toolchain::for_policy(Policy::Adjacency, None);
    assert_eq!(t.linker, "rust-lld");
    assert_eq!(t.linker_flags, strings(&[]));
    assert_eq!(t.size_tool, "riscv64-unknown-elf-size");
}

#[test]
fn the_linker_can_be_named() {
    let t = Toolchain::for_policy(Policy::PageIsolated, Some("ld.gold".to_string()));
    assert_eq!(t.linker, "ld.gold");
    assert_eq!(t.linker_flags, strings(&FLAGS));
    let t = Toolchain::for_policy(Policy::Adjacency, Some("/opt/bin/ld".to_string()));
    assert_eq!(t.linker, "/opt/bin/ld");
}

#[test]
fn the_output_follows_the_first_flag() {
    assert_eq!(find_output(&strings(&["-o", "a.out"])), Some(1));
    assert_eq!(find_output(&strings(&["main.o", "-o", "a.out", "-L."])), Some(2));
    assert_eq!(find_output(&strings(&["-o", "first", "-o", "second"])), Some(1));
    assert_eq!(find_output(&strings(&["-o", "-o", "x"])), Some(1));
}

#[test]
fn the_output_can_be_missing() {
    assert_eq!(find_output(&strings(&[])), None);
    assert_eq!(find_output(&strings(&["main.o"])), None);
    assert_eq!(find_output(&strings(&["main.o", "-o"])), None);
    assert_eq!(find_output(&strings(&["-o"])), None);
    assert_eq!(find_output(&strings(&["-oa.out", "--output", "a.out", "-O", "x"])), None);
}

#[test]
fn a_link_without_output_starts_no_tool() {
    for variant in [Policy::Adjacency, Policy::PageIsolated] {
        for args in [&["main.o"][..], &[][..], &["main.o", "-o"][..]] {
            let (phase, action) = job(variant, args).start();
            assert_eq!(phase, Phase::Failed(LinkError::MissingOutputArgument));
            assert_eq!(action, Action::Abort(LinkError::MissingOutputArgument));
        }
    }
}

#[test]
fn a_link_without_output_stays_given_up() {
    let j = job(Policy::PageIsolated, &["main.o"]);
    let (phase, _) = j.start();
    let (phase, action) = j.advance(phase, &printed(""));
    assert_eq!(phase, Phase::Failed(LinkError::MissingOutputArgument));
    assert_eq!(action, Action::Abort(LinkError::MissingOutputArgument));
    // also where the caller goes on as if the first link had run
    let (phase, action) = j.advance(Phase::Running(Stage::FirstLink), &printed(""));
    assert_eq!(phase, Phase::Failed(LinkError::MissingOutputArgument));
    assert_eq!(action, Action::Abort(LinkError::MissingOutputArgument));
}

#[test]
fn a_page_isolated_link_runs_three_tools() {
    let j = job(Policy::PageIsolated, &["main.o", "-o", "out.elf", "-Tlink.x"]);

    let (phase, action) = j.start();
    assert_eq!(phase, Phase::Running(Stage::FirstLink));
    let mut expected = strings(&FLAGS);
    expected.extend(strings(&["main.o", "-o", "out.elf", "-Tlink.x"]));
    assert_eq!(
        action,
        Action::Run(Command { program: "rust-lld".to_string(), args: expected, capture: false })
    );

    let (phase, action) = j.advance(phase, &printed(""));
    assert_eq!(phase, Phase::Running(Stage::SizeReport));
    assert_eq!(
        action,
        Action::Run(Command {
            program: "riscv64-unknown-elf-size".to_string(),
            args: strings(&["-A", "out.elf"]),
            capture: true,
        })
    );

    let (phase, action) = j.advance(phase, &printed(REPORT));
    assert_eq!(phase, Phase::Running(Stage::SecondLink));
    let mut expected = strings(&FLAGS);
    expected.extend(strings(&[
        "--defsym=_stack_start=536928256",
        "main.o",
        "-o",
        "out.elf",
        "-Tlink.x",
    ]));
    assert_eq!(
        action,
        Action::Run(Command { program: "rust-lld".to_string(), args: expected, capture: false })
    );

    let (phase, action) = j.advance(phase, &printed(""));
    assert_eq!(phase, Phase::Finished);
    assert_eq!(action, Action::Complete);

    let (phase, action) = j.advance(phase, &Completion::Failed);
    assert_eq!(phase, Phase::Finished);
    assert_eq!(action, Action::Complete);
}

#[test]
fn an_adjacent_link_defines_both_symbols() {
    let j = LinkJob {
        toolchain: Toolchain {
            linker: "arm-none-eabi-ld".to_string(),
            linker_flags: strings(&["--gc-sections"]),
            size_tool: "arm-none-eabi-size".to_string(),
        },
        alignment: AlignmentPolicy::new(4, 1024).unwrap(),
        variant: Policy::Adjacency,
        args: strings(&["-o", "out.elf", "main.o"]),
    };
    let (phase, action) = j.start();
    assert_eq!(
        action,
        Action::Run(Command {
            program: "arm-none-eabi-ld".to_string(),
            args: strings(&["--gc-sections", "-o", "out.elf", "main.o"]),
            capture: false,
        })
    );
    let (phase, action) = j.advance(phase, &printed(""));
    assert_eq!(
        action,
        Action::Run(Command {
            program: "arm-none-eabi-size".to_string(),
            args: strings(&["-A", "out.elf"]),
            capture: true,
        })
    );
    let report = ".bss 32 0\n.data 16 0\n.stack 65536 536870912\n";
    let (phase, action) = j.advance(phase, &printed(report));
    assert_eq!(phase, Phase::Running(Stage::SecondLink));
    assert_eq!(
        action,
        Action::Run(Command {
            program: "arm-none-eabi-ld".to_string(),
            args: strings(&[
                "--gc-sections",
                "--defsym=_sbss=536936400",
                "--defsym=_stack_start=536936400",
                "-o",
                "out.elf",
                "main.o",
            ]),
            capture: false,
        })
    );
}

#[test]
fn a_tool_that_does_not_start_ends_the_link() {
    let j = job(Policy::PageIsolated, &["-o", "out.elf"]);
    for stage in [Stage::FirstLink, Stage::SizeReport, Stage::SecondLink] {
        let (phase, action) = j.advance(Phase::Running(stage), &Completion::SpawnFailed);
        assert_eq!(phase, Phase::Failed(LinkError::SubprocessSpawnFailure(stage)));
        assert_eq!(action, Action::Abort(LinkError::SubprocessSpawnFailure(stage)));
    }
}

#[test]
fn a_tool_that_fails_ends_the_link() {
    let j = job(Policy::Adjacency, &["-o", "out.elf"]);
    for stage in [Stage::FirstLink, Stage::SizeReport, Stage::SecondLink] {
        let (phase, action) = j.advance(Phase::Running(stage), &Completion::Failed);
        assert_eq!(phase, Phase::Failed(LinkError::SubprocessNonZeroExit(stage)));
        assert_eq!(action, Action::Abort(LinkError::SubprocessNonZeroExit(stage)));
    }
}

#[test]
fn a_report_that_cannot_be_used_ends_the_link() {
    let j = job(Policy::PageIsolated, &["-o", "out.elf"]);
    let at_report = Phase::Running(Stage::SizeReport);
    let cases: [(&str, LinkError); 5] = [
        ("", LinkError::MissingMandatorySection(Section::Text)),
        (".text 1\n", LinkError::MissingMandatorySection(Section::Stack)),
        (".stack 1 2\n", LinkError::MissingMandatorySection(Section::Text)),
        (".text 1\n.stack one 2\n", LinkError::MalformedSectionSize { line: 2 }),
        (".text 1\n.stack 4095 0\n", LinkError::LayoutOverflow),
    ];
    for (report, error) in cases {
        let (phase, action) = j.advance(at_report, &printed(report));
        assert_eq!(phase, Phase::Failed(error));
        assert_eq!(action, Action::Abort(error));
    }
}

#[test]
fn a_link_that_was_given_up_stays_so() {
    let j = job(Policy::PageIsolated, &["-o", "out.elf"]);
    let given_up = Phase::Failed(LinkError::LayoutOverflow);
    for done in [Completion::SpawnFailed, Completion::Failed, printed(REPORT)] {
        let (phase, action) = j.advance(given_up, &done);
        assert_eq!(phase, given_up);
        assert_eq!(action, Action::Abort(LinkError::LayoutOverflow));
    }
}

#[test]
fn placing_reads_and_calculates() {
    let j = job(Policy::PageIsolated, &["-o", "out.elf"]);
    assert_eq!(j.place(REPORT.as_bytes()), Ok(PlacementResult::StackStart(0x2000_E000)));
    let j = job(Policy::Adjacency, &["-o", "out.elf"]);
    assert_eq!(
        j.place(b".bss 32\n.data 16\n.stack 65536 536870912\n"),
        Ok(PlacementResult::SharedStart(0x2000_FFD0))
    );
}

#[test]
fn every_error_has_its_diagnostic() {
    assert_eq!(
        LinkError::MissingOutputArgument.diagnostic(),
        "arguments: no `-o` followed by a path"
    );
    assert_eq!(
        LinkError::SubprocessSpawnFailure(Stage::FirstLink).diagnostic(),
        "first link: the tool could not be started"
    );
    assert_eq!(
        LinkError::SubprocessSpawnFailure(Stage::SizeReport).diagnostic(),
        "size report: the tool could not be started"
    );
    assert_eq!(
        LinkError::SubprocessNonZeroExit(Stage::SecondLink).diagnostic(),
        "second link: the tool reported failure"
    );
    assert_eq!(
        LinkError::MissingMandatorySection(Section::Stack).diagnostic(),
        "section report: no line for .stack"
    );
    assert_eq!(
        LinkError::MissingMandatorySection(Section::Text).diagnostic(),
        "section report: no line for .text"
    );
    assert_eq!(
        LinkError::MalformedSectionSize { line: 12 }.diagnostic(),
        "section report: a number is missing or cannot be read in line 12"
    );
    assert_eq!(
        LinkError::LayoutOverflow.diagnostic(),
        "placement: the sections are larger than the RAM region"
    );
}
