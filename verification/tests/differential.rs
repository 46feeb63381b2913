use stack_placement::align::{rounddown, roundup};
use stack_placement::error::{LinkError, Section};
use stack_placement::extract::extract;
use stack_placement::orchestrator::find_output;
use stack_placement::placement::{calculate, AlignmentPolicy, PlacementResult, Policy};
use stack_placement::report::SectionReport;

/// A small generator of numbers, the same on every run.
struct Numbers(u64);

impl Numbers {
    fn next(&mut self) -> u64 {
        self.0 = self.0.wrapping_mul(6364136223846793005).wrapping_add(1442695040888963407);
        self.0 >> 33
    }

    fn below(&mut self, n: u64) -> u64 {
        self.next() % n
    }

    fn size(&mut self) -> u32 {
        match self.below(4) {
            0 => self.below(16) as u32,
            1 => self.below(100_000) as u32,
            2 => u32::MAX - self.below(16) as u32,
            _ => self.next() as u32,
        }
    }
}

const PIECES: [&str; 30] = [
    ".bss", ".data", ".stack", ".text", ".heap", ".rodata", ".", ".stack_sizes", "Total", " ",
    "  ", "\t", "\r", "\x0b", "\x0c", "\n", "\n", "\r\n", "0", "7", "16", "65536", "536870912",
    "4294967295", "4294967296", "+5", "-5", "0x10", "12ab", "+",
];

fn piece(numbers: &mut Numbers) -> &'static str {
    PIECES[numbers.below(PIECES.len() as u64) as usize]
}

/// Pieces in any order: mostly not a report.
fn some_text(numbers: &mut Numbers) -> String {
    let mut text = String::new();
    for _ in 0..numbers.below(24) {
        text.push_str(piece(numbers));
        if numbers.below(3) > 0 {
            text.push(' ');
        }
    }
    text
}

/// Lines of a name and two numbers, with a wrong piece now and again.
fn some_report(numbers: &mut Numbers) -> String {
    let mut text = String::new();
    for _ in 0..numbers.below(8) {
        text.push_str(PIECES[numbers.below(9) as usize]);
        for _ in 0..numbers.below(4) {
            text.push_str(["  ", "\t", " \r", " "][numbers.below(4) as usize]);
            if numbers.below(12) == 0 {
                text.push_str(piece(numbers));
            } else {
                text.push_str(&numbers.size().to_string());
            }
        }
        text.push_str(["\n", "\r\n", " \n"][numbers.below(3) as usize]);
    }
    text
}

/// The report read with the tools of the standard library.
fn read_plainly(text: &str, variant: Policy) -> Result<SectionReport, LinkError> {
    let mut report = SectionReport {
        text: None,
        bss: 0,
        data: 0,
        heap: 0,
        stack_size: 0,
        stack_base: 0,
        others: Vec::new(),
    };
    let mut stack_seen = false;
    for (at, line) in text.split('\n').enumerate() {
        if !line.starts_with('.') {
            continue;
        }
        let malformed = LinkError::MalformedSectionSize { line: at + 1 };
        let mut parts = line
            .split(|c: char| c.is_ascii() && c.is_whitespace())
            .filter(|part| !part.is_empty())
            .skip(1);
        let size: u32 = parts.next().and_then(|s| s.parse().ok()).ok_or(malformed)?;
        if line.starts_with(".bss") {
            report.bss = size;
        } else if line.starts_with(".data") {
            report.data = size;
        } else if line.starts_with(".stack") {
            let base: u32 = parts.next().and_then(|s| s.parse().ok()).ok_or(malformed)?;
            report.stack_size = size;
            report.stack_base = base;
            stack_seen = true;
        } else if line.starts_with(".text") {
            report.text = Some(size);
        } else if line.starts_with(".heap") {
            report.heap = size;
        } else {
            report.others.push(size);
        }
    }
    if variant == Policy::PageIsolated && report.text.is_none() {
        return Err(LinkError::MissingMandatorySection(Section::Text));
    }
    if !stack_seen {
        return Err(LinkError::MissingMandatorySection(Section::Stack));
    }
    Ok(report)
}

/// The placement computed in numbers too wide to overflow.
fn place_plainly(
    report: &SectionReport,
    align: u32,
    page: u32,
    variant: Policy,
) -> Result<PlacementResult, LinkError> {
    let up = |n: u32, a: u32| -> u128 { (n as u128).div_ceil(a as u128) * a as u128 };
    let top = report.stack_base as u128 + report.stack_size as u128;
    match variant {
        Policy::Adjacency => {
            let kept = report.bss as u128 + report.data as u128 + report.heap as u128;
            if kept > report.stack_size as u128 {
                return Err(LinkError::LayoutOverflow);
            }
            Ok(PlacementResult::SharedStart((top - kept) as u64))
        }
        Policy::PageIsolated => {
            let Some(text) = report.text else {
                return Err(LinkError::MissingMandatorySection(Section::Text));
            };
            let mut kept =
                up(text, page) + up(report.bss, align) + up(report.data, align) + up(report.heap, align);
            for other in &report.others {
                kept += up(*other, align);
            }
            if kept > report.stack_size as u128 {
                return Err(LinkError::LayoutOverflow);
            }
            let raw_top = top - kept;
            Ok(PlacementResult::StackStart((raw_top / page as u128 * page as u128) as u64))
        }
    }
}

#[test]
fn rounding_agrees_with_wide_arithmetic() {
    let mut numbers = Numbers(1);
    for _ in 0..20_000 {
        let n = numbers.size();
        let align = numbers.size().max(1);
        let expected = (n as u128).div_ceil(align as u128) * align as u128;
        assert_eq!(roundup(n, align) as u128, expected, "roundup({}, {})", n, align);
        let wide = numbers.next() << 31 | numbers.next();
        assert_eq!(rounddown(wide, align), wide / align as u64 * align as u64);
    }
}

#[test]
fn extraction_agrees_with_a_plain_reading() {
    let mut numbers = Numbers(2);
    let mut read = 0;
    for round in 0..20_000 {
        let text = if round % 2 == 0 {
            some_text(&mut numbers)
        } else {
            some_report(&mut numbers)
        };
        for variant in [Policy::Adjacency, Policy::PageIsolated] {
            let expected = read_plainly(&text, variant);
            if expected.is_ok() {
                read += 1;
            }
            assert_eq!(extract(text.as_bytes(), variant), expected, "{:?}", text);
        }
    }
    assert!(read > 100, "only {} reports could be read", read);
}

#[test]
fn placement_agrees_with_wide_arithmetic() {
    let mut numbers = Numbers(3);
    let mut placed = 0;
    for _ in 0..20_000 {
        let small = numbers.below(3) == 0;
        let mut size = |numbers: &mut Numbers| -> u32 {
            if small {
                numbers.below(5000) as u32
            } else {
                numbers.size()
            }
        };
        let report = SectionReport {
            text: if numbers.below(8) == 0 { None } else { Some(size(&mut numbers)) },
            bss: size(&mut numbers),
            data: size(&mut numbers),
            heap: size(&mut numbers),
            stack_size: numbers.size(),
            stack_base: numbers.size(),
            others: (0..numbers.below(4)).map(|_| size(&mut numbers)).collect(),
        };
        let align = [1, 4, 8, 3, 4096][numbers.below(5) as usize];
        let page = [1, 1024, 4096, 5, 65536][numbers.below(5) as usize];
        let policy = AlignmentPolicy::new(align, page).unwrap();
        for variant in [Policy::Adjacency, Policy::PageIsolated] {
            let expected = place_plainly(&report, align, page, variant);
            if expected.is_ok() {
                placed += 1;
            }
            assert_eq!(calculate(&report, &policy, variant), expected, "{:?}", report);
        }
    }
    assert!(placed > 1000, "only {} reports could be placed", placed);
}

#[test]
fn the_output_is_found_as_by_a_plain_search() {
    let mut numbers = Numbers(4);
    let words = ["-o", "-o", "a.out", "main.o", "-O", "--output", "-L."];
    for _ in 0..5_000 {
        let args: Vec<String> = (0..numbers.below(6))
            .map(|_| words[numbers.below(words.len() as u64) as usize].to_string())
            .collect();
        let expected = args
            .iter()
            .position(|arg| arg == "-o")
            .map(|at| at + 1)
            .filter(|at| *at < args.len());
        assert_eq!(find_output(&args), expected, "{:?}", args);
    }
}
