//! Reading a section report.
//!
//! The report is the text that a size tool prints for an artifact: one line
//! per section, with the name of the section, its size and its address. The
//! lines that matter begin with a dot. Five names are known; every other
//! section only adds its size to a list.

use vstd::prelude::*;
use vstd::slice::slice_subrange;
use vstd::string::*;
use vstd::utf8::{is_ascii_chars, is_ascii_chars_encode_utf8};
use crate::error::{LinkError, Section};
use crate::grammar::{fields, lines, next_field, number, parse_number, run_end, ByteClass, DOT};
use crate::placement::Policy;
use crate::report::{SectionFacts, SectionReport};

verus! {

/// What one line of a report says.
#[derive(Debug, Clone, Copy, PartialEq, Eq, Structural)]
pub enum SectionLine {
    /// The line does not begin with a dot: it describes no section.
    Unrelated,
    /// The line names a section, and a number that belongs after the name is
    /// missing or is no number.
    Malformed,
    /// `.text` and its size.
    Text(u32),
    /// `.bss` and its size.
    Bss(u32),
    /// `.data` and its size.
    Data(u32),
    /// `.heap` and its size.
    Heap(u32),
    /// `.stack`: the size of the RAM region and the address at which it begins.
    Stack { size: u32, base: u32 },
    /// Another section and its size.
    Other(u32),
}

/// The line begins with the bytes of `name`.
pub open spec fn named(line: Seq<u8>, name: &str) -> bool {
    name.spec_bytes().is_prefix_of(line)
}

/// The number in field `k` of a line, where the line has that field and it
/// is a number.
pub open spec fn number_at(f: Seq<Seq<u8>>, k: int) -> Option<u32> {
    if 0 <= k < f.len() {
        number(f[k])
    } else {
        None
    }
}

/// What the line says. The name is field 0, the size field 1, and for
/// `.stack` the address field 2; what follows is not looked at.
pub open spec fn section_line(line: Seq<u8>) -> SectionLine {
    if line.len() == 0 || line[0] != DOT {
        SectionLine::Unrelated
    } else {
        let f = fields(line);
        match number_at(f, 1) {
            None => SectionLine::Malformed,
            Some(size) => {
                if named(line, ".bss") {
                    SectionLine::Bss(size)
                } else if named(line, ".data") {
                    SectionLine::Data(size)
                } else if named(line, ".stack") {
                    match number_at(f, 2) {
                        None => SectionLine::Malformed,
                        Some(base) => SectionLine::Stack { size, base },
                    }
                } else if named(line, ".text") {
                    SectionLine::Text(size)
                } else if named(line, ".heap") {
                    SectionLine::Heap(size)
                } else {
                    SectionLine::Other(size)
                }
            },
        }
    }
}

/// The first two bytes of a line that begins with `name`, a name of two
/// one-byte characters or more, are those of `name`.
proof fn lemma_named_line_begins(line: Seq<u8>, name: &str)
    requires
        named(line, name),
        name@.len() >= 2,
        is_ascii_chars(name@),
    ensures
        line.len() >= 2,
        line[0] == name@[0] as u8,
        line[1] == name@[1] as u8,
{
    is_ascii_chars_encode_utf8(name@);
    let bytes = name.spec_bytes();
    let front = line.subrange(0, bytes.len() as int);
    assert(front[0] == line[0]);
    assert(front[1] == line[1]);
    assert(bytes[0] == name@[0] as u8);
    assert(bytes[1] == name@[1] as u8);
}

/// A line is read by its name. A line that begins with one of the five
/// known names is read as a line of that section, or as malformed, and no
/// other line is read as one of that section. A line is unrelated exactly if
/// it does not begin with a dot.
pub proof fn lemma_line_is_read_by_name(line: Seq<u8>)
    ensures
        section_line(line) is Unrelated <==> line.len() == 0 || line[0] != DOT,
        named(line, ".bss") ==> section_line(line) is Bss || section_line(line) is Malformed,
        named(line, ".data") ==> section_line(line) is Data || section_line(line) is Malformed,
        named(line, ".stack") ==> section_line(line) is Stack || section_line(line) is Malformed,
        named(line, ".text") ==> section_line(line) is Text || section_line(line) is Malformed,
        named(line, ".heap") ==> section_line(line) is Heap || section_line(line) is Malformed,
        section_line(line) is Bss ==> named(line, ".bss"),
        section_line(line) is Data ==> named(line, ".data"),
        section_line(line) is Stack ==> named(line, ".stack"),
        section_line(line) is Text ==> named(line, ".text"),
        section_line(line) is Heap ==> named(line, ".heap"),
        section_line(line) is Other ==> !named(line, ".bss") && !named(line, ".data") && !named(
            line,
            ".stack",
        ) && !named(line, ".text") && !named(line, ".heap"),
{
    reveal_strlit(".bss");
    reveal_strlit(".data");
    reveal_strlit(".stack");
    reveal_strlit(".text");
    reveal_strlit(".heap");
    if named(line, ".bss") {
        lemma_named_line_begins(line, ".bss");
    }
    if named(line, ".data") {
        lemma_named_line_begins(line, ".data");
    }
    if named(line, ".stack") {
        lemma_named_line_begins(line, ".stack");
    }
    if named(line, ".text") {
        lemma_named_line_begins(line, ".text");
    }
    if named(line, ".heap") {
        lemma_named_line_begins(line, ".heap");
    }
}

/// What has been gathered from the lines read so far.
pub struct Draft {
    pub text: Option<u32>,
    pub bss: u32,
    pub data: u32,
    pub heap: u32,
    /// Size and base of the RAM region.
    pub stack: Option<(u32, u32)>,
    pub others: Seq<u32>,
}

/// The draft before any line is read: every size zero, nothing seen.
pub open spec fn blank_draft() -> Draft {
    Draft { text: None, bss: 0, data: 0, heap: 0, stack: None, others: Seq::empty() }
}

/// The draft after one more line. A later line for a known section replaces
/// an earlier one; other sections are listed in the order of their lines.
pub open spec fn noted(d: Draft, line: SectionLine) -> Draft {
    match line {
        SectionLine::Unrelated | SectionLine::Malformed => d,
        SectionLine::Text(size) => Draft { text: Some(size), ..d },
        SectionLine::Bss(size) => Draft { bss: size, ..d },
        SectionLine::Data(size) => Draft { data: size, ..d },
        SectionLine::Heap(size) => Draft { heap: size, ..d },
        SectionLine::Stack { size, base } => Draft { stack: Some((size, base)), ..d },
        SectionLine::Other(size) => Draft { others: d.others.push(size), ..d },
    }
}

/// The draft after all of `rest`, whose first line has the number `first`;
/// or the first malformed line.
pub open spec fn gathered(rest: Seq<Seq<u8>>, d: Draft, first: nat) -> Result<Draft, LinkError>
    decreases rest.len(),
{
    if rest.len() == 0 {
        Ok(d)
    } else {
        let line = section_line(rest.first());
        if line is Malformed {
            Err(LinkError::MalformedSectionSize { line: first as usize })
        } else {
            gathered(rest.drop_first(), noted(d, line), first + 1)
        }
    }
}

/// The facts of a finished draft. `.text` is asked for under page isolation
/// only, and first; the RAM region is asked for always.
pub open spec fn completed(d: Draft, variant: Policy) -> Result<SectionFacts, LinkError> {
    if variant == Policy::PageIsolated && d.text is None {
        Err(LinkError::MissingMandatorySection(Section::Text))
    } else {
        match d.stack {
            None => Err(LinkError::MissingMandatorySection(Section::Stack)),
            Some((size, base)) => Ok(
                SectionFacts {
                    text: d.text,
                    bss: d.bss,
                    data: d.data,
                    heap: d.heap,
                    stack_size: size,
                    stack_base: base,
                    others: d.others,
                },
            ),
        }
    }
}

/// What a report yields: the first malformed line, else the first section
/// that is missing, else the facts.
pub open spec fn extraction(text: Seq<u8>, variant: Policy) -> Result<SectionFacts, LinkError> {
    match gathered(lines(text), blank_draft(), 1) {
        Err(e) => Err(e),
        Ok(d) => completed(d, variant),
    }
}

/// No line of `text` begins with `name`.
pub open spec fn lacks(text: Seq<u8>, name: &str) -> bool {
    forall|i: int| 0 <= i < lines(text).len() ==> !named(#[trigger] lines(text)[i], name)
}

/// Every line of `text` that names a section has its numbers.
pub open spec fn readable(text: Seq<u8>) -> bool {
    forall|i: int|
        0 <= i < lines(text).len() ==> !(section_line(#[trigger] lines(text)[i]) is Malformed)
}

/// Line `k` of `text`, counted from 0, is the first that names a section
/// and lacks a number.
pub open spec fn first_malformed(text: Seq<u8>, k: int) -> bool {
    &&& 0 <= k < lines(text).len()
    &&& section_line(lines(text)[k]) is Malformed
    &&& forall|j: int| 0 <= j < k ==> !(section_line(#[trigger] lines(text)[j]) is Malformed)
}

/// Some line of `text` gives the RAM region.
pub open spec fn gives_stack(text: Seq<u8>) -> bool {
    exists|i: int| 0 <= i < lines(text).len() && section_line(#[trigger] lines(text)[i]) is Stack
}

/// Some line of `text` gives the size of `.text`.
pub open spec fn gives_text(text: Seq<u8>) -> bool {
    exists|i: int| 0 <= i < lines(text).len() && section_line(#[trigger] lines(text)[i]) is Text
}

/// Gathering stops at the first malformed line and reports its number.
proof fn lemma_gathered_stops(rest: Seq<Seq<u8>>, d: Draft, first: nat, k: int)
    requires
        0 <= k < rest.len(),
        section_line(rest[k]) is Malformed,
        forall|j: int| 0 <= j < k ==> !(section_line(#[trigger] rest[j]) is Malformed),
    ensures
        gathered(rest, d, first) == Err::<Draft, LinkError>(
            LinkError::MalformedSectionSize { line: (first + k) as usize },
        ),
    decreases k,
{
    if k > 0 {
        let tail = rest.drop_first();
        assert(!(section_line(rest[0]) is Malformed));
        assert(tail[k - 1] == rest[k]);
        assert forall|j: int| 0 <= j < k - 1 implies !(section_line(#[trigger] tail[j])
            is Malformed) by {
            assert(tail[j] == rest[j + 1]);
        }
        lemma_gathered_stops(tail, noted(d, section_line(rest[0])), first + 1, k - 1);
    }
}

/// Lines that can all be read are gathered to the end. The draft has a RAM
/// region, or a size of `.text`, exactly if it had one before or a line
/// gives one.
proof fn lemma_gathered_to_the_end(rest: Seq<Seq<u8>>, d: Draft, first: nat)
    requires
        forall|i: int| 0 <= i < rest.len() ==> !(section_line(#[trigger] rest[i]) is Malformed),
    ensures
        gathered(rest, d, first) is Ok,
        gathered(rest, d, first)->Ok_0.stack is Some <==> d.stack is Some || exists|i: int|
            0 <= i < rest.len() && section_line(#[trigger] rest[i]) is Stack,
        gathered(rest, d, first)->Ok_0.text is Some <==> d.text is Some || exists|i: int|
            0 <= i < rest.len() && section_line(#[trigger] rest[i]) is Text,
    decreases rest.len(),
{
    if rest.len() > 0 {
        let line = section_line(rest[0]);
        let tail = rest.drop_first();
        assert forall|i: int| 0 <= i < tail.len() implies !(section_line(#[trigger] tail[i])
            is Malformed) by {
            assert(tail[i] == rest[i + 1]);
        }
        lemma_gathered_to_the_end(tail, noted(d, line), first + 1);
        let out = gathered(rest, d, first)->Ok_0;
        if exists|i: int| 0 <= i < tail.len() && section_line(#[trigger] tail[i]) is Stack {
            let i = choose|i: int| 0 <= i < tail.len() && section_line(#[trigger] tail[i]) is Stack;
            assert(section_line(rest[i + 1]) is Stack);
        }
        if exists|i: int| 0 <= i < tail.len() && section_line(#[trigger] tail[i]) is Text {
            let i = choose|i: int| 0 <= i < tail.len() && section_line(#[trigger] tail[i]) is Text;
            assert(section_line(rest[i + 1]) is Text);
        }
        if exists|i: int| 0 <= i < rest.len() && section_line(#[trigger] rest[i]) is Stack {
            let i = choose|i: int| 0 <= i < rest.len() && section_line(#[trigger] rest[i]) is Stack;
            if i > 0 {
                assert(section_line(tail[i - 1]) is Stack);
            }
        }
        if exists|i: int| 0 <= i < rest.len() && section_line(#[trigger] rest[i]) is Text {
            let i = choose|i: int| 0 <= i < rest.len() && section_line(#[trigger] rest[i]) is Text;
            if i > 0 {
                assert(section_line(tail[i - 1]) is Text);
            }
        }
    }
}

/// Both lines are of one and the same known section.
pub open spec fn same_section(a: SectionLine, b: SectionLine) -> bool {
    ||| a is Text && b is Text
    ||| a is Bss && b is Bss
    ||| a is Data && b is Data
    ||| a is Heap && b is Heap
    ||| a is Stack && b is Stack
}

/// No line of `rest` is of the section of `line`.
pub open spec fn none_of_section(rest: Seq<Seq<u8>>, line: SectionLine) -> bool {
    forall|j: int| 0 <= j < rest.len() ==> !same_section(line, section_line(#[trigger] rest[j]))
}

/// The draft has, for the section of `line`, what `line` says.
pub open spec fn draft_agrees(d: Draft, line: SectionLine) -> bool {
    match line {
        SectionLine::Text(size) => d.text == Some(size),
        SectionLine::Bss(size) => d.bss == size,
        SectionLine::Data(size) => d.data == size,
        SectionLine::Heap(size) => d.heap == size,
        SectionLine::Stack { size, base } => d.stack == Some((size, base)),
        _ => true,
    }
}

/// The facts have, for the section of `line`, what `line` says.
pub open spec fn agrees(facts: SectionFacts, line: SectionLine) -> bool {
    match line {
        SectionLine::Text(size) => facts.text == Some(size),
        SectionLine::Bss(size) => facts.bss == size,
        SectionLine::Data(size) => facts.data == size,
        SectionLine::Heap(size) => facts.heap == size,
        SectionLine::Stack { size, base } => facts.stack_size == size && facts.stack_base == base,
        _ => true,
    }
}

/// The sizes that the lines of other sections give, in the order of the
/// lines.
pub open spec fn other_sizes(rest: Seq<Seq<u8>>) -> Seq<u32>
    decreases rest.len(),
{
    if rest.len() == 0 {
        Seq::empty()
    } else {
        match section_line(rest.first()) {
            SectionLine::Other(size) => seq![size] + other_sizes(rest.drop_first()),
            _ => other_sizes(rest.drop_first()),
        }
    }
}

/// Lines of other sections leave what the draft has for a section, and
/// every line of another section adds its size to the end of the list.
proof fn lemma_gathered_keeps(rest: Seq<Seq<u8>>, d: Draft, first: nat, line: SectionLine)
    requires
        forall|i: int| 0 <= i < rest.len() ==> !(section_line(#[trigger] rest[i]) is Malformed),
    ensures
        gathered(rest, d, first) is Ok,
        gathered(rest, d, first)->Ok_0.others == d.others + other_sizes(rest),
        none_of_section(rest, line) && draft_agrees(d, line) ==> draft_agrees(
            gathered(rest, d, first)->Ok_0,
            line,
        ),
    decreases rest.len(),
{
    if rest.len() == 0 {
        assert(d.others + other_sizes(rest) =~= d.others);
    } else {
        let head = section_line(rest[0]);
        let tail = rest.drop_first();
        assert forall|i: int| 0 <= i < tail.len() implies !(section_line(#[trigger] tail[i])
            is Malformed) by {
            assert(tail[i] == rest[i + 1]);
        }
        lemma_gathered_keeps(tail, noted(d, head), first + 1, line);
        assert(noted(d, head).others + other_sizes(tail) =~= d.others + other_sizes(rest));
        if none_of_section(rest, line) {
            assert(!same_section(line, section_line(rest[0])));
            assert forall|j: int| 0 <= j < tail.len() implies !same_section(
                line,
                section_line(#[trigger] tail[j]),
            ) by {
                assert(tail[j] == rest[j + 1]);
            }
        }
    }
}

/// A line after which no line of its section follows has its say.
proof fn lemma_gathered_last(rest: Seq<Seq<u8>>, d: Draft, first: nat, k: int)
    requires
        forall|i: int| 0 <= i < rest.len() ==> !(section_line(#[trigger] rest[i]) is Malformed),
        0 <= k < rest.len(),
        none_of_section(rest.skip(k + 1), section_line(rest[k])),
    ensures
        gathered(rest, d, first) is Ok,
        draft_agrees(gathered(rest, d, first)->Ok_0, section_line(rest[k])),
    decreases k,
{
    let head = section_line(rest[0]);
    let tail = rest.drop_first();
    assert forall|i: int| 0 <= i < tail.len() implies !(section_line(#[trigger] tail[i])
        is Malformed) by {
        assert(tail[i] == rest[i + 1]);
    }
    if k == 0 {
        assert(tail =~= rest.skip(1));
        lemma_gathered_keeps(tail, noted(d, head), first + 1, head);
    } else {
        assert(tail[k - 1] == rest[k]);
        assert(tail.skip(k) =~= rest.skip(k + 1));
        lemma_gathered_last(tail, noted(d, head), first + 1, k - 1);
    }
}

/// Where a section has several lines, the last of them counts: the facts
/// have what it says.
pub proof fn lemma_last_line_of_a_section_counts(text: Seq<u8>, variant: Policy, k: int)
    requires
        readable(text),
        extraction(text, variant) is Ok,
        0 <= k < lines(text).len(),
        none_of_section(lines(text).skip(k + 1), section_line(lines(text)[k])),
    ensures
        agrees(extraction(text, variant)->Ok_0, section_line(lines(text)[k])),
{
    lemma_gathered_last(lines(text), blank_draft(), 1, k);
}

/// A section without a line has size zero, and `.text` without a line is
/// absent. The other sections are listed by their sizes, in the order of
/// their lines.
pub proof fn lemma_absent_sections_are_zero(text: Seq<u8>, variant: Policy)
    requires
        readable(text),
        extraction(text, variant) is Ok,
    ensures
        lacks(text, ".bss") ==> extraction(text, variant)->Ok_0.bss == 0,
        lacks(text, ".data") ==> extraction(text, variant)->Ok_0.data == 0,
        lacks(text, ".heap") ==> extraction(text, variant)->Ok_0.heap == 0,
        lacks(text, ".text") ==> extraction(text, variant)->Ok_0.text is None,
        extraction(text, variant)->Ok_0.others == other_sizes(lines(text)),
{
    let ls = lines(text);
    let d = blank_draft();
    assert forall|j: int| 0 <= j < ls.len() implies (section_line(#[trigger] ls[j]) is Bss
        ==> named(ls[j], ".bss")) && (section_line(ls[j]) is Data ==> named(ls[j], ".data")) && (
    section_line(ls[j]) is Heap ==> named(ls[j], ".heap")) && (section_line(ls[j]) is Text
        ==> named(ls[j], ".text")) by {
        lemma_line_is_read_by_name(ls[j]);
    }
    lemma_gathered_keeps(ls, d, 1, SectionLine::Bss(0));
    lemma_gathered_keeps(ls, d, 1, SectionLine::Data(0));
    lemma_gathered_keeps(ls, d, 1, SectionLine::Heap(0));
    lemma_gathered_to_the_end(ls, d, 1);
    assert(d.others + other_sizes(ls) =~= other_sizes(ls));
    if lacks(text, ".text") && gathered(ls, d, 1)->Ok_0.text is Some {
        let i = choose|i: int| 0 <= i < ls.len() && section_line(#[trigger] ls[i]) is Text;
        assert(named(ls[i], ".text"));
    }
}

/// The first line that names a section and lacks a number is reported, by
/// its number counted from 1, whatever else the report holds.
pub proof fn lemma_first_malformed_is_reported(text: Seq<u8>, variant: Policy, k: int)
    requires
        first_malformed(text, k),
    ensures
        extraction(text, variant) == Err::<SectionFacts, LinkError>(
            LinkError::MalformedSectionSize { line: (k + 1) as usize },
        ),
{
    lemma_gathered_stops(lines(text), blank_draft(), 1, k);
}

/// A report whose lines can all be read yields facts exactly if it gives the
/// RAM region and, under page isolation, the size of `.text`. What it lacks
/// is reported: `.text` first, where the policy needs it.
pub proof fn lemma_readable_report_outcome(text: Seq<u8>, variant: Policy)
    requires
        readable(text),
    ensures
        extraction(text, variant) is Ok <==> gives_stack(text) && (variant == Policy::PageIsolated
            ==> gives_text(text)),
        variant == Policy::PageIsolated && !gives_text(text) ==> extraction(text, variant) == Err::<
            SectionFacts,
            LinkError,
        >(LinkError::MissingMandatorySection(Section::Text)),
        !(variant == Policy::PageIsolated && !gives_text(text)) && !gives_stack(text)
            ==> extraction(text, variant) == Err::<SectionFacts, LinkError>(
            LinkError::MissingMandatorySection(Section::Stack),
        ),
{
    lemma_gathered_to_the_end(lines(text), blank_draft(), 1);
}

/// A report without a `.stack` line is refused for a missing section, under
/// either policy. The section named is `.stack`, but for a report under page
/// isolation that gives no size of `.text` either.
///
/// This is said of reports whose lines can all be read: a malformed line is
/// reported before anything is found missing.
pub proof fn lemma_missing_stack_is_refused(text: Seq<u8>, variant: Policy)
    requires
        lacks(text, ".stack"),
        readable(text),
    ensures
        extraction(text, variant) is Err,
        extraction(text, variant)->Err_0 is MissingMandatorySection,
        variant == Policy::Adjacency || gives_text(text) ==> extraction(text, variant) == Err::<
            SectionFacts,
            LinkError,
        >(LinkError::MissingMandatorySection(Section::Stack)),
{
    lemma_readable_report_outcome(text, variant);
    if gives_stack(text) {
        let i = choose|i: int|
            0 <= i < lines(text).len() && section_line(#[trigger] lines(text)[i]) is Stack;
        assert(named(lines(text)[i], ".stack"));
    }
}

/// A report without a `.text` line is refused under page isolation, and
/// under that policy only: under adjacency it is read as any other.
///
/// This too is said of reports whose lines can all be read.
pub proof fn lemma_missing_text_is_refused(text: Seq<u8>)
    requires
        lacks(text, ".text"),
        readable(text),
    ensures
        extraction(text, Policy::PageIsolated) == Err::<SectionFacts, LinkError>(
            LinkError::MissingMandatorySection(Section::Text),
        ),
        extraction(text, Policy::Adjacency) is Ok <==> gives_stack(text),
{
    lemma_readable_report_outcome(text, Policy::PageIsolated);
    lemma_readable_report_outcome(text, Policy::Adjacency);
    if gives_text(text) {
        let i = choose|i: int|
            0 <= i < lines(text).len() && section_line(#[trigger] lines(text)[i]) is Text;
        assert(named(lines(text)[i], ".text"));
    }
}

/// Tells whether `line` begins with the bytes of `name`.
pub fn begins_with(line: &[u8], name: &str) -> (r: bool)
    ensures
        r == named(line@, name),
{
    let want: &[u8] = name.as_bytes();
    if want.len() > line.len() {
        return false;
    }
    let mut i: usize = 0;
    while i < want.len()
        invariant
            0 <= i <= want.len() <= line.len(),
            want@ == name.spec_bytes(),
            forall|j: int| 0 <= j < i ==> want@[j] == line@[j],
        decreases want.len() - i,
    {
        if want[i] != line[i] {
            assert(line@.subrange(0, want@.len() as int)[i as int] != want@[i as int]);
            return false;
        }
        i = i + 1;
    }
    assert(want@ =~= line@.subrange(0, want@.len() as int));
    true
}

/// Reads one line of a report.
pub fn read_line(line: &[u8]) -> (r: SectionLine)
    ensures
        r == section_line(line@),
{
    if line.len() == 0 || line[0] != DOT {
        return SectionLine::Unrelated;
    }
    assert(line@.skip(0) =~= line@);
    let name_end: usize = match next_field(line, 0) {
        None => {
            return SectionLine::Malformed;
        },
        Some((_, b)) => b,
    };
    let (size_at, size_end): (usize, usize) = match next_field(line, name_end) {
        None => {
            return SectionLine::Malformed;
        },
        Some(found) => found,
    };
    let size: u32 = match parse_number(slice_subrange(line, size_at, size_end)) {
        None => {
            return SectionLine::Malformed;
        },
        Some(n) => n,
    };
    if begins_with(line, ".bss") {
        SectionLine::Bss(size)
    } else if begins_with(line, ".data") {
        SectionLine::Data(size)
    } else if begins_with(line, ".stack") {
        let (base_at, base_end): (usize, usize) = match next_field(line, size_end) {
            None => {
                return SectionLine::Malformed;
            },
            Some(found) => found,
        };
        match parse_number(slice_subrange(line, base_at, base_end)) {
            None => SectionLine::Malformed,
            Some(base) => SectionLine::Stack { size, base },
        }
    } else if begins_with(line, ".text") {
        SectionLine::Text(size)
    } else if begins_with(line, ".heap") {
        SectionLine::Heap(size)
    } else {
        SectionLine::Other(size)
    }
}

/// Reads a section report.
///
/// A line that names a section and lacks its number is an error, whatever
/// else the report holds. Sections without a line have size zero, but for
/// the RAM region, and for `.text` under page isolation: these must be there.
pub fn extract(text: &[u8], variant: Policy) -> (r: Result<SectionReport, LinkError>)
    ensures
        match r {
            Ok(report) => extraction(text@, variant) == Ok::<SectionFacts, LinkError>(report@),
            Err(e) => extraction(text@, variant) == Err::<SectionFacts, LinkError>(e),
        },
{
    let mut seen_text: Option<u32> = None;
    let mut bss: u32 = 0;
    let mut data: u32 = 0;
    let mut heap: u32 = 0;
    let mut stack: Option<(u32, u32)> = None;
    let mut others: Vec<u32> = Vec::new();
    let mut at: usize = 0;
    let mut seen: usize = 0;
    let ghost mut d: Draft = blank_draft();
    assert(text@.skip(0) =~= text@);
    while at < text.len()
        invariant
            0 <= at <= text.len(),
            seen <= at,
            d == (Draft { text: seen_text, bss, data, heap, stack, others: others@ }),
            gathered(lines(text@), blank_draft(), 1) == gathered(
                lines(text@.skip(at as int)),
                d,
                (seen + 1) as nat,
            ),
        decreases text.len() - at,
    {
        let end: usize = run_end(text, at, ByteClass::Inline);
        let line: SectionLine = read_line(slice_subrange(text, at, end));
        proof {
            let tail = text@.skip(at as int);
            let rest = lines(tail);
            if end == text.len() {
                assert(tail =~= text@.subrange(at as int, end as int));
                assert(rest.drop_first() =~= Seq::<Seq<u8>>::empty());
                assert(lines(text@.skip(end as int)) =~= Seq::<Seq<u8>>::empty());
            } else {
                assert(tail.take(end - at) =~= text@.subrange(at as int, end as int));
                assert(tail.skip(end - at + 1) =~= text@.skip(end + 1));
                assert(rest.drop_first() =~= lines(text@.skip(end + 1)));
            }
            assert(rest.first() == text@.subrange(at as int, end as int));
            d = noted(d, line);
        }
        match line {
            SectionLine::Unrelated => {},
            SectionLine::Malformed => {
                return Err(LinkError::MalformedSectionSize { line: seen + 1 });
            },
            SectionLine::Text(size) => {
                seen_text = Some(size);
            },
            SectionLine::Bss(size) => {
                bss = size;
            },
            SectionLine::Data(size) => {
                data = size;
            },
            SectionLine::Heap(size) => {
                heap = size;
            },
            SectionLine::Stack { size, base } => {
                stack = Some((size, base));
            },
            SectionLine::Other(size) => {
                others.push(size);
            },
        }
        if end == text.len() {
            at = end;
        } else {
            at = end + 1;
        }
        seen = seen + 1;
    }
    assert(lines(text@.skip(at as int)) =~= Seq::<Seq<u8>>::empty());
    if variant == Policy::PageIsolated && seen_text.is_none() {
        return Err(LinkError::MissingMandatorySection(Section::Text));
    }
    match stack {
        None => Err(LinkError::MissingMandatorySection(Section::Stack)),
        Some((size, base)) => Ok(
            SectionReport {
                text: seen_text,
                bss,
                data,
                heap,
                stack_size: size,
                stack_base: base,
                others,
            },
        ),
    }
}

} // verus!
