//! The grammar of a section report, on bytes.
//!
//! A report is text in lines. A line is split into fields at blanks, and a
//! field that stands for a size or an address is a decimal number.

use vstd::prelude::*;

verus! {

/// The byte that ends a line.
pub const LINE_FEED: u8 = 0x0a;

/// The byte `.`, with which the name of a section begins.
pub const DOT: u8 = 0x2e;

/// The byte `+`, which may stand before the digits of a number.
pub const PLUS: u8 = 0x2b;

/// The byte `0`.
pub const DIGIT_ZERO: u8 = 0x30;

/// The byte `9`.
pub const DIGIT_NINE: u8 = 0x39;

/// The byte of a space.
pub const SPACE: u8 = 0x20;

/// The first of the five control bytes that count as blanks: tab, line feed,
/// vertical tab, form feed, carriage return.
pub const TAB: u8 = 0x09;

/// The last of those five.
pub const CARRIAGE_RETURN: u8 = 0x0d;

/// The kinds of byte that a run is made of.
#[derive(Debug, Clone, Copy, PartialEq, Eq, Structural)]
pub enum ByteClass {
    /// What separates fields.
    Blank,
    /// What a field is made of: anything but a blank.
    Solid,
    /// What a line is made of: anything but a line feed.
    Inline,
}

/// `b` separates fields.
pub open spec fn is_blank(b: u8) -> bool {
    b == SPACE || TAB <= b <= CARRIAGE_RETURN
}

/// `b` is of the class `class`.
pub open spec fn in_class(b: u8, class: ByteClass) -> bool {
    match class {
        ByteClass::Blank => is_blank(b),
        ByteClass::Solid => !is_blank(b),
        ByteClass::Inline => b != LINE_FEED,
    }
}

/// The number of bytes at the front of `s` that are of the class `class`.
pub open spec fn run_len(s: Seq<u8>, class: ByteClass) -> nat
    decreases s.len(),
{
    if s.len() > 0 && in_class(s[0], class) {
        1 + run_len(s.skip(1), class)
    } else {
        0
    }
}

/// A run is a prefix, all of its bytes are of the class, and the byte after
/// it, if there is one, is not.
pub proof fn lemma_run_len_is_maximal(s: Seq<u8>, class: ByteClass)
    ensures
        run_len(s, class) <= s.len(),
        forall|j: int| 0 <= j < run_len(s, class) ==> in_class(#[trigger] s[j], class),
        run_len(s, class) < s.len() ==> !in_class(s[run_len(s, class) as int], class),
    decreases s.len(),
{
    if s.len() > 0 && in_class(s[0], class) {
        let rest = s.skip(1);
        lemma_run_len_is_maximal(rest, class);
        assert forall|j: int| 0 <= j < run_len(s, class) implies in_class(
            #[trigger] s[j],
            class,
        ) by {
            if j > 0 {
                assert(s[j] == rest[j - 1]);
            }
        }
        if run_len(s, class) < s.len() {
            assert(s[run_len(s, class) as int] == rest[run_len(rest, class) as int]);
        }
    }
}

/// A prefix of `k` bytes of the class, followed by the end or by a byte that
/// is not of it, is the run.
pub proof fn lemma_run_len_unique(s: Seq<u8>, class: ByteClass, k: int)
    requires
        0 <= k <= s.len(),
        forall|j: int| 0 <= j < k ==> in_class(#[trigger] s[j], class),
        k < s.len() ==> !in_class(s[k], class),
    ensures
        run_len(s, class) == k,
    decreases k,
{
    if k > 0 {
        let rest = s.skip(1);
        assert forall|j: int| 0 <= j < k - 1 implies in_class(#[trigger] rest[j], class) by {
            assert(rest[j] == s[j + 1]);
        }
        lemma_run_len_unique(rest, class, k - 1);
    }
}

/// The lines of `text`: what stands between its line feeds. A line feed at
/// the very end closes the last line and opens no further one.
pub open spec fn lines(text: Seq<u8>) -> Seq<Seq<u8>>
    decreases text.len(),
{
    if text.len() == 0 {
        Seq::empty()
    } else {
        let n = run_len(text, ByteClass::Inline) as int;
        if n >= text.len() {
            seq![text]
        } else {
            seq![text.take(n)] + lines(text.skip(n + 1))
        }
    }
}

/// The fields of `s`: its runs of bytes that are not blank, in order.
pub open spec fn fields(s: Seq<u8>) -> Seq<Seq<u8>>
    decreases s.len(),
{
    let lead = run_len(s, ByteClass::Blank) as int;
    if lead >= s.len() {
        Seq::empty()
    } else {
        let rest = s.skip(lead);
        let n = run_len(rest, ByteClass::Solid) as int;
        proof {
            // after the blanks stands a byte that is not one, so the field is not empty
            lemma_run_len_is_maximal(s, ByteClass::Blank);
            lemma_run_len_is_maximal(rest, ByteClass::Solid);
            assert(rest[0] == s[lead]);
        }
        seq![rest.take(n)] + fields(rest.skip(n))
    }
}

/// `line` holds no line feed.
pub open spec fn is_line(line: Seq<u8>) -> bool {
    forall|j: int| 0 <= j < line.len() ==> #[trigger] line[j] != LINE_FEED
}

/// `field` is not empty and holds no blank.
pub open spec fn is_field(field: Seq<u8>) -> bool {
    field.len() > 0 && forall|j: int| 0 <= j < field.len() ==> !is_blank(#[trigger] field[j])
}

/// The text in which each of `ls` is closed with a line feed.
pub open spec fn closed(ls: Seq<Seq<u8>>) -> Seq<u8>
    decreases ls.len(),
{
    if ls.len() == 0 {
        Seq::empty()
    } else {
        ls.first().push(LINE_FEED) + closed(ls.drop_first())
    }
}

/// The lines of a text hold no line feed, and, each closed with a line feed,
/// they make up the text. Only the line feed of the last line may be missing
/// in the text.
pub proof fn lemma_lines_make_up_text(text: Seq<u8>)
    ensures
        forall|i: int| 0 <= i < lines(text).len() ==> is_line(#[trigger] lines(text)[i]),
        text.len() == 0 ==> lines(text).len() == 0,
        text.len() > 0 && text.last() == LINE_FEED ==> closed(lines(text)) == text,
        text.len() > 0 && text.last() != LINE_FEED ==> closed(lines(text)) == text.push(
            LINE_FEED,
        ),
    decreases text.len(),
{
    if text.len() > 0 {
        let n = run_len(text, ByteClass::Inline) as int;
        lemma_run_len_is_maximal(text, ByteClass::Inline);
        if n >= text.len() {
            let only = lines(text);
            assert(only =~= seq![text]);
            assert(only.first() == text);
            assert(only.drop_first() =~= Seq::<Seq<u8>>::empty());
            assert(closed(only.drop_first()) =~= Seq::<u8>::empty());
            assert(closed(only) =~= text.push(LINE_FEED));
            assert(text.last() != LINE_FEED);
        } else {
            let head = text.take(n);
            let tail = text.skip(n + 1);
            lemma_lines_make_up_text(tail);
            assert(lines(text).first() == head);
            assert(lines(text).drop_first() =~= lines(tail));
            assert forall|i: int| 0 <= i < lines(text).len() implies is_line(
                #[trigger] lines(text)[i],
            ) by {
                if i > 0 {
                    assert(lines(text)[i] == lines(tail)[i - 1]);
                }
            }
            assert(text =~= head.push(LINE_FEED) + tail);
            if tail.len() == 0 {
                assert(closed(lines(tail)) =~= Seq::<u8>::empty());
                assert(closed(lines(text)) =~= text);
            } else if tail.last() == LINE_FEED {
                assert(text.last() == tail.last());
                assert(closed(lines(text)) =~= text);
            } else {
                assert(text.last() == tail.last());
                assert(closed(lines(text)) =~= text.push(LINE_FEED));
            }
        }
    }
}

/// No field is empty and none holds a blank.
pub proof fn lemma_fields_hold_no_blank(s: Seq<u8>)
    ensures
        forall|i: int| 0 <= i < fields(s).len() ==> is_field(#[trigger] fields(s)[i]),
    decreases s.len(),
{
    let lead = run_len(s, ByteClass::Blank) as int;
    lemma_run_len_is_maximal(s, ByteClass::Blank);
    if lead < s.len() {
        let rest = s.skip(lead);
        let n = run_len(rest, ByteClass::Solid) as int;
        lemma_run_len_is_maximal(rest, ByteClass::Solid);
        assert(rest[0] == s[lead]);
        let head = rest.take(n);
        let tail = rest.skip(n);
        lemma_fields_hold_no_blank(tail);
        assert forall|j: int| 0 <= j < head.len() implies !is_blank(#[trigger] head[j]) by {
            assert(head[j] == rest[j]);
            assert(in_class(rest[j], ByteClass::Solid));
        }
        assert forall|i: int| 0 <= i < fields(s).len() implies is_field(
            #[trigger] fields(s)[i],
        ) by {
            if i > 0 {
                assert(fields(s)[i] == fields(tail)[i - 1]);
            } else {
                assert(fields(s)[0] == head);
            }
        }
    }
}

/// `b` is a decimal digit.
pub open spec fn is_digit(b: u8) -> bool {
    DIGIT_ZERO <= b <= DIGIT_NINE
}

/// Every byte of `s` is a decimal digit.
pub open spec fn all_digits(s: Seq<u8>) -> bool {
    forall|i: int| 0 <= i < s.len() ==> is_digit(#[trigger] s[i])
}

/// The number that the digits `s` write in base ten.
pub open spec fn digits_value(s: Seq<u8>) -> nat
    decreases s.len(),
{
    if s.len() == 0 {
        0
    } else {
        digits_value(s.drop_last()) * 10 + (s.last() - DIGIT_ZERO) as nat
    }
}

/// `field` without the sign that may stand before its digits.
pub open spec fn unsigned(field: Seq<u8>) -> Seq<u8> {
    if field.len() > 0 && field[0] == PLUS {
        field.skip(1)
    } else {
        field
    }
}

/// The number that `field` stands for: an optional `+`, at least one digit,
/// nothing else, and a value of at most 32 bits.
pub open spec fn number(field: Seq<u8>) -> Option<u32> {
    let digits = unsigned(field);
    if digits.len() > 0 && all_digits(digits) && digits_value(digits) <= u32::MAX {
        Some(digits_value(digits) as u32)
    } else {
        None
    }
}

/// More digits never write a smaller number.
pub proof fn lemma_digits_value_grows(s: Seq<u8>, k: int)
    requires
        0 <= k <= s.len(),
    ensures
        digits_value(s.take(k)) <= digits_value(s),
    decreases s.len() - k,
{
    if k == s.len() {
        assert(s.take(k) =~= s);
    } else {
        lemma_digits_value_grows(s, k + 1);
        assert(s.take(k + 1).drop_last() =~= s.take(k));
    }
}

/// Tells whether `b` separates fields.
pub fn blank(b: u8) -> (r: bool)
    ensures
        r == is_blank(b),
{
    b == SPACE || (TAB <= b && b <= CARRIAGE_RETURN)
}

/// Tells whether `b` is of the class `class`.
pub fn belongs(b: u8, class: ByteClass) -> (r: bool)
    ensures
        r == in_class(b, class),
{
    match class {
        ByteClass::Blank => blank(b),
        ByteClass::Solid => !blank(b),
        ByteClass::Inline => b != LINE_FEED,
    }
}

/// The end of the run of `class` that begins at `from`.
pub fn run_end(text: &[u8], from: usize, class: ByteClass) -> (to: usize)
    requires
        from <= text.len(),
    ensures
        from <= to <= text.len(),
        to - from == run_len(text@.skip(from as int), class),
{
    let mut to: usize = from;
    while to < text.len() && belongs(text[to], class)
        invariant
            from <= to <= text.len(),
            forall|j: int| from <= j < to ==> in_class(#[trigger] text@[j], class),
        decreases text.len() - to,
    {
        to = to + 1;
    }
    proof {
        let s = text@.skip(from as int);
        assert forall|j: int| 0 <= j < to - from implies in_class(#[trigger] s[j], class) by {
            assert(s[j] == text@[from + j]);
        }
        lemma_run_len_unique(s, class, to - from);
    }
    to
}

/// The first field of `s` at or after `from`, as the positions at which it
/// begins and ends; `None` where only blanks are left.
pub fn next_field(s: &[u8], from: usize) -> (r: Option<(usize, usize)>)
    requires
        from <= s.len(),
    ensures
        match r {
            None => fields(s@.skip(from as int)).len() == 0,
            Some((a, b)) => {
                &&& from <= a < b <= s.len()
                &&& a - from == run_len(s@.skip(from as int), ByteClass::Blank)
                &&& b - a == run_len(s@.skip(a as int), ByteClass::Solid)
                &&& fields(s@.skip(from as int)) == seq![s@.subrange(a as int, b as int)] + fields(
                    s@.skip(b as int),
                )
            },
        },
{
    let a: usize = run_end(s, from, ByteClass::Blank);
    if a >= s.len() {
        return None;
    }
    let b: usize = run_end(s, a, ByteClass::Solid);
    proof {
        let tail = s@.skip(from as int);
        let rest = tail.skip(a - from);
        assert(rest =~= s@.skip(a as int));
        lemma_run_len_is_maximal(tail, ByteClass::Blank);
        assert(tail[a - from] == s@[a as int]);
        assert(!is_blank(s@[a as int]));
        assert(rest[0] == s@[a as int]);
        assert(run_len(rest, ByteClass::Solid) >= 1);
        assert(rest.take(b - a) =~= s@.subrange(a as int, b as int));
        assert(rest.skip(b - a) =~= s@.skip(b as int));
    }
    Some((a, b))
}

/// Reads the number that `field` stands for.
pub fn parse_number(field: &[u8]) -> (r: Option<u32>)
    ensures
        r == number(field@),
{
    let start: usize = if field.len() > 0 && field[0] == PLUS {
        1
    } else {
        0
    };
    if start >= field.len() {
        return None;
    }
    let ghost digits = unsigned(field@);
    assert(digits =~= field@.skip(start as int));
    let mut value: u64 = 0;
    let mut i: usize = start;
    while i < field.len()
        invariant
            start <= i <= field.len(),
            start <= 1,
            digits == field@.skip(start as int),
            digits == unsigned(field@),
            all_digits(digits.take(i - start)),
            value == digits_value(digits.take(i - start)),
            value <= u32::MAX,
        decreases field.len() - i,
    {
        let b: u8 = field[i];
        if b < DIGIT_ZERO || b > DIGIT_NINE {
            proof {
                assert(digits[i - start] == b);
            }
            return None;
        }
        proof {
            let shorter = digits.take(i - start);
            let longer = digits.take(i - start + 1);
            assert(longer.drop_last() =~= shorter);
            assert(longer.last() == b);
            assert forall|j: int| 0 <= j < longer.len() implies is_digit(#[trigger] longer[j]) by {
                if j < shorter.len() {
                    assert(longer[j] == shorter[j]);
                }
            }
            lemma_digits_value_grows(digits, i - start + 1);
        }
        value = value * 10 + (b - DIGIT_ZERO) as u64;
        if value > u32::MAX as u64 {
            return None;
        }
        i = i + 1;
    }
    proof {
        assert(digits.take(i - start) =~= digits);
    }
    Some(value as u32)
}

} // verus!
