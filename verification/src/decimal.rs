//! Numbers written in base ten.

use vstd::prelude::*;
use vstd::string::*;
use crate::grammar::{all_digits, digits_value, is_digit, number, DIGIT_ZERO};

verus! {

/// The character of the digit `d`.
pub open spec fn digit(d: nat) -> char
    recommends
        d < 10,
{
    "0123456789"@[d as int]
}

/// `n` written in base ten, without leading zeros.
pub open spec fn decimal(n: nat) -> Seq<char>
    decreases n,
{
    if n < 10 {
        seq![digit(n)]
    } else {
        decimal(n / 10).push(digit(n % 10))
    }
}

/// The bytes of a text of one-byte characters.
pub open spec fn bytes_of(text: Seq<char>) -> Seq<u8> {
    Seq::new(text.len(), |i: int| text[i] as u8)
}

/// What is written here as a number is made of digits alone, and they write
/// that number.
pub proof fn lemma_decimal_is_digits(n: nat)
    ensures
        decimal(n).len() >= 1,
        all_digits(bytes_of(decimal(n))),
        digits_value(bytes_of(decimal(n))) == n,
    decreases n,
{
    reveal_strlit("0123456789");
    let text = bytes_of(decimal(n));
    if n < 10 {
        assert(text.drop_last() =~= Seq::<u8>::empty());
        assert(digits_value(text.drop_last()) == 0);
        assert(text.last() == DIGIT_ZERO + n);
    } else {
        lemma_decimal_is_digits(n / 10);
        let front = bytes_of(decimal(n / 10));
        assert(text.drop_last() =~= front);
        assert(text.last() == DIGIT_ZERO + n % 10);
        assert forall|i: int| 0 <= i < text.len() implies is_digit(#[trigger] text[i]) by {
            if i < front.len() {
                assert(text[i] == front[i]);
            }
        }
    }
}

/// A size or an address of 32 bits that is written here is read back as
/// itself by the grammar of the section report.
pub proof fn lemma_decimal_is_read_back(n: u32)
    ensures
        number(bytes_of(decimal(n as nat))) == Some(n),
{
    reveal_strlit("0123456789");
    lemma_decimal_is_digits(n as nat);
    let text = bytes_of(decimal(n as nat));
    assert(is_digit(text[0]));
}

/// Writes `n` in base ten.
pub fn render_decimal(n: u64) -> (r: String)
    ensures
        r@ == decimal(n as nat),
    decreases n,
{
    proof {
        reveal_strlit("0123456789");
    }
    let digits: &str = "0123456789";
    let last: usize = (n % 10) as usize;
    let unit: &str = digits.substring_ascii(last, last + 1);
    assert(unit@ =~= seq![digit((n % 10) as nat)]);
    if n < 10 {
        String::from_str(unit)
    } else {
        let mut r: String = render_decimal(n / 10);
        r.append(unit);
        assert(r@ =~= decimal((n / 10) as nat).push(digit((n % 10) as nat)));
        r
    }
}

} // verus!
