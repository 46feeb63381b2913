//! Rounding of sizes to an alignment.

use vstd::prelude::*;
use vstd::arithmetic::div_mod::{
    lemma_div_pos_is_pos, lemma_fundamental_div_mod, lemma_mod_bound, lemma_mod_multiples_vanish,
};

verus! {

/// `m` is a whole number of units of `align`.
pub open spec fn is_multiple(m: int, align: int) -> bool
    recommends
        align > 0,
{
    m % align == 0
}

/// The size `n` padded to the next boundary of `align`.
pub open spec fn round_up(n: nat, align: nat) -> nat
    recommends
        align > 0,
{
    if n % align == 0 {
        n
    } else {
        (n + align - n % align) as nat
    }
}

/// The address `n` cut back to the boundary of `align` at or below it.
pub open spec fn round_down(n: nat, align: nat) -> nat
    recommends
        align > 0,
{
    (n - n % align) as nat
}

/// `round_down(n, align)` is the greatest multiple of `align` that does not
/// exceed `n`.
pub proof fn lemma_round_down_is_greatest(n: nat, align: nat)
    requires
        align > 0,
    ensures
        n % align <= n,
        n % align < align,
        is_multiple(round_down(n, align) as int, align as int),
        round_down(n, align) <= n < round_down(n, align) + align,
        round_down(n, align) == (n / align) * align,
        forall|m: int| is_multiple(m, align as int) && m <= n ==> m <= round_down(n, align),
{
    let a = align as int;
    let d = round_down(n, align) as int;
    lemma_mod_bound(n as int, a);
    lemma_fundamental_div_mod(n as int, a);
    lemma_div_pos_is_pos(n as int, a);
    assert(a * (n as int / a) >= 0) by (nonlinear_arith)
        requires
            a > 0,
            n as int / a >= 0,
    ;
    assert(d == a * (n as int / a));
    assert((a * (n as int / a)) % a == 0) by {
        lemma_mod_multiples_vanish(n as int / a, 0, a);
    }
    assert(a * (n as int / a) == (n as int / a) * a) by (nonlinear_arith);
    assert forall|m: int| is_multiple(m, a) && m <= n implies m <= d by {
        lemma_fundamental_div_mod(m, a);
        // m = a * qm and d = a * qd with m < d + a, so qm <= qd
        let qm = m / a;
        let qd = n as int / a;
        assert(m == a * qm);
        assert(a * qm < a * qd + a);
        assert(qm <= qd) by (nonlinear_arith)
            requires
                a > 0,
                a * qm < a * qd + a,
        ;
        assert(a * qm <= a * qd) by (nonlinear_arith)
            requires
                a > 0,
                qm <= qd,
        ;
    }
}

/// `round_up(n, align)` is the least multiple of `align` that is not below `n`.
/// Zero is a multiple of every alignment, so zero stays zero.
pub proof fn lemma_round_up_is_least(n: nat, align: nat)
    requires
        align > 0,
    ensures
        is_multiple(round_up(n, align) as int, align as int),
        n <= round_up(n, align) < n + align,
        forall|m: int| is_multiple(m, align as int) && m >= n ==> m >= round_up(n, align),
        n == 0 ==> round_up(n, align) == 0,
{
    let a = align as int;
    let r = round_up(n, align) as int;
    lemma_round_down_is_greatest(n, align);
    let d = round_down(n, align) as int;
    if n % align != 0 {
        assert(r == d + a);
        assert((d + a) % a == 0) by {
            lemma_fundamental_div_mod(n as int, a);
            lemma_mod_multiples_vanish(n as int / a + 1, 0, a);
            assert(a * (n as int / a + 1) == a * (n as int / a) + a) by (nonlinear_arith);
        }
    }
    assert forall|m: int| is_multiple(m, a) && m >= n implies m >= r by {
        if n % align != 0 {
            // a multiple strictly between d and d + a would leave a remainder
            lemma_fundamental_div_mod(m, a);
            lemma_fundamental_div_mod(n as int, a);
            let qm = m / a;
            let qd = n as int / a;
            assert(m == a * qm);
            assert(d == a * qd);
            assert(a * qm > a * qd);
            assert(qm >= qd + 1) by (nonlinear_arith)
                requires
                    a > 0,
                    a * qm > a * qd,
            ;
            assert(a * qm >= a * qd + a) by (nonlinear_arith)
                requires
                    a > 0,
                    qm >= qd + 1,
            ;
        }
    }
}

/// Rounds `n` up to the next multiple of `align`.
///
/// The result is wider than the arguments, so every size of 32 bits has its
/// rounded value, whatever the alignment.
pub fn roundup(n: u32, align: u32) -> (r: u64)
    requires
        align >= 1,
    ensures
        r == round_up(n as nat, align as nat),
        is_multiple(r as int, align as int),
        r >= n,
        forall|m: int| is_multiple(m, align as int) && m >= n ==> m >= r,
        n == 0 ==> r == 0,
{
    proof {
        lemma_round_down_is_greatest(n as nat, align as nat);
        lemma_round_up_is_least(n as nat, align as nat);
    }
    let wide: u64 = n as u64;
    let unit: u64 = align as u64;
    let over: u64 = wide % unit;
    if over == 0 {
        wide
    } else {
        wide - over + unit
    }
}

/// Cuts the address `n` back to a multiple of `align`.
pub fn rounddown(n: u64, align: u32) -> (r: u64)
    requires
        align >= 1,
    ensures
        r == round_down(n as nat, align as nat),
        is_multiple(r as int, align as int),
        r <= n < r + align,
        forall|m: int| is_multiple(m, align as int) && m <= n ==> m <= r,
{
    proof {
        lemma_round_down_is_greatest(n as nat, align as nat);
    }
    let unit: u64 = align as u64;
    n - n % unit
}

} // verus!
