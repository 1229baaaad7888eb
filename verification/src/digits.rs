//! Decimal and upper-case hexadecimal renderings of numbers.

use vstd::prelude::*;

verus! {

pub open spec fn pow_of(base: nat, k: nat) -> nat
    decreases k,
{
    if k == 0 { 1 } else { base * pow_of(base, (k - 1) as nat) }
}

pub open spec fn digit_byte(d: nat) -> u8 {
    if d < 10 { (48 + d) as u8 } else { (55 + d) as u8 }
}

/// The digits of `v` in `base` (10 or 16), most significant first, without
/// leading zeros; upper-case letters for hexadecimal digits.
pub open spec fn digits_of(v: nat, base: nat) -> Seq<u8>
    decreases v,
{
    if base < 2 || v < base {
        seq![digit_byte(v)]
    } else {
        proof {
            vstd::arithmetic::div_mod::lemma_div_decreases(v as int, base as int);
        }
        digits_of(v / base, base).push(digit_byte(v % base))
    }
}

pub proof fn lemma_digits_len(v: nat, base: nat, k: nat)
    requires
        2 <= base,
        1 <= k,
        v < pow_of(base, k),
    ensures
        digits_of(v, base).len() <= k,
    decreases k,
{
    if v >= base {
        assert(k >= 2) by {
            if k == 1 {
                assert(pow_of(base, 0) == 1);
                assert(pow_of(base, 1) == base * pow_of(base, 0));
                let p0 = pow_of(base, 0);
                assert(base * p0 == base) by (nonlinear_arith)
                    requires
                        p0 == 1,
                ;
            }
        }
        assert(pow_of(base, k) == base * pow_of(base, (k - 1) as nat));
        let p = pow_of(base, (k - 1) as nat);
        assert(v / base < p) by (nonlinear_arith)
            requires
                v < base * p,
                base >= 2,
        ;
        lemma_digits_len(v / base, base, (k - 1) as nat);
    }
}

/// Appends the digits of `v` in base 10 or 16.
pub fn push_digits(out: &mut Vec<u8>, v: u32, hex: bool)
    ensures
        final(out)@ == old(out)@ + digits_of(v as nat, if hex { 16nat } else { 10nat }),
    decreases v,
{
    let base: u32 = if hex { 16 } else { 10 };
    if v >= base {
        push_digits(out, v / base, hex);
    }
    let d = v % base;
    let b: u8 = if d < 10 { (48 + d) as u8 } else { (55 + d) as u8 };
    out.push(b);
    proof {
        let bn: nat = if hex { 16nat } else { 10nat };
        if v >= base {
            assert(digits_of(v as nat, bn) == digits_of((v / base) as nat, bn).push(digit_byte((v % base) as nat)));
        }
        assert(final(out)@ =~= old(out)@ + digits_of(v as nat, bn));
    }
}

} // verus!
