//! The text of a binary64 number with two decimal places.

use crate::binary64::{quantum_exponent, Binary64, HIDDEN_BIT};
use crate::decimal::{decimal, digit_char, digit_str, Numeral};
use vstd::arithmetic::div_mod::{
    lemma_basic_div, lemma_fundamental_div_mod, lemma_div_by_multiple, lemma_div_multiples_vanish_quotient,
    lemma_mod_multiples_basic, lemma_small_mod, lemma_truncate_middle,
};
use vstd::arithmetic::mul::{lemma_mul_is_associative, lemma_mul_is_commutative};
use vstd::arithmetic::power2::{
    lemma2_to64, lemma2_to64_rest, lemma_pow2_adds, lemma_pow2_pos, lemma_pow2_strictly_increases,
    lemma_pow2_unfold, pow2,
};
use vstd::prelude::*;
use vstd::string::StringExecFns;

verus! {

/// The integer nearest to `num / den`; of two that are equally near, the
/// even one.
pub open spec fn round_half_even(num: nat, den: nat) -> nat {
    let quotient: nat = num / den;
    let rest: nat = num % den;
    if 2 * rest > den || (2 * rest == den && quotient % 2 == 1) {
        quotient + 1
    } else {
        quotient
    }
}

impl Binary64 {
    /// The magnitude in hundredths, rounded to the nearest whole number of
    /// them, a tie to the even one.
    pub open spec fn hundredths(self) -> nat {
        round_half_even(self.magnitude() * 100, pow2(quantum_exponent()))
    }

    /// The text with two decimal places.
    ///
    /// A NaN is `NaN`, whatever its sign bit. Any other number starts with `-`
    /// if its sign bit is set, also where it is or rounds to zero. An
    /// infinity is `inf`. A finite number shows its rounded hundredths: the
    /// whole part without leading zeros, a point, and two digits.
    pub open spec fn fixed2_text(self) -> Seq<char> {
        if self.is_nan() {
            seq!['N', 'a', 'N']
        } else {
            let sign: Seq<char> = if self.is_sign_negative() {
                seq!['-']
            } else {
                Seq::empty()
            };
            if self.is_infinite() {
                sign + seq!['i', 'n', 'f']
            } else {
                let h: nat = self.hundredths();
                sign + decimal(h / 100) + seq!['.', digit_char(h / 10 % 10), digit_char(h % 10)]
            }
        }
    }

    /// The text with two decimal places.
    pub fn fixed2(self) -> (text: String)
        ensures
            text@ == self.fixed2_text(),
    {
        if self.is_nan() {
            proof {
                reveal_strlit("NaN");
            }
            let text = String::from_str("NaN");
            assert(text@ =~= seq!['N', 'a', 'N']);
            return text;
        }
        let mut text = String::new();
        if self.is_sign_negative() {
            proof {
                reveal_strlit("-");
            }
            text.append("-");
        }
        let ghost sign = text@;
        assert(sign =~= if self.is_sign_negative() {
            seq!['-']
        } else {
            Seq::empty()
        });
        if self.is_infinite() {
            proof {
                reveal_strlit("inf");
            }
            text.append("inf");
            assert(text@ =~= sign + seq!['i', 'n', 'f']);
            return text;
        }
        let magnitude: u64 = self.abs_bits();
        let exponent: u64 = magnitude / HIDDEN_BIT;
        let fraction: u64 = magnitude % HIDDEN_BIT;
        if exponent >= 1075 {
            let significand: u64 = HIDDEN_BIT + fraction;
            let doublings: u64 = exponent - 1075;
            let mut whole = Numeral::from_u64(significand);
            let mut done: u64 = 0;
            proof {
                lemma2_to64();
            }
            while done < doublings
                invariant
                    done <= doublings,
                    whole.value() == significand * pow2(done as nat),
                decreases doublings - done,
            {
                whole = whole.double();
                proof {
                    lemma_pow2_unfold((done + 1) as nat);
                    lemma_mul_is_associative(
                        significand as int,
                        2,
                        pow2(done as nat) as int,
                    );
                    lemma_mul_is_commutative(significand as int, 2);
                    lemma_mul_is_associative(
                        2,
                        significand as int,
                        pow2(done as nat) as int,
                    );
                }
                done += 1;
            }
            proof {
                lemma_whole_hundredths(self);
                reveal_strlit(".00");
            }
            whole.append_to(&mut text);
            text.append(".00");
            assert(text@ =~= self.fixed2_text());
        } else {
            let significand: u64 = if exponent == 0 {
                fraction
            } else {
                HIDDEN_BIT + fraction
            };
            let shift: u64 = if exponent == 0 {
                1074
            } else {
                1075 - exponent
            };
            let h: u64 = round_shift(significand * 100, shift);
            proof {
                lemma_scaled_hundredths(self);
                reveal_strlit(".");
            }
            let whole = Numeral::from_u64(h / 100);
            whole.append_to(&mut text);
            text.append(".");
            text.append(digit_str((h / 10 % 10) as u8));
            text.append(digit_str((h % 10) as u8));
            assert(text@ =~= self.fixed2_text());
        }
        text
    }
}

/// Two to the power `exponent`.
fn pow2_u64(exponent: u64) -> (power: u64)
    requires
        exponent <= 63,
    ensures
        power == pow2(exponent as nat),
{
    let mut power: u64 = 1;
    let mut done: u64 = 0;
    proof {
        lemma2_to64();
    }
    while done < exponent
        invariant
            done <= exponent <= 63,
            power == pow2(done as nat),
        decreases exponent - done,
    {
        proof {
            lemma_pow2_unfold((done + 1) as nat);
            lemma2_to64_rest();
            if done + 1 < 63 {
                lemma_pow2_strictly_increases((done + 1) as nat, 63);
            }
        }
        power = power * 2;
        done += 1;
    }
    power
}

/// `num / 2^shift`, rounded to the nearest integer, a tie to the even one.
pub fn round_shift(num: u64, shift: u64) -> (rounded: u64)
    ensures
        rounded == round_half_even(num as nat, pow2(shift as nat)),
{
    if shift >= 64 {
        proof {
            lemma2_to64_rest();
            if shift > 64 {
                lemma_pow2_strictly_increases(64, shift as nat);
                lemma_pow2_unfold(65);
                if shift > 65 {
                    lemma_pow2_strictly_increases(65, shift as nat);
                }
            }
            lemma_basic_div(num as int, pow2(shift as nat) as int);
            lemma_small_mod(num as nat, pow2(shift as nat));
        }
        if shift == 64 && num > 0x8000_0000_0000_0000 {
            1
        } else {
            0
        }
    } else {
        let den: u64 = pow2_u64(shift);
        proof {
            lemma_pow2_pos(shift as nat);
        }
        let quotient: u64 = num / den;
        let rest: u64 = num % den;
        let short: u64 = den - rest;
        if rest > short || (rest == short && quotient % 2 == 1) {
            proof {
                lemma_fundamental_div_mod(num as int, den as int);
            }
            assert(quotient < u64::MAX) by (nonlinear_arith)
                requires
                    num == den * quotient + rest,
                    den >= 2,
                    num <= u64::MAX,
                    rest >= 1,
                    quotient >= 0,
            ;
            quotient + 1
        } else {
            quotient
        }
    }
}

/// Rounding a ratio does not depend on a common factor of its two parts.
pub proof fn lemma_round_common_factor(num: nat, den: nat, factor: nat)
    requires
        den > 0,
        factor > 0,
    ensures
        round_half_even(factor * num, factor * den) == round_half_even(num, den),
{
    lemma_div_multiples_vanish_quotient(factor as int, num as int, den as int);
    lemma_truncate_middle(num as int, factor as int, den as int);
    let rest: nat = num % den;
    assert(2 * (factor * rest) > factor * den <==> 2 * rest > den) by (nonlinear_arith)
        requires
            factor > 0,
    ;
    assert(2 * (factor * rest) == factor * den <==> 2 * rest == den) by (nonlinear_arith)
        requires
            factor > 0,
    ;
}

/// Below `2^52`, the significand decides the hundredths: for a subnormal
/// number, with exponent field 0 and fraction `f`, they are `100 * f / 2^1074`,
/// rounded; for a normal number with exponent field `e < 1075`, they are
/// `100 * (2^52 + f) / 2^(1075 - e)`, rounded.
pub proof fn lemma_scaled_hundredths(x: Binary64)
    requires
        x.exponent_field() < 1075,
    ensures
        x.exponent_field() == 0 ==> x.hundredths() == round_half_even(
            x.fraction_field() * 100,
            pow2(1074),
        ),
        x.exponent_field() >= 1 ==> x.hundredths() == round_half_even(
            ((HIDDEN_BIT + x.fraction_field()) * 100) as nat,
            pow2((1075 - x.exponent_field()) as nat),
        ),
{
    let e: nat = x.exponent_field();
    let f: nat = x.fraction_field();
    if e >= 1 {
        let s: nat = (HIDDEN_BIT + f) as nat;
        let up: nat = (e - 1) as nat;
        let down: nat = (1075 - e) as nat;
        let factor: nat = pow2(up);
        lemma_pow2_pos(up);
        lemma_pow2_pos(down);
        lemma_pow2_adds(up, down);
        assert(pow2(quantum_exponent()) == factor * pow2(down));
        assert(x.magnitude() * 100 == factor * (s * 100)) by (nonlinear_arith)
            requires
                x.magnitude() == s * factor,
        ;
        lemma_round_common_factor(s * 100, pow2(down), factor);
    }
}

/// From `2^52` on, a number is whole: with exponent field `e >= 1075` and
/// fraction `f`, its hundredths are a hundred times
/// `(2^52 + f) * 2^(e - 1075)`.
pub proof fn lemma_whole_hundredths(x: Binary64)
    requires
        x.exponent_field() >= 1075,
    ensures
        x.hundredths() == 100 * ((HIDDEN_BIT + x.fraction_field()) * pow2(
            (x.exponent_field() - 1075) as nat,
        )),
{
    let e: nat = x.exponent_field();
    let f: nat = x.fraction_field();
    let s: nat = (HIDDEN_BIT + f) as nat;
    let k: nat = (e - 1075) as nat;
    let unit: nat = pow2(quantum_exponent());
    let whole: nat = s * pow2(k);
    lemma_pow2_pos(quantum_exponent());
    lemma_pow2_adds(k, quantum_exponent());
    assert(pow2((e - 1) as nat) == pow2(k) * unit);
    assert(x.magnitude() * 100 == (100 * whole) * unit) by (nonlinear_arith)
        requires
            x.magnitude() == s * (pow2(k) * unit),
            whole == s * pow2(k),
    ;
    lemma_div_by_multiple((100 * whole) as int, unit as int);
    lemma_mod_multiples_basic((100 * whole) as int, unit as int);
}

} // verus!
