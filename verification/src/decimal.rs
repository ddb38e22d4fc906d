//! Decimal numerals: natural numbers of any size held by their digits, and the
//! text that shows them.

use vstd::prelude::*;
use vstd::string::StringExecFns;

verus! {

/// The character that shows the digit `d`.
pub open spec fn digit_char(d: nat) -> char {
    if d == 0 {
        '0'
    } else if d == 1 {
        '1'
    } else if d == 2 {
        '2'
    } else if d == 3 {
        '3'
    } else if d == 4 {
        '4'
    } else if d == 5 {
        '5'
    } else if d == 6 {
        '6'
    } else if d == 7 {
        '7'
    } else if d == 8 {
        '8'
    } else {
        '9'
    }
}

/// The decimal text of `n`: most significant digit first, no leading zero
/// but for zero itself.
pub open spec fn decimal(n: nat) -> Seq<char>
    decreases n,
{
    if n < 10 {
        seq![digit_char(n)]
    } else {
        decimal(n / 10).push(digit_char(n % 10))
    }
}

/// A natural number of any size, held by its decimal digits.
#[derive(Debug, PartialEq, Eq)]
pub struct Numeral {
    digits: Vec<u8>,
}

impl Numeral {
    #[verifier::type_invariant]
    spec fn well_formed(self) -> bool {
        is_numeral(self.digits@)
    }

    /// The number.
    pub closed spec fn value(self) -> nat {
        digits_value(self.digits@)
    }

    /// The numeral of a machine integer.
    pub fn from_u64(n: u64) -> (numeral: Numeral)
        ensures
            numeral.value() == n,
    {
        let mut digits: Vec<u8> = Vec::new();
        let mut rest: u64 = n;
        assert(digits@ + numeral(rest as nat) =~= numeral(n as nat));
        while rest >= 10
            invariant
                numeral(n as nat) == digits@ + numeral(rest as nat),
            decreases rest,
        {
            let ghost before = digits@;
            digits.push((rest % 10) as u8);
            assert(before + numeral(rest as nat) =~= digits@ + numeral((rest / 10) as nat));
            rest = rest / 10;
        }
        let ghost before = digits@;
        digits.push(rest as u8);
        assert(before + numeral(rest as nat) =~= digits@);
        proof {
            lemma_numeral(n as nat);
        }
        Numeral { digits }
    }

    /// The numeral of twice the number.
    pub fn double(&self) -> (twice: Numeral)
        ensures
            twice.value() == 2 * self.value(),
    {
        proof {
            use_type_invariant(self);
        }
        let mut twice: Vec<u8> = Vec::new();
        let mut carry: u8 = 0;
        let mut i: usize = 0;
        assert(self.digits@.skip(0) =~= self.digits@);
        assert(twice@ + doubled(self.digits@, 0) =~= doubled(self.digits@, 0));
        while i < self.digits.len()
            invariant
                i <= self.digits.len(),
                carry <= 1,
                all_digits(self.digits@),
                doubled(self.digits@, 0) == twice@ + doubled(
                    self.digits@.skip(i as int),
                    carry as nat,
                ),
            decreases self.digits.len() - i,
        {
            let ghost before = twice@;
            let ghost tail = self.digits@.skip(i as int);
            let sum: u8 = 2 * self.digits[i] + carry;
            assert(tail[0] == self.digits[i as int]);
            assert(tail.drop_first() =~= self.digits@.skip(i + 1));
            twice.push(sum % 10);
            assert(before + doubled(tail, carry as nat) =~= twice@ + doubled(
                self.digits@.skip(i + 1),
                (sum / 10) as nat,
            ));
            carry = sum / 10;
            i += 1;
        }
        let ghost before = twice@;
        assert(self.digits@.skip(i as int) =~= Seq::<u8>::empty());
        if carry > 0 {
            twice.push(carry);
        }
        assert(twice@ =~= before + doubled(Seq::<u8>::empty(), carry as nat));
        proof {
            lemma_doubled(self.digits@, 0);
        }
        Numeral { digits: twice }
    }

    /// Appends the decimal text of the number to `out`.
    pub fn append_to(&self, out: &mut String)
        ensures
            final(out)@ == old(out)@ + decimal(self.value()),
    {
        proof {
            use_type_invariant(self);
        }
        let ghost before = out@;
        let mut i: usize = self.digits.len();
        assert(self.digits@.skip(i as int) =~= Seq::<u8>::empty());
        assert(out@ =~= before + digits_text(self.digits@.skip(i as int)));
        while i > 0
            invariant
                i <= self.digits.len(),
                all_digits(self.digits@),
                out@ == before + digits_text(self.digits@.skip(i as int)),
            decreases i,
        {
            i -= 1;
            let ghost tail = self.digits@.skip(i as int);
            assert(tail[0] == self.digits[i as int]);
            assert(tail.drop_first() =~= self.digits@.skip(i + 1));
            out.append(digit_str(self.digits[i]));
            assert(out@ =~= before + digits_text(tail));
        }
        proof {
            assert(self.digits@.skip(0) =~= self.digits@);
            lemma_numeral_text(self.digits@);
        }
    }

    /// The decimal text of the number.
    pub fn text(&self) -> (text: String)
        ensures
            text@ == decimal(self.value()),
    {
        let mut text = String::new();
        self.append_to(&mut text);
        assert(Seq::<char>::empty() + decimal(self.value()) =~= decimal(self.value()));
        text
    }
}

/// The number that a sequence of digits stands for, least significant digit
/// first.
spec fn digits_value(digits: Seq<u8>) -> nat
    decreases digits.len(),
{
    if digits.len() == 0 {
        0
    } else {
        digits[0] as nat + 10 * digits_value(digits.drop_first())
    }
}

/// Whether every element is a decimal digit.
spec fn all_digits(digits: Seq<u8>) -> bool {
    forall|i: int| 0 <= i < digits.len() ==> #[trigger] digits[i] < 10
}

/// Whether a sequence of digits, least significant first, is a numeral: at
/// least one digit, and no leading zero but for the single digit of zero.
spec fn is_numeral(digits: Seq<u8>) -> bool {
    &&& digits.len() >= 1
    &&& all_digits(digits)
    &&& digits.len() > 1 ==> digits.last() != 0
}

/// The text of a sequence of digits, which reads it from its last digit to
/// its first.
spec fn digits_text(digits: Seq<u8>) -> Seq<char>
    decreases digits.len(),
{
    if digits.len() == 0 {
        Seq::empty()
    } else {
        digits_text(digits.drop_first()).push(digit_char(digits[0] as nat))
    }
}

/// A numeral with more than one digit, or with one digit that is not zero,
/// stands for a positive number.
proof fn lemma_numeral_positive(digits: Seq<u8>)
    requires
        digits.len() >= 1,
        digits.last() != 0,
    ensures
        digits_value(digits) >= 1,
    decreases digits.len(),
{
    if digits.len() > 1 {
        let rest = digits.drop_first();
        assert(rest.last() == digits.last());
        lemma_numeral_positive(rest);
    }
}

/// The text of a numeral is the decimal text of the number it stands for.
proof fn lemma_numeral_text(digits: Seq<u8>)
    requires
        is_numeral(digits),
    ensures
        digits_text(digits) == decimal(digits_value(digits)),
    decreases digits.len(),
{
    let rest = digits.drop_first();
    if digits.len() == 1 {
        assert(rest.len() == 0);
        assert(digits_value(rest) == 0);
        assert(digits_text(rest) =~= Seq::<char>::empty());
        assert(digits_text(digits) =~= seq![digit_char(digits[0] as nat)]);
    } else {
        assert(rest.last() == digits.last());
        assert(is_numeral(rest)) by {
            assert forall|i: int| 0 <= i < rest.len() implies #[trigger] rest[i] < 10 by {
                assert(rest[i] == digits[i + 1]);
            }
        }
        lemma_numeral_text(rest);
        lemma_numeral_positive(rest);
        let n = digits_value(digits);
        let low = digits[0] as nat;
        let high = digits_value(rest);
        assert(n == low + 10 * high);
        assert(n / 10 == high && n % 10 == low);
    }
}

/// The text of one decimal digit.
pub(crate) fn digit_str(d: u8) -> (text: &'static str)
    requires
        d < 10,
    ensures
        text@ == seq![digit_char(d as nat)],
{
    proof {
        reveal_strlit("0");
        reveal_strlit("1");
        reveal_strlit("2");
        reveal_strlit("3");
        reveal_strlit("4");
        reveal_strlit("5");
        reveal_strlit("6");
        reveal_strlit("7");
        reveal_strlit("8");
        reveal_strlit("9");
    }
    let text = if d == 0 {
        "0"
    } else if d == 1 {
        "1"
    } else if d == 2 {
        "2"
    } else if d == 3 {
        "3"
    } else if d == 4 {
        "4"
    } else if d == 5 {
        "5"
    } else if d == 6 {
        "6"
    } else if d == 7 {
        "7"
    } else if d == 8 {
        "8"
    } else {
        "9"
    };
    assert(text@ =~= seq![digit_char(d as nat)]);
    text
}

/// The numeral of `n`: its decimal digits, least significant first.
spec fn numeral(n: nat) -> Seq<u8>
    decreases n,
{
    if n < 10 {
        seq![n as u8]
    } else {
        seq![(n % 10) as u8] + numeral(n / 10)
    }
}

/// `numeral(n)` is a numeral, and it stands for `n`.
proof fn lemma_numeral(n: nat)
    ensures
        is_numeral(numeral(n)),
        digits_value(numeral(n)) == n,
        n >= 1 ==> numeral(n).last() != 0,
    decreases n,
{
    let digits = numeral(n);
    if n < 10 {
        assert(digits.drop_first() =~= Seq::<u8>::empty());
        assert(digits_value(digits.drop_first()) == 0);
    } else {
        let rest = numeral(n / 10);
        lemma_numeral(n / 10);
        assert(digits.drop_first() =~= rest);
        assert(digits.last() == rest.last());
        assert forall|i: int| 0 <= i < digits.len() implies #[trigger] digits[i] < 10 by {
            if i > 0 {
                assert(digits[i] == rest[i - 1]);
            }
        }
    }
}

/// The digits of twice a number and a carry, from the digits of the number.
spec fn doubled(digits: Seq<u8>, carry: nat) -> Seq<u8>
    decreases digits.len(),
{
    if digits.len() == 0 {
        if carry == 0 {
            Seq::empty()
        } else {
            seq![carry as u8]
        }
    } else {
        let sum: nat = 2 * (digits[0] as nat) + carry;
        seq![(sum % 10) as u8] + doubled(digits.drop_first(), sum / 10)
    }
}

/// `doubled` gives digits, they stand for twice the number and the carry, and
/// a leading digit that is not zero is followed by one that is not zero.
proof fn lemma_doubled(digits: Seq<u8>, carry: nat)
    requires
        all_digits(digits),
        carry <= 1,
    ensures
        all_digits(doubled(digits, carry)),
        digits_value(doubled(digits, carry)) == 2 * digits_value(digits) + carry,
        digits.len() >= 1 ==> doubled(digits, carry).len() >= 1,
        digits.len() >= 1 && digits.last() != 0 ==> doubled(digits, carry).last() != 0,
    decreases digits.len(),
{
    let twice = doubled(digits, carry);
    if digits.len() == 0 {
        if carry != 0 {
            assert(twice.drop_first() =~= Seq::<u8>::empty());
            assert(digits_value(twice.drop_first()) == 0);
        }
    } else {
        let sum: nat = 2 * (digits[0] as nat) + carry;
        let rest = digits.drop_first();
        let twice_rest = doubled(rest, sum / 10);
        assert(all_digits(rest)) by {
            assert forall|i: int| 0 <= i < rest.len() implies #[trigger] rest[i] < 10 by {
                assert(rest[i] == digits[i + 1]);
            }
        }
        lemma_doubled(rest, sum / 10);
        assert(twice.drop_first() =~= twice_rest);
        assert forall|i: int| 0 <= i < twice.len() implies #[trigger] twice[i] < 10 by {
            if i > 0 {
                assert(twice[i] == twice_rest[i - 1]);
            }
        }
        if rest.len() >= 1 {
            assert(rest.last() == digits.last());
            assert(twice.last() == twice_rest.last());
        }
    }
}

} // verus!
