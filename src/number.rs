use vstd::prelude::*;

verus! {

/// A double-precision value, held as its IEEE-754 bit pattern together with
/// the decimal text it is written as.
#[derive(Debug)]
pub struct Number {
    pub bits: u64,
    pub text: String,
}

/// What a `Number` holds, for contracts.
pub struct NumberView {
    pub bits: u64,
    pub text: Seq<char>,
}

impl View for Number {
    type V = NumberView;

    open spec fn view(&self) -> NumberView {
        NumberView { bits: self.bits, text: self.text@ }
    }
}

const MANTISSA_SPAN: u64 = 0x10_0000_0000_0000;

const SIGN_BIT: u64 = 0x8000_0000_0000_0000;

/// The bit pattern is a NaN: every exponent bit set, and a mantissa that is
/// not zero.
pub open spec fn is_nan(bits: u64) -> bool {
    (bits / 0x10_0000_0000_0000) % 0x800 == 0x7ff && bits % 0x10_0000_0000_0000 != 0
}

/// The bit pattern is positive or negative zero.
pub open spec fn is_zero(bits: u64) -> bool {
    bits % 0x8000_0000_0000_0000 == 0
}

/// IEEE-754 equality on bit patterns: a NaN equals nothing, not even
/// itself, and the two zeros are equal.
pub open spec fn numbers_equal(a: u64, b: u64) -> bool {
    !is_nan(a) && !is_nan(b) && (a == b || (is_zero(a) && is_zero(b)))
}

/// Compares two bit patterns as the doubles they encode.
pub fn same_number(a: u64, b: u64) -> (r: bool)
    ensures
        r == numbers_equal(a, b),
{
    let a_nan = (a / MANTISSA_SPAN) % 0x800 == 0x7ff && a % MANTISSA_SPAN != 0;
    let b_nan = (b / MANTISSA_SPAN) % 0x800 == 0x7ff && b % MANTISSA_SPAN != 0;
    !a_nan && !b_nan && (a == b || (a % SIGN_BIT == 0 && b % SIGN_BIT == 0))
}

impl Number {
    /// Zero, written `0`.
    pub fn zero() -> (r: Number)
        ensures
            r@ == zero_view(),
    {
        proof {
            reveal_strlit("0");
        }
        let text = String::from_str("0");
        assert(text@ =~= seq!['0']);
        Number { bits: 0, text }
    }
}

/// The view of `Number::zero`.
pub open spec fn zero_view() -> NumberView {
    NumberView { bits: 0, text: seq!['0'] }
}

impl Clone for Number {
    fn clone(&self) -> (r: Self)
        ensures
            r == *self,
    {
        Number { bits: self.bits, text: self.text.clone() }
    }
}

} // verus!
