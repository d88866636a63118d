//! Decimal text of integers, and the zero-padded fields built from it.

use crate::buffer::{DateTimeBuffer, CAPACITY};
use vstd::prelude::*;

verus! {

pub const HYPHEN: u8 = 45;

pub const PLUS: u8 = 43;

pub const ZERO: u8 = 48;

pub const LETTER_T: u8 = 84;

pub const COLON: u8 = 58;

pub const PERIOD: u8 = 46;

pub const Z: u8 = 90;

/// The ASCII digit for `d`, which is at most 9.
pub open spec fn digit(d: nat) -> u8 {
    (48 + d) as u8
}

/// The decimal digits of `n`, most significant first, without leading zeros.
pub open spec fn decimal(n: nat) -> Seq<u8>
    decreases n,
{
    if n < 10 {
        seq![digit(n)]
    } else {
        decimal(n / 10).push(digit(n % 10))
    }
}

/// The decimal text of `i`: a minus sign before the digits of a negative
/// number.
pub open spec fn signed_decimal(i: int) -> Seq<u8> {
    if i < 0 {
        seq![HYPHEN] + decimal((-i) as nat)
    } else {
        decimal(i as nat)
    }
}

/// `count` zero digits.
pub open spec fn zeros(count: nat) -> Seq<u8> {
    Seq::new(count, |i: int| ZERO)
}

/// The decimal digits of `n`, with zeros in front until there are at least
/// `width` of them.
pub open spec fn zero_padded(n: nat, width: nat) -> Seq<u8> {
    if decimal(n).len() < width {
        zeros((width - decimal(n).len()) as nat) + decimal(n)
    } else {
        decimal(n)
    }
}

/// What follows the seconds of a time: nothing for a whole second, else a
/// period and the microseconds in six digits.
pub open spec fn fraction(microsecond: nat) -> Seq<u8> {
    if microsecond == 0 {
        Seq::<u8>::empty()
    } else {
        seq![PERIOD] + zero_padded(microsecond, 6)
    }
}

/// A number has one digit exactly when it is below ten, and every further
/// digit stands for one more power of ten.
pub proof fn lemma_decimal_len(n: nat)
    ensures
        decimal(n).len() >= 1,
        n < 10 <==> decimal(n).len() == 1,
        n < 100 ==> decimal(n).len() <= 2,
        n < 1_000 ==> decimal(n).len() <= 3,
        n < 10_000 ==> decimal(n).len() <= 4,
        n < 100_000 ==> decimal(n).len() <= 5,
        n < 1_000_000 ==> decimal(n).len() <= 6,
    decreases n,
{
    if n >= 10 {
        lemma_decimal_len(n / 10);
    }
}

/// Decimal text holds digits only.
pub proof fn lemma_decimal_digits(n: nat)
    ensures
        forall|i: int| 0 <= i < decimal(n).len() ==> ZERO <= #[trigger] decimal(n)[i] <= 57,
    decreases n,
{
    if n >= 10 {
        lemma_decimal_digits(n / 10);
        let front = decimal(n / 10);
        assert forall|i: int| 0 <= i < decimal(n).len() implies ZERO <= #[trigger] decimal(n)[i]
            <= 57 by {
            if i < front.len() {
                assert(decimal(n)[i] == front[i]);
            }
        }
    }
}

/// A zero-padded field holds digits only and is at least `width` long; it
/// is exactly `width` long when the number has no more digits than that.
pub proof fn lemma_zero_padded(n: nat, width: nat)
    ensures
        zero_padded(n, width).len() >= width,
        decimal(n).len() <= width ==> zero_padded(n, width).len() == width,
        decimal(n).len() >= width ==> zero_padded(n, width) == decimal(n),
        forall|i: int|
            0 <= i < zero_padded(n, width).len() ==> ZERO <= #[trigger] zero_padded(n, width)[i]
                <= 57,
{
    lemma_decimal_digits(n);
}

/// `itoa::Buffer::format` on an `i32`: the decimal text of the value, with
/// a leading minus sign when it is negative.
#[verifier::external_body]
fn itoa_format(value: i32) -> (text: Vec<u8>)
    ensures
        text@ == signed_decimal(value as int),
{
    itoa::Buffer::new().format(value).as_bytes().to_vec()
}

/// Appends the decimal text of `value`.
pub fn write_integer(buf: &mut DateTimeBuffer, value: i32)
    requires
        old(buf)@.len() + signed_decimal(value as int).len() <= CAPACITY,
    ensures
        final(buf)@ == old(buf)@ + signed_decimal(value as int),
{
    let text = itoa_format(value);
    buf.extend_from_slice(text.as_slice()).unwrap();
}

/// Appends `value` in at least two digits.
pub fn write_double_digit(buf: &mut DateTimeBuffer, value: u8)
    requires
        old(buf)@.len() + zero_padded(value as nat, 2).len() <= CAPACITY,
    ensures
        final(buf)@ == old(buf)@ + zero_padded(value as nat, 2),
{
    proof {
        lemma_decimal_len(value as nat);
    }
    if value < 10 {
        assert(zero_padded(value as nat, 2) =~= seq![ZERO] + decimal(value as nat));
        buf.push(ZERO).unwrap();
    }
    let text = itoa_format(value as i32);
    buf.extend_from_slice(text.as_slice()).unwrap();
    assert(final(buf)@ =~= old(buf)@ + zero_padded(value as nat, 2));
}

/// Appends the fraction of a second: nothing when `microsecond` is zero,
/// else a period and six digits.
pub fn write_microsecond(buf: &mut DateTimeBuffer, microsecond: u32)
    requires
        microsecond < 1_000_000,
        old(buf)@.len() + fraction(microsecond as nat).len() <= CAPACITY,
    ensures
        final(buf)@ == old(buf)@ + fraction(microsecond as nat),
{
    if microsecond != 0 {
        proof {
            lemma_decimal_len(microsecond as nat);
        }
        buf.push(PERIOD).unwrap();
        let text = itoa_format(microsecond as i32);
        let ghost digits = decimal(microsecond as nat);
        let mut padding: usize = 6 - text.len();
        while padding > 0
            invariant
                text@ == digits,
                1 <= digits.len() <= 6,
                padding <= 6 - digits.len(),
                buf@ == old(buf)@ + seq![PERIOD] + zeros((6 - digits.len() - padding) as nat),
                old(buf)@.len() + 1 + 6 <= CAPACITY,
            decreases padding,
        {
            buf.push(ZERO).unwrap();
            padding = padding - 1;
            assert(buf@ =~= old(buf)@ + seq![PERIOD] + zeros(
                (6 - digits.len() - padding) as nat,
            ));
        }
        buf.extend_from_slice(text.as_slice()).unwrap();
        assert(final(buf)@ =~= old(buf)@ + fraction(microsecond as nat));
    } else {
        assert(final(buf)@ =~= old(buf)@ + fraction(microsecond as nat));
    }
}

} // verus!
