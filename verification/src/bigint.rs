//! Arbitrary-precision integers, carried as two's-complement little-endian bytes.
//! The arithmetic itself is done by `num_bigint`.

use vstd::prelude::*;
use num_bigint::{BigInt, Sign};

verus! {

/// The unsigned value of little-endian base-256 digits.
pub open spec fn le_magnitude(bytes: Seq<u8>) -> nat
    decreases bytes.len(),
{
    if bytes.len() == 0 {
        0
    } else {
        bytes[0] as nat + 256 * le_magnitude(bytes.drop_first())
    }
}

/// `256` to the power `len`: the number of values `len` bytes can hold.
pub open spec fn byte_range(len: nat) -> nat
    decreases len,
{
    if len == 0 {
        1
    } else {
        256 * byte_range((len - 1) as nat)
    }
}

/// The value of a two's-complement little-endian byte string (the empty string is zero).
pub open spec fn twos_complement_value(bytes: Seq<u8>) -> int {
    if bytes.len() == 0 {
        0
    } else if bytes.last() < 128 {
        le_magnitude(bytes) as int
    } else {
        le_magnitude(bytes) - byte_range(bytes.len())
    }
}

/// The absolute value.
pub open spec fn int_abs(a: int) -> int {
    if a < 0 {
        -a
    } else {
        a
    }
}

/// Division rounding toward zero, as Rust's `/` on signed integers.
pub open spec fn trunc_div(a: int, b: int) -> int {
    let q = int_abs(a) / int_abs(b);
    if (a < 0) == (b < 0) {
        q
    } else {
        -q
    }
}

/// The remainder of `trunc_div`, which takes the sign of the dividend, as Rust's `%`.
pub open spec fn trunc_rem(a: int, b: int) -> int {
    a - b * trunc_div(a, b)
}

/// A bitwise operation on two's-complement integers of unbounded width: bit `i` of the
/// result is `f` of bit `i` of `a` and bit `i` of `b` (`true` for a set bit).
pub open spec fn bitwise(a: int, b: int, f: spec_fn(bool, bool) -> bool) -> int
    decreases int_abs(a) + int_abs(b),
{
    if (a == 0 || a == -1) && (b == 0 || b == -1) {
        if f(a == -1, b == -1) {
            -1
        } else {
            0
        }
    } else {
        2 * bitwise(a / 2, b / 2, f) + if f(a % 2 == 1, b % 2 == 1) {
            1int
        } else {
            0int
        }
    }
}

/// Bitwise and of two's-complement integers.
pub open spec fn int_bitand(a: int, b: int) -> int {
    bitwise(a, b, |x: bool, y: bool| x && y)
}

/// Bitwise or of two's-complement integers.
pub open spec fn int_bitor(a: int, b: int) -> int {
    bitwise(a, b, |x: bool, y: bool| x || y)
}

/// Bitwise exclusive or of two's-complement integers.
pub open spec fn int_bitxor(a: int, b: int) -> int {
    bitwise(a, b, |x: bool, y: bool| x != y)
}

/// The character of a decimal digit `0 <= d < 10`.
pub open spec fn decimal_digit(d: int) -> char {
    (48 + d) as char
}

/// The decimal digits of a natural number, most significant first, without leading zeros.
pub open spec fn decimal_digits(n: nat) -> Seq<char>
    decreases n,
{
    if n < 10 {
        seq![decimal_digit(n as int)]
    } else {
        decimal_digits(n / 10).push(decimal_digit((n % 10) as int))
    }
}

/// The decimal text of an integer: its digits, after a `-` where it is negative.
pub open spec fn decimal_text(v: int) -> Seq<char> {
    if v < 0 {
        seq!['-'] + decimal_digits((-v) as nat)
    } else {
        decimal_digits(v as nat)
    }
}

/// An integer of any size.
pub struct Integer {
    bytes: Vec<u8>,
}

impl View for Integer {
    type V = int;

    closed spec fn view(&self) -> int {
        twos_complement_value(self.bytes@)
    }
}

impl Integer {
    /// Builds an integer from its two's-complement little-endian bytes.
    pub fn from_signed_bytes_le(bytes: Vec<u8>) -> (r: Integer)
        ensures
            r@ == twos_complement_value(bytes@),
    {
        Integer { bytes }
    }

    /// The two's-complement little-endian bytes this integer is held as.
    pub fn signed_bytes_le(&self) -> (r: &Vec<u8>)
        ensures
            twos_complement_value(r@) == self@,
    {
        &self.bytes
    }
}

impl Clone for Integer {
    fn clone(&self) -> (r: Self)
        ensures
            r@ == self@,
    {
        Integer { bytes: self.bytes.clone() }
    }
}

/// `num_bigint`'s sum of two integers: the mathematical sum.
#[verifier::external_body]
pub(crate) fn integer_add(a: &Integer, b: &Integer) -> (r: Integer)
    ensures
        r@ == a@ + b@,
{
    let r = BigInt::from_signed_bytes_le(&a.bytes) + BigInt::from_signed_bytes_le(&b.bytes);
    Integer { bytes: r.to_signed_bytes_le() }
}

/// `num_bigint`'s difference of two integers.
#[verifier::external_body]
pub(crate) fn integer_sub(a: &Integer, b: &Integer) -> (r: Integer)
    ensures
        r@ == a@ - b@,
{
    let r = BigInt::from_signed_bytes_le(&a.bytes) - BigInt::from_signed_bytes_le(&b.bytes);
    Integer { bytes: r.to_signed_bytes_le() }
}

/// `num_bigint`'s product of two integers.
#[verifier::external_body]
pub(crate) fn integer_mul(a: &Integer, b: &Integer) -> (r: Integer)
    ensures
        r@ == a@ * b@,
{
    let r = BigInt::from_signed_bytes_le(&a.bytes) * BigInt::from_signed_bytes_le(&b.bytes);
    Integer { bytes: r.to_signed_bytes_le() }
}

/// `num_bigint`'s quotient, which rounds toward zero; it panics on a zero divisor.
#[verifier::external_body]
pub(crate) fn integer_div(a: &Integer, b: &Integer) -> (r: Integer)
    requires
        b@ != 0,
    ensures
        r@ == trunc_div(a@, b@),
{
    let r = BigInt::from_signed_bytes_le(&a.bytes) / BigInt::from_signed_bytes_le(&b.bytes);
    Integer { bytes: r.to_signed_bytes_le() }
}

/// `num_bigint`'s remainder, with the sign of the dividend; it panics on a zero divisor.
#[verifier::external_body]
pub(crate) fn integer_rem(a: &Integer, b: &Integer) -> (r: Integer)
    requires
        b@ != 0,
    ensures
        r@ == trunc_rem(a@, b@),
{
    let r = BigInt::from_signed_bytes_le(&a.bytes) % BigInt::from_signed_bytes_le(&b.bytes);
    Integer { bytes: r.to_signed_bytes_le() }
}

/// `num_bigint`'s bitwise and, which works on the two's-complement form.
#[verifier::external_body]
pub(crate) fn integer_bitand(a: &Integer, b: &Integer) -> (r: Integer)
    ensures
        r@ == int_bitand(a@, b@),
{
    let r = BigInt::from_signed_bytes_le(&a.bytes) & BigInt::from_signed_bytes_le(&b.bytes);
    Integer { bytes: r.to_signed_bytes_le() }
}

/// `num_bigint`'s bitwise or, which works on the two's-complement form.
#[verifier::external_body]
pub(crate) fn integer_bitor(a: &Integer, b: &Integer) -> (r: Integer)
    ensures
        r@ == int_bitor(a@, b@),
{
    let r = BigInt::from_signed_bytes_le(&a.bytes) | BigInt::from_signed_bytes_le(&b.bytes);
    Integer { bytes: r.to_signed_bytes_le() }
}

/// `num_bigint`'s bitwise exclusive or, which works on the two's-complement form.
#[verifier::external_body]
pub(crate) fn integer_bitxor(a: &Integer, b: &Integer) -> (r: Integer)
    ensures
        r@ == int_bitxor(a@, b@),
{
    let r = BigInt::from_signed_bytes_le(&a.bytes) ^ BigInt::from_signed_bytes_le(&b.bytes);
    Integer { bytes: r.to_signed_bytes_le() }
}

/// `num_bigint`'s negation.
#[verifier::external_body]
pub(crate) fn integer_neg(a: &Integer) -> (r: Integer)
    ensures
        r@ == -a@,
{
    let r = -BigInt::from_signed_bytes_le(&a.bytes);
    Integer { bytes: r.to_signed_bytes_le() }
}

/// `num_bigint`'s `Display` text of an integer: its decimal digits, after a `-` where it
/// is negative.
#[verifier::external_body]
pub(crate) fn integer_to_string(a: &Integer) -> (r: String)
    ensures
        r@ == decimal_text(a@),
{
    BigInt::from_signed_bytes_le(&a.bytes).to_string()
}

/// Whether an integer is zero, as `num_bigint`'s sign tells: `BigInt::sign` is
/// `Sign::NoSign` exactly for zero.
#[verifier::external_body]
pub(crate) fn integer_is_zero(a: &Integer) -> (r: bool)
    ensures
        r == (a@ == 0),
{
    BigInt::from_signed_bytes_le(&a.bytes).sign() == Sign::NoSign
}

} // verus!
