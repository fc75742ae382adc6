//! Integers of any size.
use vstd::arithmetic::power2::pow2;
use vstd::prelude::*;
use vstd::string::*;
use num_bigint::{BigInt, Sign};
use num_traits::{ToPrimitive, Zero};
use crate::types::Float;

verus! {

/// The number that bytes in two's complement stand for, the least significant one first.
pub open spec fn signed_value(bytes: Seq<u8>) -> int
    decreases bytes.len(),
{
    if bytes.len() == 0 {
        0
    } else if bytes.len() == 1 {
        if bytes[0] >= 0x80 {
            bytes[0] - 0x100
        } else {
            bytes[0] as int
        }
    } else {
        bytes[0] + 0x100 * signed_value(bytes.drop_first())
    }
}

/// A decimal digit or an underscore.
pub open spec fn is_digit_or_underscore(c: char) -> bool {
    '0' <= c <= '9' || c == '_'
}

/// The number that a run of decimal digits stands for; underscores are passed over.
pub open spec fn decimal_value(s: Seq<char>) -> nat
    decreases s.len(),
{
    if s.len() == 0 {
        0
    } else if s.last() == '_' {
        decimal_value(s.drop_last())
    } else {
        (10 * decimal_value(s.drop_last()) + (s.last() as int - '0' as int)) as nat
    }
}

/// What a text stands for when read as an integer: an optional sign, then decimal digits, of
/// which any but the first may be an underscore.
pub open spec fn decimal(s: Seq<char>) -> Option<int> {
    let signed = s.len() > 0 && (s[0] == '-' || s[0] == '+');
    let body = if signed {
        s.drop_first()
    } else {
        s
    };
    if body.len() > 0 && body[0] != '_' && (forall|i: int|
        0 <= i < body.len() ==> is_digit_or_underscore(#[trigger] body[i])) {
        if s[0] == '-' {
            Some(-decimal_value(body))
        } else {
            Some(decimal_value(body) as int)
        }
    } else {
        None
    }
}

/// The decimal digits of a number, without leading zeros.
pub open spec fn decimal_digits(n: nat) -> Seq<char>
    decreases n,
{
    let last = ('0' as int + n % 10) as char;
    if n < 10 {
        seq![last]
    } else {
        decimal_digits(n / 10).push(last)
    }
}

/// How an integer is written.
pub open spec fn decimal_text(n: int) -> Seq<char> {
    if n < 0 {
        seq!['-'] + decimal_digits((-n) as nat)
    } else {
        decimal_digits(n as nat)
    }
}

/// An integer, kept as the bytes of its two's complement.
#[derive(Debug)]
pub struct Integer {
    pub bytes: Vec<u8>,
}

impl View for Integer {
    type V = int;

    open spec fn view(&self) -> int {
        signed_value(self.bytes@)
    }
}

/// Parsing a `BigInt` reads a text as a decimal integer, as [`decimal`] says; the bytes of
/// its two's complement stand for its value.
#[verifier::external_body]
fn parse_big_int(s: &str) -> (r: Option<Integer>)
    ensures
        match r {
            Some(n) => decimal(s@) == Some(n@),
            None => decimal(s@) is None,
        },
{
    match s.parse::<BigInt>() {
        Ok(n) => Some(Integer { bytes: n.to_signed_bytes_le() }),
        Err(_) => None,
    }
}

/// `<` on `BigInt` compares the two numbers.
#[verifier::external_body]
fn big_int_less(a: &Integer, b: &Integer) -> (r: bool)
    ensures
        r == (a@ < b@),
{
    BigInt::from_signed_bytes_le(&a.bytes) < BigInt::from_signed_bytes_le(&b.bytes)
}

/// `==` on `BigInt` tells whether the two numbers are the same.
#[verifier::external_body]
fn big_int_equal(a: &Integer, b: &Integer) -> (r: bool)
    ensures
        r == (a@ == b@),
{
    BigInt::from_signed_bytes_le(&a.bytes) == BigInt::from_signed_bytes_le(&b.bytes)
}

/// `BigInt::is_zero` tells whether the number is zero.
#[verifier::external_body]
fn big_int_is_zero(n: &Integer) -> (r: bool)
    ensures
        r == (n@ == 0),
{
    BigInt::from_signed_bytes_le(&n.bytes).is_zero()
}

/// `BigInt::sign` is `Sign::Minus` for the numbers below zero.
#[verifier::external_body]
fn big_int_is_negative(n: &Integer) -> (r: bool)
    ensures
        r == (n@ < 0),
{
    BigInt::from_signed_bytes_le(&n.bytes).sign() == Sign::Minus
}

/// `BigInt::to_isize` gives the number where an `isize` can hold it, and nothing otherwise.
#[verifier::external_body]
fn big_int_to_isize(n: &Integer) -> (r: Option<isize>)
    ensures
        r == (if isize::MIN <= n@ <= isize::MAX {
            Some(n@ as isize)
        } else {
            None
        }),
{
    BigInt::from_signed_bytes_le(&n.bytes).to_isize()
}

/// `BigInt::to_i64` gives the number where an `i64` can hold it, and nothing otherwise.
#[verifier::external_body]
fn big_int_to_i64(n: &Integer) -> (r: Option<i64>)
    ensures
        r == (if i64::MIN <= n@ <= i64::MAX {
            Some(n@ as i64)
        } else {
            None
        }),
{
    BigInt::from_signed_bytes_le(&n.bytes).to_i64()
}

/// `u8::try_from` a `BigInt` gives the number where a `u8` can hold it, and nothing otherwise.
#[verifier::external_body]
fn big_int_to_u8(n: &Integer) -> (r: Option<u8>)
    ensures
        r == (if 0 <= n@ <= u8::MAX {
            Some(n@ as u8)
        } else {
            None
        }),
{
    u8::try_from(&BigInt::from_signed_bytes_le(&n.bytes)).ok()
}

/// Displaying a `BigInt` writes it in decimal, as [`decimal_text`] says.
#[verifier::external_body]
fn big_int_to_string(n: &Integer) -> (r: String)
    ensures
        r@ == decimal_text(n@),
{
    BigInt::from_signed_bytes_le(&n.bytes).to_string()
}

/// `BigInt::to_f64` gives the floating point number nearest to an integer: an integer of up to 53
/// bits is that number. Of a larger one it is left unsaid which number it is, since it is found by
/// `powi`, whose precision is left to the platform.
#[verifier::external_body]
fn big_int_to_float(n: &Integer) -> (r: Option<Float>)
    ensures
        match r {
            Some(float) => -pow2(53) <= n@ <= pow2(53) ==> float.is_integer(n@),
            None => false,
        },
{
    match BigInt::from_signed_bytes_le(&n.bytes).to_f64() {
        Some(x) => Some(Float { bits: x.to_bits() }),
        None => None,
    }
}

impl Integer {
    /// A small integer.
    pub fn from_u8(n: u8) -> (r: Self)
        ensures
            r@ == n,
    {
        let mut bytes: Vec<u8> = Vec::new();
        bytes.push(n);
        bytes.push(0);
        assert(signed_value(bytes@) == n) by {
            reveal_with_fuel(signed_value, 2);
        }
        Integer { bytes }
    }

    /// Reads a decimal integer.
    pub fn parse(s: &str) -> (r: Option<Self>)
        ensures
            match r {
                Some(n) => decimal(s@) == Some(n@),
                None => decimal(s@) is None,
            },
    {
        parse_big_int(s)
    }

    /// The same integer once more.
    pub fn duplicate(&self) -> (r: Self)
        ensures
            r@ == self@,
    {
        let bytes = self.bytes.clone();
        assert(bytes@ =~= self.bytes@);
        Integer { bytes }
    }

    pub fn is_zero(&self) -> (r: bool)
        ensures
            r == (self@ == 0),
    {
        big_int_is_zero(self)
    }

    pub fn is_negative(&self) -> (r: bool)
        ensures
            r == (self@ < 0),
    {
        big_int_is_negative(self)
    }

    /// Whether the two integers are the same number.
    pub fn equals(&self, other: &Self) -> (r: bool)
        ensures
            r == (self@ == other@),
    {
        big_int_equal(self, other)
    }

    /// Whether this integer is the smaller one.
    pub fn less_than(&self, other: &Self) -> (r: bool)
        ensures
            r == (self@ < other@),
    {
        big_int_less(self, other)
    }

    /// The integer as an `isize`, where it fits.
    pub fn to_isize(&self) -> (r: Option<isize>)
        ensures
            r == (if isize::MIN <= self@ <= isize::MAX {
                Some(self@ as isize)
            } else {
                None
            }),
    {
        big_int_to_isize(self)
    }

    /// The integer as an `i64`, where it fits.
    pub fn to_i64(&self) -> (r: Option<i64>)
        ensures
            r == (if i64::MIN <= self@ <= i64::MAX {
                Some(self@ as i64)
            } else {
                None
            }),
    {
        big_int_to_i64(self)
    }

    /// The integer as a `u8`, where it fits.
    pub fn to_u8(&self) -> (r: Option<u8>)
        ensures
            r == (if 0 <= self@ <= u8::MAX {
                Some(self@ as u8)
            } else {
                None
            }),
    {
        big_int_to_u8(self)
    }

    /// The floating point number nearest to the integer, which is the integer where that has up to
    /// 53 bits.
    pub fn nearest_float(&self) -> (r: Float)
        ensures
            -pow2(53) <= self@ <= pow2(53) ==> r.is_integer(self@),
    {
        match big_int_to_float(self) {
            Some(float) => float,
            None => vstd::pervasive::unreached(),
        }
    }

    /// The integer in decimal.
    pub fn to_text(&self) -> (r: String)
        ensures
            r@ == decimal_text(self@),
    {
        big_int_to_string(self)
    }
}

/// Writes a number in decimal.
pub fn usize_text(n: usize) -> (r: String)
    ensures
        r@ == decimal_text(n as int),
{
    let mut rest: usize = n;
    let mut text = "".to_owned();
    proof {
        reveal_strlit("");
        assert(decimal_digits(n as nat) + text@ =~= decimal_digits(n as nat));
    }
    while rest >= 10
        invariant
            decimal_digits(n as nat) == decimal_digits(rest as nat) + text@,
        decreases rest,
    {
        let ghost before = text@;
        let mut longer = digit_text(rest % 10).to_owned();
        longer.append(text.as_str());
        text = longer;
        rest = rest / 10;
        assert(decimal_digits(n as nat) =~= decimal_digits(rest as nat) + text@);
    }
    let mut longer = digit_text(rest).to_owned();
    longer.append(text.as_str());
    longer
}

/// Writes a digit.
fn digit_text(n: usize) -> (r: &'static str)
    requires
        n < 10,
    ensures
        r@ == seq![('0' as int + n) as char],
{
    proof {
        reveal_strlit("0");
        reveal_strlit("1");
        reveal_strlit("2");
        reveal_strlit("3");
        reveal_strlit("4");
        reveal_strlit("5");
        reveal_strlit("6");
        reveal_strlit("7");
        reveal_strlit("8");
        reveal_strlit("9");
    }
    match n {
        0 => "0",
        1 => "1",
        2 => "2",
        3 => "3",
        4 => "4",
        5 => "5",
        6 => "6",
        7 => "7",
        8 => "8",
        _ => "9",
    }
}

impl PartialEq for Integer {
    fn eq(&self, other: &Self) -> (r: bool) {
        self.equals(other)
    }
}

impl vstd::std_specs::cmp::PartialEqSpecImpl for Integer {
    open spec fn obeys_eq_spec() -> bool {
        true
    }

    open spec fn eq_spec(&self, other: &Self) -> bool {
        self@ == other@
    }
}

proof fn lemma_digits_are_digits(n: nat)
    ensures
        decimal_digits(n).len() > 0,
        forall|i: int|
            0 <= i < decimal_digits(n).len() ==> '0' <= #[trigger] decimal_digits(n)[i] <= '9',
        decimal_value(decimal_digits(n)) == n,
    decreases n,
{
    let last = ('0' as int + n % 10) as char;
    assert('0' <= last <= '9');
    if n < 10 {
        assert(decimal_digits(n).drop_last() =~= Seq::<char>::empty());
        reveal_with_fuel(decimal_value, 2);
    } else {
        lemma_digits_are_digits(n / 10);
        assert(decimal_digits(n).drop_last() =~= decimal_digits(n / 10));
        assert(decimal_digits(n).last() == last);
    }
}

/// Reading what was written gives the same integer back.
pub proof fn law_text_reads_back(n: int)
    ensures
        decimal(decimal_text(n)) == Some(n),
{
    if n < 0 {
        let digits = decimal_digits((-n) as nat);
        lemma_digits_are_digits((-n) as nat);
        assert(decimal_text(n).drop_first() =~= digits);
        assert(forall|i: int|
            0 <= i < digits.len() ==> is_digit_or_underscore(#[trigger] digits[i]));
    } else {
        let digits = decimal_digits(n as nat);
        lemma_digits_are_digits(n as nat);
        assert('0' <= digits[0] <= '9');
        assert(forall|i: int|
            0 <= i < digits.len() ==> is_digit_or_underscore(#[trigger] digits[i]));
    }
}

} // verus!
