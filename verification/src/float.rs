//! Floating point numbers by their bits, in the binary format of 64 bits.
use vstd::arithmetic::power2::{
    lemma2_to64, lemma2_to64_rest, lemma_pow2_adds, lemma_pow2_pos, lemma_pow2_strictly_increases,
    pow2,
};
use vstd::prelude::*;
use crate::types::Float;

verus! {

/// The bit of the negative numbers.
pub const SIGN_BIT: u64 = 0x8000_0000_0000_0000;

/// The bits of infinity; beyond them there is no number.
pub const INFINITE_BITS: u64 = 0x7ff0_0000_0000_0000;

/// The bits of one.
pub const ONE_BITS: u64 = 0x3ff0_0000_0000_0000;

/// How many fractions there are to an exponent.
pub const FRACTIONS: u64 = 0x0010_0000_0000_0000;

/// The size of the finite number with some bits, none of which is the sign, counted in parts of
/// which there are `pow2(1075)` to one.
pub open spec fn finite_size(bits: int) -> int {
    let exponent = bits / FRACTIONS as int;
    let fraction = bits % FRACTIONS as int;
    if exponent == 0 {
        fraction * pow2(1)
    } else {
        (FRACTIONS + fraction) * pow2(exponent as nat)
    }
}

/// What an integer is counted as that lies beyond every finite number: less than infinity.
pub open spec fn beyond_finite() -> int {
    pow2(2099) as int
}

/// What infinity is counted as.
pub open spec fn infinite_size() -> int {
    pow2(2100) as int
}

impl Float {
    /// The bits without the sign.
    pub open spec fn unsigned(self) -> int {
        if self.bits >= SIGN_BIT {
            self.bits - SIGN_BIT
        } else {
            self.bits as int
        }
    }

    /// A number, on the side of zero that the sign tells.
    pub open spec fn signed(self, size: int) -> int {
        if self.bits >= SIGN_BIT {
            -size
        } else {
            size
        }
    }

    /// Where the number lies among all numbers, counted in parts of which there are `pow2(1075)`
    /// to one; nowhere, if it is not a number.
    pub open spec fn place(self) -> Option<int> {
        if self.unsigned() > INFINITE_BITS {
            None
        } else if self.unsigned() == INFINITE_BITS {
            Some(self.signed(infinite_size()))
        } else {
            Some(self.signed(finite_size(self.unsigned())))
        }
    }

    /// Where an integer lies that this is the nearest floating point number to: one that lies
    /// beyond every finite number is still less than infinity.
    pub open spec fn integer_place(self) -> Option<int> {
        if self.unsigned() == INFINITE_BITS {
            Some(self.signed(beyond_finite()))
        } else {
            self.place()
        }
    }

    /// The number is an integer.
    pub open spec fn is_integer(self, n: int) -> bool {
        self.unsigned() < INFINITE_BITS && self.place() == Some(n * pow2(1075))
    }

    /// Whether the number is other than zero.
    pub fn is_nonzero(self) -> (r: bool)
        ensures
            r == (self.place() != Some(0int)),
    {
        proof {
            lemma_pow2_pos(1);
            lemma_pow2_pos(2100);
            lemma_zero(self.unsigned());
        }
        self.bits != 0 && self.bits != SIGN_BIT
    }
}

proof fn lemma_zero(bits: int)
    requires
        0 <= bits,
    ensures
        finite_size(bits) >= 0,
        finite_size(bits) == 0 <==> bits == 0,
{
    let exponent = bits / FRACTIONS as int;
    let fraction = bits % FRACTIONS as int;
    lemma_pow2_pos(1);
    lemma_pow2_pos(exponent as nat);
    let unit = pow2(exponent as nat) as int;
    assert(fraction * pow2(1) >= 0) by (nonlinear_arith)
        requires
            fraction >= 0,
            pow2(1) > 0,
    ;
    assert(fraction * pow2(1) == 0 <==> fraction == 0) by (nonlinear_arith)
        requires
            pow2(1) > 0,
    ;
    assert((FRACTIONS + fraction) * unit > 0) by (nonlinear_arith)
        requires
            fraction >= 0,
            unit > 0,
            FRACTIONS > 0,
    ;
}

/// The larger of two finite numbers has the larger bits.
proof fn lemma_finite_order(a: int, b: int)
    requires
        0 <= a < b,
    ensures
        finite_size(a) < finite_size(b),
{
    let (e, f) = (a / FRACTIONS as int, a % FRACTIONS as int);
    let (g, h) = (b / FRACTIONS as int, b % FRACTIONS as int);
    lemma_pow2_pos(1);
    lemma_pow2_pos(e as nat);
    let half = FRACTIONS as int;
    let first = if e == 0 {
        pow2(1) as int
    } else {
        pow2(e as nat) as int
    };
    let second = pow2(g as nat) as int;
    if e == g {
        assert(f < h);
        assert(f * first < h * first) by (nonlinear_arith)
            requires
                f < h,
                first > 0,
        ;
        assert((half + f) * first == half * first + f * first) by (nonlinear_arith);
        assert((half + h) * first == half * first + h * first) by (nonlinear_arith);
    } else {
        assert(e < g);
        let next = if e == 0 {
            1int
        } else {
            e + 1
        };
        if next < g {
            lemma_pow2_strictly_increases(next as nat, g as nat);
        }
        if e > 0 {
            lemma_pow2_adds(1, e as nat);
            lemma2_to64();
        }
        assert(second > 0) by {
            lemma_pow2_pos(g as nat);
        }
        assert(half * second <= (half + h) * second) by (nonlinear_arith)
            requires
                h >= 0,
                second > 0,
        ;
        if e == 0 {
            assert(f * first < half * first) by (nonlinear_arith)
                requires
                    f < half,
                    first > 0,
            ;
            assert(half * first <= half * second) by (nonlinear_arith)
                requires
                    first <= second,
                    half > 0,
            ;
        } else {
            assert((half + f) * first < half * (2 * first)) by (nonlinear_arith)
                requires
                    f < half,
                    first > 0,
            ;
            assert(half * (2 * first) <= half * second) by (nonlinear_arith)
                requires
                    2 * first <= second,
                    half > 0,
            ;
        }
    }
}

/// Every finite number is less than what lies beyond.
proof fn lemma_finite_is_less(a: int)
    requires
        0 <= a < INFINITE_BITS,
    ensures
        finite_size(a) < beyond_finite() < infinite_size(),
{
    let next = INFINITE_BITS as int;
    lemma_finite_order(a, next);
    assert(next / FRACTIONS as int == 2047 && next % FRACTIONS as int == 0);
    lemma2_to64_rest();
    lemma_pow2_adds(52, 2047);
    assert(finite_size(next) == (FRACTIONS + 0) * pow2(2047));
    lemma_pow2_strictly_increases(2099, 2100);
}

/// Where a number lies among all numbers, by a code that is found from its bits: twice the bits,
/// so that there is room for what lies beyond the finite numbers.
#[derive(Clone, Copy, Debug)]
pub struct Place {
    code: i128,
}

/// The size of a number by its code.
spec fn code_size(code: int) -> int {
    if code == 2 * INFINITE_BITS {
        infinite_size()
    } else if code == 2 * INFINITE_BITS - 1 {
        beyond_finite()
    } else {
        finite_size(code / 2)
    }
}

/// A code that a number can have, but for its sign.
spec fn is_code(code: int) -> bool {
    0 <= code <= 2 * INFINITE_BITS && (code % 2 == 0 || code == 2 * INFINITE_BITS - 1)
}

proof fn lemma_code_order(a: int, b: int)
    requires
        is_code(a),
        is_code(b),
        a < b,
    ensures
        0 <= code_size(a) < code_size(b),
{
    lemma_zero(a / 2);
    lemma_pow2_pos(2099);
    if b < 2 * INFINITE_BITS - 1 {
        lemma_finite_order(a / 2, b / 2);
    } else if a < 2 * INFINITE_BITS - 1 {
        lemma_finite_is_less(a / 2);
    } else {
        lemma_pow2_strictly_increases(2099, 2100);
    }
}

impl View for Place {
    type V = int;

    closed spec fn view(&self) -> int {
        if self.code < 0 {
            -code_size(-self.code)
        } else {
            code_size(self.code as int)
        }
    }
}

impl Place {
    #[verifier::type_invariant]
    spec fn is_valid(self) -> bool {
        is_code(
            if self.code < 0 {
                -self.code
            } else {
                self.code as int
            },
        )
    }

    /// The place with a code, on one side of zero.
    fn on_side(code: i128, negative: bool) -> (r: Self)
        requires
            is_code(code as int),
        ensures
            r@ == (if negative {
                -code_size(code as int)
            } else {
                code_size(code as int)
            }),
    {
        proof {
            lemma_zero(0);
        }
        if negative {
            Place { code: 0 - code }
        } else {
            Place { code }
        }
    }

    /// Where a floating point number lies.
    pub fn of_float(float: Float) -> (r: Option<Self>)
        ensures
            match r {
                Some(place) => float.place() == Some(place@),
                None => float.place() is None,
            },
    {
        let negative = float.bits >= SIGN_BIT;
        let bits = if negative {
            float.bits - SIGN_BIT
        } else {
            float.bits
        };
        if bits > INFINITE_BITS {
            None
        } else {
            Some(Place::on_side(2 * (bits as i128), negative))
        }
    }

    /// Where an integer lies that a floating point number is the nearest one to.
    pub fn of_integer(nearest: Float) -> (r: Option<Self>)
        ensures
            match r {
                Some(place) => nearest.integer_place() == Some(place@),
                None => nearest.integer_place() is None,
            },
    {
        let negative = nearest.bits >= SIGN_BIT;
        let bits = if negative {
            nearest.bits - SIGN_BIT
        } else {
            nearest.bits
        };
        if bits == INFINITE_BITS {
            Some(Place::on_side(2 * (bits as i128) - 1, negative))
        } else {
            Place::of_float(nearest)
        }
    }

    /// Where a truth value lies: at one, or at zero.
    pub fn of_bool(value: bool) -> (r: Self)
        ensures
            r@ == (if value {
                pow2(1075) as int
            } else {
                0
            }),
    {
        proof {
            lemma2_to64_rest();
            lemma_pow2_adds(52, 1023);
            let one = ONE_BITS as int;
            assert(one / FRACTIONS as int == 1023 && one % FRACTIONS as int == 0);
            assert(finite_size(one) == (FRACTIONS + 0) * pow2(1023));
            lemma_zero(0);
        }
        if value {
            Place::on_side(2 * (ONE_BITS as i128), false)
        } else {
            Place::on_side(0, false)
        }
    }

    /// Whether this place lies before another one.
    pub fn is_before(&self, other: &Self) -> (r: bool)
        ensures
            r == (self@ < other@),
    {
        proof {
            use_type_invariant(self);
            use_type_invariant(other);
            lemma_place_order(*self, *other);
            lemma_place_order(*other, *self);
        }
        self.code < other.code
    }

    /// Whether this place is another one.
    pub fn is_at(&self, other: &Self) -> (r: bool)
        ensures
            r == (self@ == other@),
    {
        proof {
            use_type_invariant(self);
            use_type_invariant(other);
            lemma_place_order(*self, *other);
            lemma_place_order(*other, *self);
        }
        self.code == other.code
    }
}

proof fn lemma_place_order(a: Place, b: Place)
    requires
        a.is_valid(),
        b.is_valid(),
    ensures
        a.code < b.code ==> a@ < b@,
{
    if a.code < b.code {
        if a.code >= 0 {
            lemma_code_order(a.code as int, b.code as int);
        } else if b.code < 0 {
            lemma_code_order(-b.code, -a.code);
        } else {
            lemma_code_order(0, -a.code);
            if b.code > 0 {
                lemma_code_order(0, b.code as int);
            }
            lemma_zero(0);
        }
    }
}

/// A power of two lies where it is among the numbers: there are as many parts to it as to one,
/// doubled or halved as often as its exponent says.
pub proof fn law_powers_of_two_lie_apart(float: Float, exponent: int)
    requires
        1 <= exponent < 2047,
        float.bits == exponent * FRACTIONS,
    ensures
        float.place() == Some(pow2((exponent + 52) as nat) as int),
        exponent == 1023 ==> float.is_integer(1),
{
    let bits = float.bits as int;
    assert(bits < INFINITE_BITS);
    assert(bits / FRACTIONS as int == exponent && bits % FRACTIONS as int == 0);
    lemma2_to64_rest();
    lemma_pow2_adds(52, exponent as nat);
    assert(finite_size(bits) == (FRACTIONS + 0) * pow2(exponent as nat));
}

/// Of two numbers with the same sign that differ in their bits, the one with the larger bits lies
/// further from zero; the sign turns a number to the other side of zero; and beyond infinity there
/// is no number.
pub proof fn law_bits_tell_the_order(a: Float, b: Float)
    requires
        a.bits < b.bits < SIGN_BIT,
    ensures
        b.bits <= INFINITE_BITS ==> a.place() is Some && b.place() is Some && 0 <= a.place()->0
            < b.place()->0,
        b.bits > INFINITE_BITS ==> b.place() is None,
        ({
            let opposite = Float { bits: (b.bits + SIGN_BIT) as u64 };
            &&& opposite.place() is Some <==> b.place() is Some
            &&& b.place() is Some ==> opposite.place() == Some(-b.place()->0)
        }),
{
    lemma_zero(a.bits as int);
    lemma_finite_order(a.bits as int, b.bits as int);
    if a.bits < INFINITE_BITS {
        lemma_finite_is_less(a.bits as int);
    }
}

} // verus!
