//! Comparing values.
use vstd::arithmetic::power2::pow2;
use vstd::prelude::*;
use crate::float::Place;
use crate::integer::Integer;
use crate::listing::{
    law_text_order_irreflexive, law_text_order_total, law_text_order_transitive,
};
use crate::render::content::Content;
use crate::text::{str_eq, str_less, text_less};
use crate::types::Float;
use crate::words::chars_of;

verus! {

#[derive(Clone, Copy, Debug, PartialEq, Eq, Structural)]
pub enum Comparison {
    Equal,
    Less,
    Greater,
    LessEqual,
    GreaterEqual,
}

/// The comparison that holds of two values the other way round.
pub open spec fn mirrored(op: Comparison) -> Comparison {
    match op {
        Comparison::Equal => Comparison::Equal,
        Comparison::Less => Comparison::Greater,
        Comparison::Greater => Comparison::Less,
        Comparison::LessEqual => Comparison::GreaterEqual,
        Comparison::GreaterEqual => Comparison::LessEqual,
    }
}

/// How two values compare: it is known, or it is to be asked of Python, with the two values in
/// their order or the other way round.
#[derive(Clone, Copy, Debug, PartialEq, Eq, Structural)]
pub enum Decision {
    Known(bool),
    Ask(Comparison),
    AskMirrored(Comparison),
}

/// How two integers compare.
pub open spec fn integers_compare(op: Comparison, a: int, b: int) -> bool {
    match op {
        Comparison::Equal => a == b,
        Comparison::Less => a < b,
        Comparison::Greater => a > b,
        Comparison::LessEqual => a <= b,
        Comparison::GreaterEqual => a >= b,
    }
}

/// How two texts compare.
pub open spec fn texts_compare(op: Comparison, a: Seq<char>, b: Seq<char>) -> bool {
    match op {
        Comparison::Equal => a == b,
        Comparison::Less => text_less(a, b),
        Comparison::Greater => text_less(b, a),
        Comparison::LessEqual => !text_less(b, a),
        Comparison::GreaterEqual => !text_less(a, b),
    }
}

/// The integer that a value is, if it is one: a truth value is zero or one.
pub open spec fn integer_value(content: Content) -> Option<int> {
    match content {
        Content::Int(n) => Some(n@),
        Content::Bool(b) => Some(
            if b {
                1int
            } else {
                0int
            },
        ),
        _ => None,
    }
}

/// Where a number lies that is compared with a floating point number, counted in parts of which
/// there are `pow2(1075)` to one: an integer lies at the floating point number that is nearest to
/// it, and what is not a number lies nowhere.
pub open spec fn place_of(content: Content, nearest: Float) -> Option<int> {
    match content {
        Content::Float(f) => f.place(),
        Content::Int(_) => nearest.integer_place(),
        Content::Bool(b) => Some(
            if b {
                pow2(1075) as int
            } else {
                0int
            },
        ),
        _ => None,
    }
}

/// How two places compare; nothing holds of what lies nowhere.
pub open spec fn places_compare(op: Comparison, a: Option<int>, b: Option<int>) -> bool {
    match (a, b) {
        (Some(a), Some(b)) => integers_compare(op, a, b),
        _ => false,
    }
}

/// A floating point number is one that may be the nearest to an integer, where an integer and a
/// floating point number are compared.
pub open spec fn may_be_nearest(a: Content, b: Content, nearest: Float) -> bool {
    match (a, b) {
        (Content::Float(_), Content::Int(n)) => call_ensures(
            Integer::nearest_float,
            (&n,),
            nearest,
        ),
        (Content::Int(n), Content::Float(_)) => call_ensures(
            Integer::nearest_float,
            (&n,),
            nearest,
        ),
        _ => true,
    }
}

/// The floating point number nearest to an integer, where an integer and a floating point number
/// are compared.
pub fn nearest_of(a: &Content, b: &Content) -> (r: Float)
    ensures
        may_be_nearest(*a, *b, r),
{
    match (a, b) {
        (Content::Float(_), Content::Int(n)) => n.nearest_float(),
        (Content::Int(n), Content::Float(_)) => n.nearest_float(),
        _ => Float { bits: 0 },
    }
}

/// How two values compare, where `nearest` is the floating point number nearest to the one that is
/// an integer, if the other one is a floating point number. Numbers compare with numbers and texts
/// with texts; of a Python object on the right the mirrored question is asked.
pub open spec fn decision(op: Comparison, a: Content, b: Content, nearest: Float) -> Decision {
    match (a, b) {
        (Content::Py(_), _) => Decision::Ask(op),
        (_, Content::Py(_)) => Decision::AskMirrored(mirrored(op)),
        (Content::String(s), Content::String(t)) => Decision::Known(
            texts_compare(op, s@.raw(), t@.raw()),
        ),
        (Content::String(_), _) => Decision::Known(false),
        (_, Content::String(_)) => Decision::Known(false),
        (Content::Float(_), _) => Decision::Known(
            places_compare(op, place_of(a, nearest), place_of(b, nearest)),
        ),
        (_, Content::Float(_)) => Decision::Known(
            places_compare(op, place_of(a, nearest), place_of(b, nearest)),
        ),
        _ => Decision::Known(
            integers_compare(op, integer_value(a)->Some_0, integer_value(b)->Some_0),
        ),
    }
}

/// The view of a place that a number may not have.
pub open spec fn place_view(place: Option<Place>) -> Option<int> {
    match place {
        Some(place) => Some(place@),
        None => None,
    }
}

/// Where a number lies that is compared with a floating point number.
fn find_place(content: &Content, nearest: Float) -> (r: Option<Place>)
    ensures
        place_view(r) == place_of(*content, nearest),
{
    match content {
        Content::Float(f) => Place::of_float(*f),
        Content::Int(_) => Place::of_integer(nearest),
        Content::Bool(b) => Some(Place::of_bool(*b)),
        _ => None,
    }
}

impl Comparison {
    /// The comparison that holds of two values the other way round.
    pub fn mirror(self) -> (r: Self)
        ensures
            r == mirrored(self),
    {
        match self {
            Comparison::Equal => Comparison::Equal,
            Comparison::Less => Comparison::Greater,
            Comparison::Greater => Comparison::Less,
            Comparison::LessEqual => Comparison::GreaterEqual,
            Comparison::GreaterEqual => Comparison::LessEqual,
        }
    }

    fn of_integers(self, a: &Integer, b: &Integer) -> (r: bool)
        ensures
            r == integers_compare(self, a@, b@),
    {
        match self {
            Comparison::Equal => a.equals(b),
            Comparison::Less => a.less_than(b),
            Comparison::Greater => b.less_than(a),
            Comparison::LessEqual => !b.less_than(a),
            Comparison::GreaterEqual => !a.less_than(b),
        }
    }

    fn of_small(self, a: u8, b: u8) -> (r: bool)
        ensures
            r == integers_compare(self, a as int, b as int),
    {
        match self {
            Comparison::Equal => a == b,
            Comparison::Less => a < b,
            Comparison::Greater => a > b,
            Comparison::LessEqual => a <= b,
            Comparison::GreaterEqual => a >= b,
        }
    }

    /// Compares an integer with a truth value.
    fn of_integer_and_bool(self, n: &Integer, b: bool) -> (r: bool)
        ensures
            r == integers_compare(
                self,
                n@,
                if b {
                    1int
                } else {
                    0int
                },
            ),
    {
        let bit: u8 = if b {
            1
        } else {
            0
        };
        if n.is_negative() {
            return match self {
                Comparison::Less | Comparison::LessEqual => true,
                _ => false,
            };
        }
        match n.to_u8() {
            Some(small) => self.of_small(small, bit),
            None => match self {
                Comparison::Greater | Comparison::GreaterEqual => true,
                _ => false,
            },
        }
    }

    fn of_texts(self, a: &str, b: &str) -> (r: bool)
        ensures
            r == texts_compare(self, a@, b@),
    {
        match self {
            Comparison::Equal => str_eq(a, b),
            Comparison::Less => str_less(a, b),
            Comparison::Greater => str_less(b, a),
            Comparison::LessEqual => !str_less(b, a),
            Comparison::GreaterEqual => !str_less(a, b),
        }
    }

    fn of_places(self, a: Option<Place>, b: Option<Place>) -> (r: bool)
        ensures
            r == places_compare(self, place_view(a), place_view(b)),
    {
        match (a, b) {
            (Some(a), Some(b)) => match self {
                Comparison::Equal => a.is_at(&b),
                Comparison::Less => a.is_before(&b),
                Comparison::Greater => b.is_before(&a),
                Comparison::LessEqual => !b.is_before(&a),
                Comparison::GreaterEqual => !a.is_before(&b),
            },
            _ => false,
        }
    }

    /// How two values compare, where `nearest` is the floating point number nearest to the one
    /// that is an integer, if the other one is a floating point number.
    pub fn decide(self, a: &Content, b: &Content, nearest: Float) -> (r: Decision)
        ensures
            r == decision(self, *a, *b, nearest),
    {
        match (a, b) {
            (Content::Py(_), _) => Decision::Ask(self),
            (_, Content::Py(_)) => Decision::AskMirrored(self.mirror()),
            (Content::String(s), Content::String(t)) => Decision::Known(
                self.of_texts(s.as_raw().as_str(), t.as_raw().as_str()),
            ),
            (Content::String(_), _) => Decision::Known(false),
            (_, Content::String(_)) => Decision::Known(false),
            (Content::Float(_), _) => Decision::Known(
                self.of_places(find_place(a, nearest), find_place(b, nearest)),
            ),
            (_, Content::Float(_)) => Decision::Known(
                self.of_places(find_place(a, nearest), find_place(b, nearest)),
            ),
            (Content::Int(n), Content::Int(m)) => Decision::Known(self.of_integers(n, m)),
            (Content::Int(n), Content::Bool(c)) => Decision::Known(
                self.of_integer_and_bool(n, *c),
            ),
            (Content::Bool(c), Content::Int(m)) => Decision::Known(
                self.mirror().of_integer_and_bool(m, *c),
            ),
            (Content::Bool(c), Content::Bool(d)) => {
                let left: u8 = if *c {
                    1
                } else {
                    0
                };
                let right: u8 = if *d {
                    1
                } else {
                    0
                };
                Decision::Known(self.of_small(left, right))
            },
        }
    }
}

/// A text holds another one.
pub open spec fn holds(text: Seq<char>, part: Seq<char>) -> bool {
    exists|i: int|
        0 <= i <= text.len() - part.len() && #[trigger] text.subrange(i, i + part.len()) == part
}

/// Whether the characters from a position on start with some others.
fn starts_at(text: &Vec<char>, pos: usize, part: &Vec<char>) -> (r: bool)
    requires
        pos + part@.len() <= text@.len(),
    ensures
        r == (text@.subrange(pos as int, pos + part@.len()) == part@),
{
    let mut i: usize = 0;
    assert(text@.len() == text.len());
    while i < part.len()
        invariant
            0 <= i <= part@.len(),
            pos + part@.len() <= text@.len() <= usize::MAX,
            forall|j: int| 0 <= j < i ==> text@[pos + j] == part@[j],
        decreases part@.len() - i,
    {
        if text[pos + i] != part[i] {
            assert(text@.subrange(pos as int, pos + part@.len())[i as int] != part@[i as int]);
            return false;
        }
        i += 1;
    }
    assert(text@.subrange(pos as int, pos + part@.len()) =~= part@);
    true
}

/// Whether a text holds another one.
pub fn text_holds(text: &str, part: &str) -> (r: bool)
    ensures
        r == holds(text@, part@),
{
    let chars = chars_of(text);
    let wanted = chars_of(part);
    if wanted.len() > chars.len() {
        return false;
    }
    let last = chars.len() - wanted.len();
    let mut i: usize = 0;
    while i < last
        invariant
            0 <= i <= last,
            chars@ == text@,
            wanted@ == part@,
            last == chars@.len() - wanted@.len(),
            forall|j: int|
                0 <= j < i ==> #[trigger] text@.subrange(j, j + part@.len()) != part@,
        decreases last - i,
    {
        if starts_at(&chars, i, &wanted) {
            return true;
        }
        i += 1;
    }
    starts_at(&chars, last, &wanted)
}

/// Whether a value holds another one: it is known, where there is an answer at all, or it is to be
/// asked of Python.
#[derive(Clone, Copy, Debug, PartialEq, Eq)]
pub enum Membership {
    Known(Option<bool>),
    Ask,
}

/// Whether a value holds another one, or one that is missing.
pub open spec fn membership(container: Content, item: Option<Content>) -> Membership {
    match (container, item) {
        (_, Some(Content::Py(_))) => Membership::Ask,
        (Content::Py(_), _) => Membership::Ask,
        (Content::String(s), Some(Content::String(t))) => Membership::Known(
            Some(holds(s@.raw(), t@.raw())),
        ),
        _ => Membership::Known(None),
    }
}

impl Content {
    /// Whether the value holds another one, or one that is missing.
    pub fn contains(&self, item: &Option<Content>) -> (r: Membership)
        ensures
            r == membership(*self, *item),
    {
        match (self, item) {
            (_, Some(Content::Py(_))) => Membership::Ask,
            (Content::Py(_), _) => Membership::Ask,
            (Content::String(s), Some(Content::String(t))) => Membership::Known(
                Some(text_holds(s.as_raw().as_str(), t.as_raw().as_str())),
            ),
            _ => Membership::Known(None),
        }
    }
}

/// Two values compare the other way round as well, with the mirrored comparison: the same is known,
/// or the same question is asked. Of two Python objects each is asked of its own.
pub proof fn law_comparison_mirrors(op: Comparison, a: Content, b: Content, nearest: Float)
    requires
        !(a is Py && b is Py),
    ensures
        decision(mirrored(op), b, a, nearest) == (match decision(op, a, b, nearest) {
            Decision::Known(known) => Decision::Known(known),
            Decision::Ask(question) => Decision::AskMirrored(question),
            Decision::AskMirrored(question) => Decision::Ask(question),
        }),
{
}

/// Integers and truth values compare by the integers that they are: exactly one of two is less than
/// the other or they are equal, and equality goes both ways.
pub proof fn law_integers_compare_by_value(op: Comparison, a: Content, b: Content, nearest: Float)
    requires
        integer_value(a) is Some,
        integer_value(b) is Some,
    ensures
        ({
            let left = integer_value(a)->Some_0;
            let right = integer_value(b)->Some_0;
            let less = decision(Comparison::Less, a, b, nearest);
            let equal = decision(Comparison::Equal, a, b, nearest);
            let greater = decision(Comparison::Greater, a, b, nearest);
            &&& decision(op, a, b, nearest) == Decision::Known(integers_compare(op, left, right))
            &&& less == Decision::Known(left < right)
            &&& equal == Decision::Known(left == right)
            &&& greater == Decision::Known(left > right)
            &&& decision(Comparison::Equal, b, a, nearest) == equal
        }),
{
}

/// Of two numbers, or two texts, exactly one is less than the other, or they are equal.
pub proof fn law_comparison_is_total(a: Content, b: Content, nearest: Float)
    requires
        decision(Comparison::Equal, a, b, nearest) is Known,
        (a is String) == (b is String),
        a is Float || b is Float ==> place_of(a, nearest) is Some && place_of(b, nearest) is Some,
    ensures
        ({
            let less = decision(Comparison::Less, a, b, nearest) == Decision::Known(true);
            let equal = decision(Comparison::Equal, a, b, nearest) == Decision::Known(true);
            let greater = decision(Comparison::Greater, a, b, nearest) == Decision::Known(true);
            &&& less || equal || greater
            &&& !(less && equal) && !(less && greater) && !(equal && greater)
        }),
{
    if let (Content::String(s), Content::String(t)) = (a, b) {
        lemma_text_order(s@.raw(), t@.raw());
    }
}

/// Of two values, neither of which is a Python object, one is at most the other just if it is less
/// or they are equal, and at least the other just if it is greater or they are equal.
pub proof fn law_at_most_is_less_or_equal(a: Content, b: Content, nearest: Float)
    requires
        !(a is Py),
        !(b is Py),
    ensures
        ({
            let equal = decision(Comparison::Equal, a, b, nearest) == Decision::Known(true);
            let less = decision(Comparison::Less, a, b, nearest) == Decision::Known(true);
            let greater = decision(Comparison::Greater, a, b, nearest) == Decision::Known(true);
            &&& decision(Comparison::LessEqual, a, b, nearest) == Decision::Known(less || equal)
            &&& decision(Comparison::GreaterEqual, a, b, nearest) == Decision::Known(
                greater || equal,
            )
        }),
{
    if let (Content::String(s), Content::String(t)) = (a, b) {
        lemma_text_order(s@.raw(), t@.raw());
    }
}

/// A floating point number and an integer compare by what they are, where the floating point number
/// nearest to the integer is the integer.
pub proof fn law_exact_integers_compare_by_value(
    op: Comparison,
    float: Float,
    integer: Integer,
    nearest: Float,
)
    requires
        nearest.is_integer(integer@),
    ensures
        decision(op, Content::Float(float), Content::Int(integer), nearest) == Decision::Known(
            places_compare(op, float.place(), Some(integer@ * pow2(1075))),
        ),
{
}

/// No comparison holds of what is not a number and of a number, nor of a text and of a number.
pub proof fn law_strangers_do_not_compare(
    op: Comparison,
    a: Content,
    b: Content,
    nearest: Float,
)
    requires
        !(a is Py),
        !(b is Py),
        ({
            ||| (a is String) != (b is String)
            ||| a matches Content::Float(f) && f.place() is None
            ||| b matches Content::Float(f) && f.place() is None
        }),
    ensures
        decision(op, a, b, nearest) == Decision::Known(false),
{
}

proof fn lemma_text_order(a: Seq<char>, b: Seq<char>)
    ensures
        text_less(a, b) || a == b || text_less(b, a),
        !(text_less(a, b) && text_less(b, a)),
        a == b ==> !text_less(a, b),
{
    law_text_order_total(a, b);
    law_text_order_irreflexive(a);
    if text_less(a, b) && text_less(b, a) {
        law_text_order_transitive(a, b, a);
    }
}

} // verus!
