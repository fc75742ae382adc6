//! What conditions say.
use vstd::arithmetic::power2::pow2;
use vstd::prelude::*;
use crate::integer::Integer;
use crate::lexer::tokens::IfConditionOperator;
use crate::parse::tree::{IfCondition, TagElement};
use crate::render::compare::{decision, holds, may_be_nearest, Comparison, Decision};
use crate::render::condition::{
    all_passed_over, answer, evaluates, first_true_value, given, is_true_value, operator_says,
    option_holds, passed_over, resolves, side_gives, sides_say, Failures, Python, Side,
};
use crate::render::content::Content;
use crate::render::context::Context;
use crate::render::errors::PyRenderError;
use crate::text::text_less;
use crate::types::Float;

verus! {

/// Both of two conditions.
pub open spec fn both(l: IfCondition<Integer>, r: IfCondition<Integer>) -> IfCondition<Integer> {
    IfCondition::And(Box::new((l, r)))
}

/// One of two conditions.
pub open spec fn either(l: IfCondition<Integer>, r: IfCondition<Integer>) -> IfCondition<Integer> {
    IfCondition::Or(Box::new((l, r)))
}

/// The opposite of a condition.
pub open spec fn opposite(c: IfCondition<Integer>) -> IfCondition<Integer> {
    IfCondition::Not(Box::new(c))
}

/// A condition may evaluate to something.
pub open spec fn has_answer<P: Python>(
    py: &P,
    context: Context,
    c: IfCondition<Integer>,
) -> bool {
    exists|a: Option<bool>| #[trigger] answer(a) && evaluates(py, context, c, a)
}

/// A condition evaluates to something other than an answer.
pub open spec fn has_another_answer<P: Python>(
    py: &P,
    context: Context,
    c: IfCondition<Integer>,
    than: bool,
) -> bool {
    exists|a: Option<bool>|
        #[trigger] answer(a) && evaluates(py, context, c, a) && a != Some(than)
}

/// `and` holds just if both of its sides do, and fails just if one of them does not hold; it always
/// does one of the two.
pub proof fn law_both_sides_of_and_hold<P: Python>(
    py: &P,
    context: Context,
    l: IfCondition<Integer>,
    r: IfCondition<Integer>,
)
    ensures
        evaluates(py, context, both(l, r), Some(true)) <==> evaluates(py, context, l, Some(true))
            && evaluates(py, context, r, Some(true)),
        evaluates(py, context, both(l, r), Some(false)) <==> {
            ||| has_another_answer(py, context, l, true) && has_answer(py, context, r)
            ||| has_answer(py, context, l) && has_another_answer(py, context, r, true)
        },
        !evaluates(py, context, both(l, r), None),
{
    reveal_with_fuel(evaluates, 2);
    assert(answer(Some(true)));
    if has_another_answer(py, context, l, true) && has_answer(py, context, r) {
        let a = choose|a: Option<bool>|
            #[trigger] answer(a) && evaluates(py, context, l, a) && a != Some(true);
        let b = choose|a: Option<bool>| #[trigger] answer(a) && evaluates(py, context, r, a);
        assert(answer(a) && answer(b));
    }
    if has_answer(py, context, l) && has_another_answer(py, context, r, true) {
        let b = choose|a: Option<bool>|
            #[trigger] answer(a) && evaluates(py, context, r, a) && a != Some(true);
        let a = choose|a: Option<bool>| #[trigger] answer(a) && evaluates(py, context, l, a);
        assert(answer(a) && answer(b));
    }
}

/// The sides of `and` may be swapped.
pub proof fn law_and_commutes<P: Python>(
    py: &P,
    context: Context,
    l: IfCondition<Integer>,
    r: IfCondition<Integer>,
    outcome: Option<bool>,
)
    ensures
        evaluates(py, context, both(l, r), outcome) == evaluates(
            py,
            context,
            both(r, l),
            outcome,
        ),
{
    law_both_sides_of_and_hold(py, context, l, r);
    law_both_sides_of_and_hold(py, context, r, l);
    assert(outcome == Some(true) || outcome == Some(false) || outcome is None);
}

/// `or` holds just if its left side does, or is false and the right side holds; it fails just if
/// neither holds, or the left side is a value that is missing. It always does one of the two.
pub proof fn law_one_side_of_or_holds<P: Python>(
    py: &P,
    context: Context,
    l: IfCondition<Integer>,
    r: IfCondition<Integer>,
)
    ensures
        evaluates(py, context, either(l, r), Some(true)) ==> evaluates(py, context, l, Some(true))
            || evaluates(py, context, r, Some(true)),
        evaluates(py, context, l, Some(true)) && has_answer(py, context, r) ==> evaluates(
            py,
            context,
            either(l, r),
            Some(true),
        ),
        evaluates(py, context, l, Some(false)) && evaluates(py, context, r, Some(true))
            ==> evaluates(py, context, either(l, r), Some(true)),
        evaluates(py, context, either(l, r), Some(false)) ==> {
            ||| evaluates(py, context, l, None)
            ||| evaluates(py, context, l, Some(false)) && has_another_answer(py, context, r, true)
        },
        evaluates(py, context, l, None) && has_answer(py, context, r) ==> evaluates(
            py,
            context,
            either(l, r),
            Some(false),
        ),
        evaluates(py, context, l, Some(false)) && has_another_answer(py, context, r, true)
            ==> evaluates(py, context, either(l, r), Some(false)),
        !evaluates(py, context, either(l, r), None),
{
    reveal_with_fuel(evaluates, 2);
    assert(answer(Some(true)) && answer(Some(false)) && answer(None));
    if evaluates(py, context, either(l, r), Some(false)) {
        let (a, b) = choose|a: Option<bool>, b: Option<bool>|
            {
                &&& #[trigger] answer(a)
                &&& #[trigger] answer(b)
                &&& evaluates(py, context, l, a)
                &&& evaluates(py, context, r, b)
                &&& Some(false) == Some(a == Some(true) || (a == Some(false) && b == Some(true)))
            };
        assert(a is None || a == Some(false));
        assert(answer(b));
    }
    if has_answer(py, context, r) {
        let b = choose|a: Option<bool>| #[trigger] answer(a) && evaluates(py, context, r, a);
        assert(answer(b));
    }
    if has_another_answer(py, context, r, true) {
        let b = choose|a: Option<bool>|
            #[trigger] answer(a) && evaluates(py, context, r, a) && a != Some(true);
        assert(answer(b));
    }
}

/// The sides of `or` may be swapped, where none of them is a value that is missing.
pub proof fn law_or_commutes<P: Python>(
    py: &P,
    context: Context,
    l: IfCondition<Integer>,
    r: IfCondition<Integer>,
    outcome: Option<bool>,
)
    requires
        !evaluates(py, context, l, None),
        !evaluates(py, context, r, None),
    ensures
        evaluates(py, context, either(l, r), outcome) == evaluates(
            py,
            context,
            either(r, l),
            outcome,
        ),
{
    reveal_with_fuel(evaluates, 2);
    assert(answer(Some(true)) && answer(Some(false)) && answer(None));
    if evaluates(py, context, either(l, r), outcome) {
        let (a, b) = choose|a: Option<bool>, b: Option<bool>|
            {
                &&& #[trigger] answer(a)
                &&& #[trigger] answer(b)
                &&& evaluates(py, context, l, a)
                &&& evaluates(py, context, r, b)
                &&& outcome == Some(a == Some(true) || (a == Some(false) && b == Some(true)))
            };
        assert(a is Some && b is Some);
        assert(answer(b) && answer(a));
    }
    if evaluates(py, context, either(r, l), outcome) {
        let (b, a) = choose|b: Option<bool>, a: Option<bool>|
            {
                &&& #[trigger] answer(b)
                &&& #[trigger] answer(a)
                &&& evaluates(py, context, r, b)
                &&& evaluates(py, context, l, a)
                &&& outcome == Some(b == Some(true) || (b == Some(false) && a == Some(true)))
            };
        assert(a is Some && b is Some);
        assert(answer(b) && answer(a));
    }
}

/// `not` holds just if what follows it is false; of a value that is missing it does not hold.
pub proof fn law_not_turns_round<P: Python>(py: &P, context: Context, c: IfCondition<Integer>)
    ensures
        evaluates(py, context, opposite(c), Some(true)) == evaluates(
            py,
            context,
            c,
            Some(false),
        ),
        evaluates(py, context, opposite(c), Some(false)) == has_another_answer(
            py,
            context,
            c,
            false,
        ),
        !evaluates(py, context, opposite(c), None),
{
    reveal_with_fuel(evaluates, 2);
    assert(answer(Some(false)));
    if has_another_answer(py, context, c, false) {
        let a = choose|a: Option<bool>|
            #[trigger] answer(a) && evaluates(py, context, c, a) && a != Some(false);
        assert(answer(a));
    }
}

/// Not both hold just if one of the opposites does, where no value is missing.
pub proof fn law_opposite_of_both<P: Python>(
    py: &P,
    context: Context,
    l: IfCondition<Integer>,
    r: IfCondition<Integer>,
    truth: bool,
)
    requires
        !evaluates(py, context, l, None),
        !evaluates(py, context, r, None),
    ensures
        evaluates(py, context, opposite(both(l, r)), Some(truth)) == evaluates(
            py,
            context,
            either(opposite(l), opposite(r)),
            Some(truth),
        ),
{
    law_both_sides_of_and_hold(py, context, l, r);
    law_not_turns_round(py, context, both(l, r));
    law_not_turns_round(py, context, l);
    law_not_turns_round(py, context, r);
    law_one_side_of_or_holds(py, context, opposite(l), opposite(r));
    lemma_two_answers(py, context, l);
    lemma_two_answers(py, context, r);
    lemma_two_answers(py, context, both(l, r));
    lemma_two_answers(py, context, opposite(l));
    lemma_two_answers(py, context, opposite(r));
}

proof fn lemma_two_answers<P: Python>(py: &P, context: Context, c: IfCondition<Integer>)
    requires
        !evaluates(py, context, c, None),
    ensures
        has_another_answer(py, context, c, true) == evaluates(py, context, c, Some(false)),
        has_another_answer(py, context, c, false) == evaluates(py, context, c, Some(true)),
        has_answer(py, context, c) == (evaluates(py, context, c, Some(false)) || evaluates(
            py,
            context,
            c,
            Some(true),
        )),
{
    assert(answer(Some(true)) && answer(Some(false)));
    if has_another_answer(py, context, c, true) {
        let a = choose|a: Option<bool>|
            #[trigger] answer(a) && evaluates(py, context, c, a) && a != Some(true);
        assert(a == Some(false));
    }
    if has_another_answer(py, context, c, false) {
        let a = choose|a: Option<bool>|
            #[trigger] answer(a) && evaluates(py, context, c, a) && a != Some(false);
        assert(a == Some(true));
    }
    if has_answer(py, context, c) {
        let a = choose|a: Option<bool>| #[trigger] answer(a) && evaluates(py, context, c, a);
        assert(a == Some(true) || a == Some(false));
    }
}

/// The number that a value is, if it is one: what is true is one, what is false is zero.
pub open spec fn whole_number(content: Content) -> Option<int> {
    match content {
        Content::Int(n) => Some(n@),
        Content::Bool(true) => Some(1),
        Content::Bool(false) => Some(0),
        _ => None,
    }
}

/// The six operators that compare say of numbers what they say in mathematics.
pub proof fn law_operators_compare_numbers<P: Python>(
    py: &P,
    left: Content,
    right: Content,
    outcome: bool,
)
    requires
        whole_number(left) is Some,
        whole_number(right) is Some,
    ensures
        ({
            let a = whole_number(left)->0;
            let b = whole_number(right)->0;
            let (l, r) = (Some(left), Some(right));
            &&& operator_says(py, IfConditionOperator::Equal, l, r, outcome) == (outcome == (a
                == b))
            &&& operator_says(py, IfConditionOperator::NotEqual, l, r, outcome) == (outcome == (a
                != b))
            &&& operator_says(py, IfConditionOperator::LessThan, l, r, outcome) == (outcome == (a
                < b))
            &&& operator_says(py, IfConditionOperator::GreaterThan, l, r, outcome) == (outcome == (
            a > b))
            &&& operator_says(py, IfConditionOperator::LessThanEqual, l, r, outcome) == (outcome
                == (a <= b))
            &&& operator_says(py, IfConditionOperator::GreaterThanEqual, l, r, outcome) == (outcome
                == (a >= b))
        }),
{
    assert(may_be_nearest(left, right, Float { bits: 0 }));
}

/// The six operators that compare say of texts which of them comes first.
pub proof fn law_operators_compare_texts<P: Python>(
    py: &P,
    left: Content,
    right: Content,
    outcome: bool,
)
    requires
        left is String,
        right is String,
    ensures
        ({
            let a = left->String_0@.raw();
            let b = right->String_0@.raw();
            let (l, r) = (Some(left), Some(right));
            &&& operator_says(py, IfConditionOperator::Equal, l, r, outcome) == (outcome == (a
                == b))
            &&& operator_says(py, IfConditionOperator::NotEqual, l, r, outcome) == (outcome == (a
                != b))
            &&& operator_says(py, IfConditionOperator::LessThan, l, r, outcome) == (outcome
                == text_less(a, b))
            &&& operator_says(py, IfConditionOperator::GreaterThan, l, r, outcome) == (outcome
                == text_less(b, a))
            &&& operator_says(py, IfConditionOperator::LessThanEqual, l, r, outcome) == (outcome
                == !text_less(b, a))
            &&& operator_says(py, IfConditionOperator::GreaterThanEqual, l, r, outcome) == (outcome
                == !text_less(a, b))
        }),
{
    assert(may_be_nearest(left, right, Float { bits: 0 }));
}

/// The answer that a comparison of numbers gives.
pub open spec fn compared(op: Comparison, a: int, b: int) -> bool {
    match op {
        Comparison::Equal => a == b,
        Comparison::Less => a < b,
        Comparison::Greater => b < a,
        Comparison::LessEqual => !(b < a),
        Comparison::GreaterEqual => !(a < b),
    }
}

/// Where a Python object is compared, Python is asked what the operator asks: the question that is
/// put would be answered alike by numbers in place of the two values.
pub proof fn law_python_is_asked_the_same(
    op: Comparison,
    left: Content,
    right: Content,
    nearest: Float,
    a: int,
    b: int,
)
    requires
        left is Py || right is Py,
    ensures
        match decision(op, left, right, nearest) {
            Decision::Known(_) => false,
            Decision::Ask(question) => left is Py && compared(question, a, b) == compared(op, a, b),
            Decision::AskMirrored(question) => right is Py && compared(question, b, a)
                == compared(op, a, b),
        },
{
}

/// `in` holds of texts just if the one on the right goes on with the one on the left somewhere, and
/// `not in` just if it does not; of what holds nothing, neither holds.
pub proof fn law_texts_are_in_texts<P: Python>(
    py: &P,
    left: Content,
    right: Content,
    outcome: bool,
)
    requires
        left is String,
        right is String,
    ensures
        ({
            let part = left->String_0@.raw();
            let text = right->String_0@.raw();
            &&& operator_says(py, IfConditionOperator::In, Some(left), Some(right), outcome) == (
            outcome == exists|before: Seq<char>, after: Seq<char>|
                text == #[trigger] (before + part + after))
            &&& operator_says(py, IfConditionOperator::NotIn, Some(left), Some(right), outcome)
                == (outcome == !exists|before: Seq<char>, after: Seq<char>|
                text == #[trigger] (before + part + after))
        }),
{
    let part = left->String_0@.raw();
    let text = right->String_0@.raw();
    let held = holds(text, part);
    assert(option_holds(py, Some(left), right, Some(held)));
    assert(held == exists|before: Seq<char>, after: Seq<char>|
        text == #[trigger] (before + part + after)) by {
        if held {
            let i = choose|i: int|
                0 <= i <= text.len() - part.len() && #[trigger] text.subrange(i, i + part.len())
                    == part;
            assert(text =~= text.take(i) + part + text.skip(i + part.len()));
        }
        if exists|before: Seq<char>, after: Seq<char>| text == #[trigger] (before + part + after) {
            let (before, after) = choose|before: Seq<char>, after: Seq<char>|
                text == #[trigger] (before + part + after);
            let i = before.len() as int;
            assert(text.subrange(i, i + part.len()) =~= part);
        }
    }
}

/// Of what cannot hold anything neither `in` nor `not in` says yes.
pub proof fn law_nothing_is_in_numbers<P: Python>(
    py: &P,
    item: Option<Content>,
    container: Option<Content>,
    outcome: bool,
)
    requires
        match container {
            None => true,
            Some(Content::Py(_)) => false,
            Some(Content::String(_)) => item is None || !(item->0 is Py || item->0 is String),
            Some(_) => item is None || !(item->0 is Py),
        },
    ensures
        operator_says(py, IfConditionOperator::In, item, container, outcome) == !outcome,
        operator_says(py, IfConditionOperator::NotIn, item, container, outcome) == !outcome,
{
    if let Some(c) = container {
        assert(option_holds(py, item, c, None));
    }
}

/// A condition that compares two others by an operator.
pub open spec fn comparing(
    operator: IfConditionOperator,
    l: IfCondition<Integer>,
    r: IfCondition<Integer>,
) -> IfCondition<Integer> {
    let sides = Box::new((l, r));
    match operator {
        IfConditionOperator::And => IfCondition::And(sides),
        IfConditionOperator::Or => IfCondition::Or(sides),
        IfConditionOperator::Equal => IfCondition::Equal(sides),
        IfConditionOperator::NotEqual => IfCondition::NotEqual(sides),
        IfConditionOperator::LessThan => IfCondition::LessThan(sides),
        IfConditionOperator::GreaterThan => IfCondition::GreaterThan(sides),
        IfConditionOperator::LessThanEqual => IfCondition::LessThanEqual(sides),
        IfConditionOperator::GreaterThanEqual => IfCondition::GreaterThanEqual(sides),
        IfConditionOperator::In => IfCondition::In(sides),
        IfConditionOperator::NotIn => IfCondition::NotIn(sides),
        IfConditionOperator::Is => IfCondition::Is(sides),
        IfConditionOperator::IsNot => IfCondition::IsNot(sides),
    }
}

/// A value of the template is always the same.
pub open spec fn always_is<P: Python>(
    py: &P,
    context: Context,
    element: TagElement<Integer>,
    side: Side,
) -> bool {
    forall|s: Side| #[trigger]
        resolves(py, element, Failures::IgnoreVariableDoesNotExist, context, s) <==> s == side
}

/// A comparison of two values of the template says what its operator says of the value on the left
/// and the one on the right, and does not hold where one of them gives an error.
pub proof fn law_comparisons_compare_their_sides<P: Python>(
    py: &P,
    context: Context,
    operator: IfConditionOperator,
    l: TagElement<Integer>,
    r: TagElement<Integer>,
    left: Side,
    right: Side,
    outcome: Option<bool>,
)
    requires
        !(operator is And),
        !(operator is Or),
        always_is(py, context, l, left),
        always_is(py, context, r, right),
    ensures
        evaluates(
            py,
            context,
            comparing(operator, IfCondition::Variable(l), IfCondition::Variable(r)),
            outcome,
        ) <==> (match (left, right) {
            (Ok(left), Ok(right)) => outcome is Some && operator_says(
                py,
                operator,
                left,
                right,
                outcome->0,
            ),
            _ => outcome == Some(false),
        }),
{
    reveal_with_fuel(evaluates, 2);
    reveal_with_fuel(side_gives, 2);
    reveal_with_fuel(sides_say, 2);
    assert(given(left) && given(right));
    let (a, b) = (IfCondition::Variable(l), IfCondition::Variable(r));
    assert(forall|s: Side| side_gives(py, context, a, s) == (s == left)) by {
        assert forall|s: Side| side_gives(py, context, a, s) == (s == left) by {
            assert(resolves(py, l, Failures::IgnoreVariableDoesNotExist, context, s) == (s
                == left));
        }
    }
    assert(forall|s: Side| side_gives(py, context, b, s) == (s == right)) by {
        assert forall|s: Side| side_gives(py, context, b, s) == (s == right) by {
            assert(resolves(py, r, Failures::IgnoreVariableDoesNotExist, context, s) == (s
                == right));
        }
    }
    assert(sides_say(py, context, operator, (a, b), outcome) == (match (left, right) {
        (Ok(left), Ok(right)) => outcome is Some && operator_says(
            py,
            operator,
            left,
            right,
            outcome->0,
        ),
        _ => outcome == Some(false),
    }));
}

/// A side that is a condition of its own gives its truth value.
pub proof fn law_conditions_give_truth_values<P: Python>(
    py: &P,
    context: Context,
    c: IfCondition<Integer>,
    side: Side,
)
    requires
        !(c is Variable),
    ensures
        side_gives(py, context, c, side) <==> {
            ||| side == Ok::<_, PyRenderError<String>>(Some(Content::Bool(true))) && evaluates(
                py,
                context,
                c,
                Some(true),
            )
            ||| side == Ok::<_, PyRenderError<String>>(Some(Content::Bool(false))) && evaluates(
                py,
                context,
                c,
                Some(false),
            )
        },
{
    assert(answer(Some(true)) && answer(Some(false)));
}

/// A value that is missing is the same as another one and as Python's `None`; a Python object is
/// the same as itself alone, and as the truth value before it that it is. Nothing else is the
/// same.
pub proof fn law_is_tells_the_same<P: Python>(
    py: &P,
    left: Option<Content>,
    right: Option<Content>,
    outcome: bool,
)
    ensures
        operator_says(py, IfConditionOperator::Is, left, right, outcome) <==> match (left, right) {
            (None, None) => outcome,
            (Some(Content::Py(a)), Some(Content::Py(b))) => call_ensures(
                P::is_same,
                (py, a, b),
                outcome,
            ),
            (Some(Content::Py(a)), None) => call_ensures(P::is_none, (py, a), outcome),
            (None, Some(Content::Py(b))) => call_ensures(P::is_none, (py, b), outcome),
            (Some(Content::Bool(truth)), Some(Content::Py(b))) => call_ensures(
                P::is_bool,
                (py, b, truth),
                outcome,
            ),
            _ => !outcome,
        },
{
}

/// `is not` says the opposite of `is`, unless a truth value stands on its right: such a value is
/// another one than the other truth value, and than a Python object that it is not.
pub proof fn law_is_not_tells_the_opposite<P: Python>(
    py: &P,
    left: Option<Content>,
    right: Option<Content>,
    outcome: bool,
)
    ensures
        operator_says(py, IfConditionOperator::IsNot, left, right, outcome) <==> match (
            left,
            right,
        ) {
            (Some(Content::Bool(a)), Some(Content::Bool(b))) => outcome == (a != b),
            (Some(Content::Py(a)), Some(Content::Bool(truth))) => call_ensures(
                P::is_bool,
                (py, a, truth),
                !outcome,
            ),
            _ => operator_says(py, IfConditionOperator::Is, left, right, !outcome),
        },
{
}

/// A number is true just if it is not equal to zero, and a text just if it is not empty.
pub proof fn law_zero_and_nothing_are_false<P: Python>(
    py: &P,
    content: Content,
    nearest: Float,
    truth: bool,
)
    requires
        !(content is Py),
    ensures
        content is String ==> is_true_value(py, content, truth) == (truth == (
        content->String_0@.raw() != Seq::<char>::empty())),
        !(content is String) ==> is_true_value(py, content, truth) == (decision(
            Comparison::Equal,
            content,
            Content::Bool(false),
            nearest,
        ) == Decision::Known(!truth)),
        whole_number(content) is Some ==> is_true_value(py, content, truth) == (truth == (
        whole_number(content) != Some(0int))),
{
    if content is String {
        let raw = content->String_0@.raw();
        if raw.len() == 0 {
            assert(raw =~= Seq::<char>::empty());
        }
    }
}

/// Where each value up to one is missing or not true, and this one is true, it is the first one
/// that is.
pub proof fn law_first_true_value<P: Python>(
    py: &P,
    context: Context,
    elements: Seq<TagElement<Integer>>,
    values: Seq<Option<Content>>,
    k: int,
    side: Side,
)
    requires
        0 <= k <= values.len() == elements.len(),
        forall|i: int|
            0 <= i < elements.len() ==> always_is(
                py,
                context,
                #[trigger] elements[i],
                Ok(values[i]),
            ),
        forall|i: int|
            0 <= i < k ==> (#[trigger] values[i] matches Some(content) ==> is_true_value(
                py,
                content,
                false,
            ) && !is_true_value(py, content, true)),
        k < values.len() ==> (values[k] matches Some(content) && is_true_value(py, content, true)
            && !is_true_value(py, content, false)),
    ensures
        first_true_value(py, context, elements, side) <==> (side == if k < values.len() {
            Ok::<_, PyRenderError<String>>(values[k])
        } else {
            Ok(None)
        }),
{
    let ignore = Failures::IgnoreVariableDoesNotExist;
    assert forall|i: int| 0 <= i < elements.len() implies {
        &&& (i < k ==> passed_over(py, context, #[trigger] elements[i]))
        &&& (i == k ==> !passed_over(py, context, elements[i]))
    } by {
        assert(resolves(py, elements[i], ignore, context, Ok(values[i])));
        if i < k {
            assert(values[i] is Some ==> is_true_value(py, values[i]->0, false));
        }
        if i == k && passed_over(py, context, elements[i]) {
            let s = choose|s: Side|
                {
                    &&& #[trigger] resolves(py, elements[i], ignore, context, s)
                    &&& match s {
                        Ok(None) => true,
                        Ok(Some(content)) => is_true_value(py, content, false),
                        Err(_) => false,
                    }
                };
            assert(s == Ok::<_, PyRenderError<String>>(values[k]));
        }
    }
    if k < values.len() {
        assert(!passed_over(py, context, elements[k]));
        assert(resolves(py, elements[k], ignore, context, Ok(values[k])));
    }
    if first_true_value(py, context, elements, side) && !(side matches Ok(None)) {
        let i = choose|i: int|
            {
                &&& 0 <= i < elements.len()
                &&& all_passed_over(py, context, elements, i)
                &&& resolves(py, #[trigger] elements[i], ignore, context, side)
                &&& match side {
                    Ok(Some(content)) => is_true_value(py, content, true),
                    _ => true,
                }
            };
        assert(side == Ok::<_, PyRenderError<String>>(values[i]));
        if k < i {
            assert(passed_over(py, context, elements[k]));
        }
        if i < k {
            assert(values[i] is Some ==> !is_true_value(py, values[i]->0, true));
        }
    }
}

/// A truth value compares with a floating point number as one or zero does.
pub proof fn law_truth_values_compare_as_numbers(
    op: Comparison,
    float: Float,
    truth: bool,
    number: Integer,
    exact: Float,
)
    requires
        number@ == (if truth {
            1int
        } else {
            0int
        }),
        exact.is_integer(number@),
    ensures
        decision(op, Content::Float(float), Content::Bool(truth), exact) == decision(
            op,
            Content::Float(float),
            Content::Int(number),
            exact,
        ),
        decision(op, Content::Bool(truth), Content::Float(float), exact) == decision(
            op,
            Content::Int(number),
            Content::Float(float),
            exact,
        ),
{
    assert(0 * pow2(1075) == 0 && 1 * pow2(1075) == pow2(1075)) by (nonlinear_arith);
}

/// What is missing is equal to what is missing and to a Python object that is equal to `None`, and
/// to nothing else.
pub proof fn law_missing_values_equal_each_other<P: Python>(
    py: &P,
    other: Option<Content>,
    outcome: bool,
)
    ensures
        operator_says(py, IfConditionOperator::Equal, None, other, outcome) <==> match other {
            None => outcome,
            Some(Content::Py(object)) => call_ensures(P::equals_none, (py, object), outcome),
            Some(_) => !outcome,
        },
        operator_says(py, IfConditionOperator::Equal, other, None, outcome) == operator_says(
            py,
            IfConditionOperator::Equal,
            None,
            other,
            outcome,
        ),
{
}

} // verus!
