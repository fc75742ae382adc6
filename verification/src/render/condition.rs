//! Evaluating conditions.
use vstd::prelude::*;
use crate::integer::Integer;
use crate::lexer::tokens::IfConditionOperator;
use crate::parse::tree::{FirstOf, IfCondition, TagElement};
use crate::render::compare::{
    decision, law_comparison_mirrors, may_be_nearest, membership, mirrored, nearest_of, Comparison,
    Decision, Membership,
};
use crate::render::content::Content;
use crate::render::context::Context;
use crate::render::errors::PyRenderError;
use crate::types::{Float, PyObject};

verus! {

/// What becomes of a variable that does not exist.
#[derive(Clone, Copy, Debug, PartialEq, Eq, Structural)]
pub enum Failures {
    /// It is an error.
    Raise,
    /// It has no value.
    IgnoreVariableDoesNotExist,
}

/// What is to be asked of Python, and of the values of a template.
pub trait Python {
    /// Whether a value of the template is true, if it has a value.
    fn evaluate(&self, element: &TagElement<Integer>, context: &Context) -> Option<bool>;

    /// A value of the template, if it has one.
    fn resolve(
        &self,
        element: &TagElement<Integer>,
        failures: Failures,
        context: &Context,
    ) -> Result<Option<Content>, PyRenderError<String>>;

    /// Whether a Python object is true.
    fn is_truthy(&self, object: PyObject) -> Result<bool, PyObject>;

    /// How two values compare, of which the first one is a Python object.
    fn compare(&self, op: Comparison, left: &Content, right: &Content) -> bool;

    /// Whether an object is equal to `None`.
    fn equals_none(&self, object: PyObject) -> bool;

    /// Whether a value holds another one, or `None`, if there is an answer.
    fn contains(&self, container: &Content, item: &Option<Content>) -> Option<bool>;

    /// Whether two objects are the same one.
    fn is_same(&self, left: PyObject, right: PyObject) -> bool;

    /// Whether an object is `None`.
    fn is_none(&self, object: PyObject) -> bool;

    /// Whether an object is `True` or `False`.
    fn is_bool(&self, object: PyObject, value: bool) -> bool;
}

/// Two values compare in a way.
pub open spec fn compares<P: Python>(
    py: &P,
    op: Comparison,
    left: Content,
    right: Content,
    outcome: bool,
) -> bool {
    exists|nearest: Float|
        {
            &&& #[trigger] may_be_nearest(left, right, nearest)
            &&& match decision(op, left, right, nearest) {
                Decision::Known(known) => outcome == known,
                Decision::Ask(question) => call_ensures(
                    P::compare,
                    (py, question, &left, &right),
                    outcome,
                ),
                Decision::AskMirrored(question) => call_ensures(
                    P::compare,
                    (py, question, &right, &left),
                    outcome,
                ),
            }
        }
}

/// Two values compare in a way, each of which may be missing: what is missing is equal to nothing
/// but what is missing as well, and to an object that is equal to `None`.
pub open spec fn options_compare<P: Python>(
    py: &P,
    op: Comparison,
    left: Option<Content>,
    right: Option<Content>,
    outcome: bool,
) -> bool {
    match (left, right) {
        (Some(l), Some(r)) => compares(py, op, l, r, outcome),
        (None, None) => outcome == (op is Equal),
        (Some(Content::Py(object)), None) if op is Equal => call_ensures(
            P::equals_none,
            (py, object),
            outcome,
        ),
        (None, Some(Content::Py(object))) if op is Equal => call_ensures(
            P::equals_none,
            (py, object),
            outcome,
        ),
        _ => !outcome,
    }
}

/// Whether one value is held by another, either of which may be missing.
pub open spec fn option_holds<P: Python>(
    py: &P,
    item: Option<Content>,
    container: Content,
    outcome: Option<bool>,
) -> bool {
    match membership(container, item) {
        Membership::Known(known) => outcome == known,
        Membership::Ask => call_ensures(P::contains, (py, &container, &item), outcome),
    }
}

/// Whether two values are the same one, as `is` tells.
pub open spec fn identical<P: Python>(
    py: &P,
    left: Option<Content>,
    right: Option<Content>,
    outcome: bool,
) -> bool {
    match (left, right) {
        (Some(Content::Py(l)), Some(Content::Py(r))) => call_ensures(
            P::is_same,
            (py, l, r),
            outcome,
        ),
        (Some(Content::Py(object)), None) => call_ensures(P::is_none, (py, object), outcome),
        (None, Some(Content::Py(object))) => call_ensures(P::is_none, (py, object), outcome),
        (Some(Content::Bool(l)), Some(Content::Py(r))) => call_ensures(
            P::is_bool,
            (py, r, l),
            outcome,
        ),
        (None, None) => outcome,
        _ => !outcome,
    }
}

/// Whether two values are not the same one, as `is not` tells.
pub open spec fn distinct<P: Python>(
    py: &P,
    left: Option<Content>,
    right: Option<Content>,
    outcome: bool,
) -> bool {
    match (left, right) {
        (Some(Content::Py(l)), Some(Content::Py(r))) => call_ensures(
            P::is_same,
            (py, l, r),
            !outcome,
        ),
        (Some(Content::Bool(l)), Some(Content::Bool(r))) => outcome == (l != r),
        (Some(Content::Py(object)), None) => call_ensures(P::is_none, (py, object), !outcome),
        (None, Some(Content::Py(object))) => call_ensures(P::is_none, (py, object), !outcome),
        (Some(Content::Bool(l)), Some(Content::Py(r))) => call_ensures(
            P::is_bool,
            (py, r, l),
            !outcome,
        ),
        (Some(Content::Py(l)), Some(Content::Bool(r))) => call_ensures(
            P::is_bool,
            (py, l, r),
            !outcome,
        ),
        (None, None) => !outcome,
        _ => outcome,
    }
}

/// What an operator says of two values, each of which may be missing.
pub open spec fn operator_says<P: Python>(
    py: &P,
    operator: IfConditionOperator,
    left: Option<Content>,
    right: Option<Content>,
    outcome: bool,
) -> bool {
    match operator {
        IfConditionOperator::Equal => options_compare(
            py,
            Comparison::Equal,
            left,
            right,
            outcome,
        ),
        IfConditionOperator::NotEqual => options_compare(
            py,
            Comparison::Equal,
            left,
            right,
            !outcome,
        ),
        IfConditionOperator::LessThan => options_compare(
            py,
            Comparison::Less,
            left,
            right,
            outcome,
        ),
        IfConditionOperator::GreaterThan => options_compare(
            py,
            Comparison::Greater,
            left,
            right,
            outcome,
        ),
        IfConditionOperator::LessThanEqual => options_compare(
            py,
            Comparison::LessEqual,
            left,
            right,
            outcome,
        ),
        IfConditionOperator::GreaterThanEqual => options_compare(
            py,
            Comparison::GreaterEqual,
            left,
            right,
            outcome,
        ),
        IfConditionOperator::In => match right {
            Some(container) => exists|held: Option<bool>|
                {
                    &&& #[trigger] option_holds(py, left, container, held)
                    &&& outcome == (held == Some(true))
                },
            None => !outcome,
        },
        IfConditionOperator::NotIn => match right {
            Some(container) => exists|held: Option<bool>|
                {
                    &&& #[trigger] option_holds(py, left, container, held)
                    &&& outcome == (held == Some(false))
                },
            None => !outcome,
        },
        IfConditionOperator::Is => identical(py, left, right, outcome),
        IfConditionOperator::IsNot => distinct(py, left, right, outcome),
        IfConditionOperator::And | IfConditionOperator::Or => false,
    }
}

/// What one side of a comparison gives: a value of the template, or a truth value.
pub type Side = Result<Option<Content>, PyRenderError<String>>;

/// Every answer is one.
pub open spec fn answer(a: Option<bool>) -> bool {
    true
}

/// Whatever a side gives is given.
pub open spec fn given(side: Side) -> bool {
    true
}

/// A condition evaluates to a truth value, or to none if it is a value that is missing.
pub open spec fn evaluates<P: Python>(
    py: &P,
    context: Context,
    condition: IfCondition<Integer>,
    outcome: Option<bool>,
) -> bool
    decreases condition, 0int,
{
    match condition {
        IfCondition::Variable(element) => call_ensures(
            P::evaluate,
            (py, &element, &context),
            outcome,
        ),
        IfCondition::Not(c) => exists|inner: Option<bool>|
            {
                &&& #[trigger] answer(inner)
                &&& evaluates(py, context, *c, inner)
                &&& outcome == Some(inner == Some(false))
            },
        IfCondition::And(c) => exists|left: Option<bool>, right: Option<bool>|
            {
                &&& #[trigger] answer(left)
                &&& #[trigger] answer(right)
                &&& evaluates(py, context, c.0, left)
                &&& evaluates(py, context, c.1, right)
                &&& outcome == Some(left == Some(true) && right == Some(true))
            },
        IfCondition::Or(c) => exists|left: Option<bool>, right: Option<bool>|
            {
                &&& #[trigger] answer(left)
                &&& #[trigger] answer(right)
                &&& evaluates(py, context, c.0, left)
                &&& evaluates(py, context, c.1, right)
                &&& outcome == Some(
                    left == Some(true) || (left == Some(false) && right == Some(true)),
                )
            },
        IfCondition::Equal(c) => sides_say(py, context, IfConditionOperator::Equal, *c, outcome),
        IfCondition::NotEqual(c) => sides_say(
            py,
            context,
            IfConditionOperator::NotEqual,
            *c,
            outcome,
        ),
        IfCondition::LessThan(c) => sides_say(
            py,
            context,
            IfConditionOperator::LessThan,
            *c,
            outcome,
        ),
        IfCondition::GreaterThan(c) => sides_say(
            py,
            context,
            IfConditionOperator::GreaterThan,
            *c,
            outcome,
        ),
        IfCondition::LessThanEqual(c) => sides_say(
            py,
            context,
            IfConditionOperator::LessThanEqual,
            *c,
            outcome,
        ),
        IfCondition::GreaterThanEqual(c) => sides_say(
            py,
            context,
            IfConditionOperator::GreaterThanEqual,
            *c,
            outcome,
        ),
        IfCondition::In(c) => sides_say(py, context, IfConditionOperator::In, *c, outcome),
        IfCondition::NotIn(c) => sides_say(py, context, IfConditionOperator::NotIn, *c, outcome),
        IfCondition::Is(c) => sides_say(py, context, IfConditionOperator::Is, *c, outcome),
        IfCondition::IsNot(c) => sides_say(py, context, IfConditionOperator::IsNot, *c, outcome),
    }
}

/// One side of a comparison gives a value, a truth value or an error.
pub open spec fn side_gives<P: Python>(
    py: &P,
    context: Context,
    condition: IfCondition<Integer>,
    side: Side,
) -> bool
    decreases condition, 1int,
{
    match condition {
        IfCondition::Variable(element) => resolves(
            py,
            element,
            Failures::IgnoreVariableDoesNotExist,
            context,
            side,
        ),
        _ => exists|truth: bool|
            {
                &&& #[trigger] answer(Some(truth))
                &&& evaluates(py, context, condition, Some(truth))
                &&& side == Ok::<_, PyRenderError<String>>(Some(Content::Bool(truth)))
            },
    }
}

/// What an operator says of its two sides: where one of them gives an error, it does not hold.
pub open spec fn sides_say<P: Python>(
    py: &P,
    context: Context,
    operator: IfConditionOperator,
    sides: (IfCondition<Integer>, IfCondition<Integer>),
    outcome: Option<bool>,
) -> bool
    decreases sides, 2int,
{
    exists|l: Side|
        {
            &&& #[trigger] given(l)
            &&& side_gives(py, context, sides.0, l)
            &&& match l {
                Err(_) => outcome == Some(false),
                Ok(l) => exists|r: Side|
                    {
                        &&& #[trigger] given(r)
                        &&& side_gives(py, context, sides.1, r)
                        &&& match r {
                            Err(_) => outcome == Some(false),
                            Ok(r) => outcome matches Some(says) && operator_says(
                                py,
                                operator,
                                l,
                                r,
                                says,
                            ),
                        }
                    },
            }
        }
}

/// How two values compare.
fn compare<P: Python>(py: &P, op: Comparison, left: &Content, right: &Content) -> (r: bool)
    ensures
        compares(py, op, *left, *right, r),
{
    let nearest = nearest_of(left, right);
    assert(may_be_nearest(*left, *right, nearest));
    match op.decide(left, right, nearest) {
        Decision::Known(known) => known,
        Decision::Ask(question) => py.compare(question, left, right),
        Decision::AskMirrored(question) => py.compare(question, right, left),
    }
}

/// How two values compare, each of which may be missing.
pub fn compare_options<P: Python>(
    py: &P,
    op: Comparison,
    left: &Option<Content>,
    right: &Option<Content>,
) -> (r: bool)
    ensures
        options_compare(py, op, *left, *right, r),
{
    match (left, right) {
        (Some(l), Some(r)) => compare(py, op, l, r),
        (None, None) => match op {
            Comparison::Equal => true,
            _ => false,
        },
        (Some(Content::Py(object)), None) => match op {
            Comparison::Equal => py.equals_none(*object),
            _ => false,
        },
        (None, Some(Content::Py(object))) => match op {
            Comparison::Equal => py.equals_none(*object),
            _ => false,
        },
        _ => false,
    }
}

/// Whether a value holds another one, which may be missing.
fn holds_option<P: Python>(py: &P, item: &Option<Content>, container: &Content) -> (r: Option<bool>)
    ensures
        option_holds(py, *item, *container, r),
{
    match container.contains(item) {
        Membership::Known(known) => known,
        Membership::Ask => py.contains(container, item),
    }
}

/// Whether two values are the same one, as `is` tells.
fn is_identical<P: Python>(py: &P, left: &Option<Content>, right: &Option<Content>) -> (r: bool)
    ensures
        identical(py, *left, *right, r),
{
    match (left, right) {
        (Some(Content::Py(l)), Some(Content::Py(r))) => py.is_same(*l, *r),
        (Some(Content::Py(object)), None) => py.is_none(*object),
        (None, Some(Content::Py(object))) => py.is_none(*object),
        (Some(Content::Bool(l)), Some(Content::Py(r))) => py.is_bool(*r, *l),
        (None, None) => true,
        _ => false,
    }
}

/// Whether two values are not the same one, as `is not` tells.
fn is_distinct<P: Python>(py: &P, left: &Option<Content>, right: &Option<Content>) -> (r: bool)
    ensures
        distinct(py, *left, *right, r),
{
    match (left, right) {
        (Some(Content::Py(l)), Some(Content::Py(r))) => !py.is_same(*l, *r),
        (Some(Content::Bool(l)), Some(Content::Bool(r))) => *l != *r,
        (Some(Content::Py(object)), None) => !py.is_none(*object),
        (None, Some(Content::Py(object))) => !py.is_none(*object),
        (Some(Content::Bool(l)), Some(Content::Py(r))) => !py.is_bool(*r, *l),
        (Some(Content::Py(l)), Some(Content::Bool(r))) => !py.is_bool(*l, *r),
        (None, None) => false,
        _ => true,
    }
}

/// What an operator says of two values, each of which may be missing.
pub fn apply_operator<P: Python>(
    py: &P,
    operator: IfConditionOperator,
    left: &Option<Content>,
    right: &Option<Content>,
) -> (r: bool)
    requires
        !(operator is And),
        !(operator is Or),
    ensures
        operator_says(py, operator, *left, *right, r),
{
    match operator {
        IfConditionOperator::Equal => compare_options(py, Comparison::Equal, left, right),
        IfConditionOperator::NotEqual => !compare_options(py, Comparison::Equal, left, right),
        IfConditionOperator::LessThan => compare_options(py, Comparison::Less, left, right),
        IfConditionOperator::GreaterThan => compare_options(py, Comparison::Greater, left, right),
        IfConditionOperator::LessThanEqual => compare_options(
            py,
            Comparison::LessEqual,
            left,
            right,
        ),
        IfConditionOperator::GreaterThanEqual => compare_options(
            py,
            Comparison::GreaterEqual,
            left,
            right,
        ),
        IfConditionOperator::In => match right {
            Some(container) => match holds_option(py, left, container) {
                Some(held) => held,
                None => false,
            },
            None => false,
        },
        IfConditionOperator::NotIn => match right {
            Some(container) => match holds_option(py, left, container) {
                Some(held) => !held,
                None => false,
            },
            None => false,
        },
        IfConditionOperator::Is => is_identical(py, left, right),
        IfConditionOperator::IsNot => is_distinct(py, left, right),
        IfConditionOperator::And | IfConditionOperator::Or => vstd::pervasive::unreached(),
    }
}

/// Whether a value of the template is true.
fn evaluate_element<P: Python>(py: &P, element: &TagElement<Integer>, context: &Context) -> (r:
    Option<bool>)
    ensures
        call_ensures(P::evaluate, (py, element, context), r),
{
    py.evaluate(element, context)
}

/// A value of the template may be something.
pub open spec fn resolves<P: Python>(
    py: &P,
    element: TagElement<Integer>,
    failures: Failures,
    context: Context,
    side: Side,
) -> bool {
    call_ensures(P::resolve, (py, &element, failures, &context), side)
}

/// A value of the template.
pub fn resolve_element<P: Python>(
    py: &P,
    element: &TagElement<Integer>,
    failures: Failures,
    context: &Context,
) -> (r: Side)
    ensures
        resolves(py, *element, failures, *context, r),
{
    py.resolve(element, failures, context)
}

/// What one side of a comparison gives.
fn give_side<P: Python>(py: &P, context: &Context, condition: &IfCondition<Integer>) -> (r: Side)
    ensures
        side_gives(py, *context, *condition, r),
    decreases condition, 1int,
{
    match condition {
        IfCondition::Variable(element) => resolve_element(
            py,
            element,
            Failures::IgnoreVariableDoesNotExist,
            context,
        ),
        _ => match condition.evaluate(py, context) {
            Some(truth) => {
                assert(answer(Some(truth)));
                Ok(Some(Content::Bool(truth)))
            },
            None => vstd::pervasive::unreached(),
        },
    }
}

/// What an operator says of its two sides.
fn say_of_sides<P: Python>(
    py: &P,
    context: &Context,
    operator: IfConditionOperator,
    sides: &(IfCondition<Integer>, IfCondition<Integer>),
) -> (r: bool)
    requires
        !(operator is And),
        !(operator is Or),
    ensures
        sides_say(py, *context, operator, *sides, Some(r)),
    decreases sides, 2int,
{
    let left_side = give_side(py, context, &sides.0);
    assert(given(left_side));
    let left = match left_side {
        Ok(left) => left,
        Err(_) => {
            return false;
        },
    };
    let right_side = give_side(py, context, &sides.1);
    assert(given(right_side));
    let right = match right_side {
        Ok(right) => right,
        Err(_) => {
            return false;
        },
    };
    apply_operator(py, operator, &left, &right)
}

impl IfCondition<Integer> {
    /// Whether a condition holds: there is no answer just where it is a value that is missing.
    pub fn evaluate<P: Python>(&self, py: &P, context: &Context) -> (r: Option<bool>)
        ensures
            evaluates(py, *context, *self, r),
            !(self is Variable) ==> r is Some,
        decreases self, 0int,
    {
        match self {
            IfCondition::Variable(element) => evaluate_element(py, element, context),
            IfCondition::And(c) => {
                let left = c.0.evaluate(py, context);
                let right = c.1.evaluate(py, context);
                assert(answer(left) && answer(right));
                Some(is_true(left) && is_true(right))
            },
            IfCondition::Or(c) => {
                let left = c.0.evaluate(py, context);
                let right = c.1.evaluate(py, context);
                assert(answer(left) && answer(right));
                match left {
                    None => Some(false),
                    Some(true) => Some(true),
                    Some(false) => Some(is_true(right)),
                }
            },
            IfCondition::Not(c) => {
                let inner = c.evaluate(py, context);
                assert(answer(inner));
                match inner {
                    Some(false) => Some(true),
                    _ => Some(false),
                }
            },
            IfCondition::Equal(c) => Some(say_of_sides(py, context, IfConditionOperator::Equal, c)),
            IfCondition::NotEqual(c) => Some(
                say_of_sides(py,
                context,
                IfConditionOperator::NotEqual,
                c),
            ),
            IfCondition::LessThan(c) => Some(
                say_of_sides(py,
                context,
                IfConditionOperator::LessThan,
                c),
            ),
            IfCondition::GreaterThan(c) => Some(
                say_of_sides(py,
                context,
                IfConditionOperator::GreaterThan,
                c),
            ),
            IfCondition::LessThanEqual(c) => Some(
                say_of_sides(py,
                context,
                IfConditionOperator::LessThanEqual,
                c),
            ),
            IfCondition::GreaterThanEqual(c) => Some(
                say_of_sides(py,
                context,
                IfConditionOperator::GreaterThanEqual,
                c),
            ),
            IfCondition::In(c) => Some(say_of_sides(py, context, IfConditionOperator::In, c)),
            IfCondition::NotIn(c) => Some(say_of_sides(py, context, IfConditionOperator::NotIn, c)),
            IfCondition::Is(c) => Some(say_of_sides(py, context, IfConditionOperator::Is, c)),
            IfCondition::IsNot(c) => Some(say_of_sides(py, context, IfConditionOperator::IsNot, c)),
        }
    }
}

/// Whether an answer is yes.
fn is_true(answer: Option<bool>) -> (r: bool)
    ensures
        r == (answer == Some(true)),
{
    match answer {
        Some(true) => true,
        _ => false,
    }
}

/// Whether a value is true; one that Python cannot tell of is not.
pub open spec fn is_true_value<P: Python>(py: &P, content: Content, outcome: bool) -> bool {
    match content {
        Content::Bool(b) => outcome == b,
        Content::Int(n) => outcome == (n@ != 0),
        Content::Float(f) => outcome == (f.place() != Some(0int)),
        Content::String(s) => outcome == (s@.raw().len() > 0),
        Content::Py(object) => exists|truth: Result<bool, PyObject>|
            {
                &&& #[trigger] call_ensures(P::is_truthy, (py, object), truth)
                &&& outcome == (truth == Ok::<_, PyObject>(true))
            },
    }
}

/// Whether a value is true; one that Python cannot tell of is not.
pub fn value_is_true<P: Python>(py: &P, content: &Content) -> (r: bool)
    ensures
        is_true_value(py, *content, r),
{
    match content {
        Content::Bool(b) => *b,
        Content::Int(n) => !n.is_zero(),
        Content::Float(f) => f.is_nonzero(),
        Content::String(s) => !s.as_raw().as_str().is_empty(),
        Content::Py(object) => match py.is_truthy(*object) {
            Ok(truth) => truth,
            Err(_) => false,
        },
    }
}

/// A value of the template is missing or not true.
pub open spec fn passed_over<P: Python>(
    py: &P,
    context: Context,
    element: TagElement<Integer>,
) -> bool {
    exists|side: Side|
        {
            &&& #[trigger] resolves(
                py,
                element,
                Failures::IgnoreVariableDoesNotExist,
                context,
                side,
            )
            &&& match side {
                Ok(None) => true,
                Ok(Some(content)) => is_true_value(py, content, false),
                Err(_) => false,
            }
        }
}

/// The values before a position are missing or not true.
pub open spec fn all_passed_over<P: Python>(
    py: &P,
    context: Context,
    elements: Seq<TagElement<Integer>>,
    to: int,
) -> bool {
    forall|i: int| 0 <= i < to ==> passed_over(py, context, #[trigger] elements[i])
}

/// The first of some values that is true may be something: an error ends the search.
pub open spec fn first_true_value<P: Python>(
    py: &P,
    context: Context,
    elements: Seq<TagElement<Integer>>,
    side: Side,
) -> bool {
    match side {
        Ok(None) => all_passed_over(py, context, elements, elements.len() as int),
        _ => exists|i: int|
            {
                &&& 0 <= i < elements.len()
                &&& all_passed_over(py, context, elements, i)
                &&& resolves(
                    py,
                    #[trigger] elements[i],
                    Failures::IgnoreVariableDoesNotExist,
                    context,
                    side,
                )
                &&& match side {
                    Ok(Some(content)) => is_true_value(py, content, true),
                    _ => true,
                }
            },
    }
}

impl FirstOf {
    /// The first of the values that is true, if there is one. An error ends the search.
    pub fn first_true<P: Python>(&self, py: &P, context: &Context) -> (r: Side)
        ensures
            first_true_value(py, *context, self.vars@, r),
    {
        let mut i: usize = 0;
        while i < self.vars.len()
            invariant
                0 <= i <= self.vars@.len(),
                all_passed_over(py, *context, self.vars@, i as int),
            decreases self.vars@.len() - i,
        {
            let side = resolve_element(
                py,
                &self.vars[i],
                Failures::IgnoreVariableDoesNotExist,
                context,
            );
            let found = match &side {
                Err(_) => true,
                Ok(Some(content)) => value_is_true(py, content),
                Ok(None) => false,
            };
            if found {
                return side;
            }
            assert(passed_over(py, *context, self.vars@[i as int]));
            i += 1;
        }
        Ok(None)
    }
}

/// Two values compare in a way just where they compare the other way round with the mirrored
/// comparison, unless both are Python objects, of which each is asked of its own.
pub proof fn law_comparisons_mirror<P: Python>(
    py: &P,
    op: Comparison,
    left: Content,
    right: Content,
    outcome: bool,
)
    requires
        !(left is Py && right is Py),
    ensures
        compares(py, op, left, right, outcome) == compares(py, mirrored(op), right, left, outcome),
{
    assert forall|nearest: Float| #[trigger]
        may_be_nearest(left, right, nearest) == may_be_nearest(right, left, nearest) by {
        law_comparison_mirrors(op, left, right, nearest);
    }
    if compares(py, op, left, right, outcome) {
        let nearest = choose|nearest: Float|
            {
                &&& #[trigger] may_be_nearest(left, right, nearest)
                &&& match decision(op, left, right, nearest) {
                    Decision::Known(known) => outcome == known,
                    Decision::Ask(question) => call_ensures(
                        P::compare,
                        (py, question, &left, &right),
                        outcome,
                    ),
                    Decision::AskMirrored(question) => call_ensures(
                        P::compare,
                        (py, question, &right, &left),
                        outcome,
                    ),
                }
            };
        law_comparison_mirrors(op, left, right, nearest);
        assert(may_be_nearest(right, left, nearest));
    }
    if compares(py, mirrored(op), right, left, outcome) {
        let nearest = choose|nearest: Float|
            {
                &&& #[trigger] may_be_nearest(right, left, nearest)
                &&& match decision(mirrored(op), right, left, nearest) {
                    Decision::Known(known) => outcome == known,
                    Decision::Ask(question) => call_ensures(
                        P::compare,
                        (py, question, &right, &left),
                        outcome,
                    ),
                    Decision::AskMirrored(question) => call_ensures(
                        P::compare,
                        (py, question, &left, &right),
                        outcome,
                    ),
                }
            };
        law_comparison_mirrors(op, left, right, nearest);
        assert(may_be_nearest(left, right, nearest));
    }
}

/// Two values are different just where they are not equal.
pub proof fn law_not_equal_negates_equal<P: Python>(
    py: &P,
    left: Option<Content>,
    right: Option<Content>,
    outcome: bool,
)
    ensures
        operator_says(py, IfConditionOperator::NotEqual, left, right, outcome) == operator_says(
            py,
            IfConditionOperator::Equal,
            left,
            right,
            !outcome,
        ),
{
}

/// What is missing is neither less nor greater than anything.
pub proof fn law_missing_values_have_no_order<P: Python>(
    py: &P,
    operator: IfConditionOperator,
    left: Option<Content>,
    right: Option<Content>,
    outcome: bool,
)
    requires
        left is None || right is None,
        operator is LessThan || operator is GreaterThan || operator is LessThanEqual || operator
            is GreaterThanEqual,
        operator_says(py, operator, left, right, outcome),
    ensures
        !outcome,
{
}

} // verus!
