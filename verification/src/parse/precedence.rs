//! Which conditions there are, and how their operators are grouped.
use vstd::prelude::*;
use crate::lexer::tokens::{IfConditionOperator, IfConditionTokenType};
use crate::parse::condition::{
    atom_of, condition_at, condition_from, condition_of, joined, power, symbols, IfTokens, Symbol,
    NOT_BINDING_POWER,
};
use crate::parse::errors::ParseError;
use crate::parse::parser::Scope;
use crate::parse::tree::{IfCondition, TagElement};
use crate::text::{span, At};

verus! {

/// `or` binds least, before `and`, `not`, `in` and the comparisons. `not in` binds as `in` does,
/// and the comparisons bind alike.
pub proof fn law_operators_bind_in_order(comparison: IfConditionOperator)
    requires
        !(comparison is Or || comparison is And || comparison is In || comparison is NotIn),
    ensures
        0 < power(IfConditionOperator::Or) < power(IfConditionOperator::And) < NOT_BINDING_POWER
            < power(IfConditionOperator::In) < power(IfConditionOperator::Equal),
        power(IfConditionOperator::NotIn) == power(IfConditionOperator::In),
        power(comparison) == power(IfConditionOperator::Equal),
{
}

/// An operator is written between its two sides.
pub proof fn law_operators_stand_between_their_sides(
    operator: IfConditionOperator,
    lhs: IfCondition<int>,
    rhs: IfCondition<int>,
)
    ensures
        symbols(joined(operator, lhs, rhs)) == symbols(lhs) + seq![Symbol::Operator(operator)]
            + symbols(rhs),
{
    assert(symbols(lhs).push(Symbol::Operator(operator)) + symbols(rhs) =~= symbols(lhs) + seq![
        Symbol::Operator(operator),
    ] + symbols(rhs));
}

/// A value or `not` stands at a position.
pub open spec fn value_begins(scope: Scope, tokens: IfTokens, pos: int) -> bool {
    &&& 0 <= pos < tokens.len()
    &&& match tokens[pos] {
        Err(_) => false,
        Ok(token) => match token.token_type {
            IfConditionTokenType::Atom(atom) => atom_of(scope, token.at, atom) is Ok,
            IfConditionTokenType::Not => true,
            IfConditionTokenType::Operator(_) => false,
        },
    }
}

/// An operator stands at a position, or it is the end.
pub open spec fn value_ends(tokens: IfTokens, pos: int) -> bool {
    0 <= pos <= tokens.len() && (pos < tokens.len() ==> match tokens[pos] {
        Err(_) => false,
        Ok(token) => token.token_type is Operator,
    })
}

/// Values and operators take turns, from a value to a value; `not` stands before a value.
pub open spec fn takes_turns(scope: Scope, tokens: IfTokens) -> bool {
    &&& value_begins(scope, tokens, 0)
    &&& forall|i: int|
        0 <= i < tokens.len() ==> match #[trigger] tokens[i] {
            Err(_) => false,
            Ok(token) => match token.token_type {
                IfConditionTokenType::Atom(_) => value_ends(tokens, i + 1),
                _ => value_begins(scope, tokens, i + 1),
            },
        }
}

proof fn lemma_condition_at_is_read(scope: Scope, tokens: IfTokens, pos: int, min: u8, at: At)
    requires
        takes_turns(scope, tokens),
        value_begins(scope, tokens, pos),
    ensures
        condition_at(scope, tokens, pos, min, at) matches Ok((_, next)) && pos < next && value_ends(
            tokens,
            next,
        ),
    decreases tokens.len() - pos, 1int,
{
    let token = tokens[pos]->Ok_0;
    match token.token_type {
        IfConditionTokenType::Atom(atom) => {
            let element = atom_of(scope, token.at, atom)->Ok_0;
            lemma_condition_from_is_read(
                scope,
                tokens,
                pos + 1,
                min,
                IfCondition::Variable(element),
            );
        },
        IfConditionTokenType::Not => {
            lemma_condition_at_is_read(scope, tokens, pos + 1, NOT_BINDING_POWER, token.at);
            let (inner, next) = condition_at(
                scope,
                tokens,
                pos + 1,
                NOT_BINDING_POWER,
                token.at,
            )->Ok_0;
            lemma_condition_from_is_read(
                scope,
                tokens,
                next,
                min,
                IfCondition::Not(Box::new(inner)),
            );
        },
        IfConditionTokenType::Operator(_) => {},
    }
}

proof fn lemma_condition_from_is_read(
    scope: Scope,
    tokens: IfTokens,
    pos: int,
    min: u8,
    lhs: IfCondition<int>,
)
    requires
        takes_turns(scope, tokens),
        value_ends(tokens, pos),
    ensures
        condition_from(scope, tokens, pos, min, lhs) matches Ok((_, next)) && pos <= next
            && value_ends(tokens, next),
    decreases tokens.len() - pos, 0int,
{
    if pos < tokens.len() {
        let token = tokens[pos]->Ok_0;
        let operator = token.token_type->Operator_0;
        if power(operator) > min {
            lemma_condition_at_is_read(scope, tokens, pos + 1, power(operator), token.at);
            let (rhs, next) = condition_at(
                scope,
                tokens,
                pos + 1,
                power(operator),
                token.at,
            )->Ok_0;
            lemma_condition_from_is_read(scope, tokens, next, min, joined(operator, lhs, rhs));
        }
    }
}

/// Whatever is written by the rules is read.
pub proof fn law_conditions_are_read(scope: Scope, tokens: IfTokens, at: At)
    requires
        takes_turns(scope, tokens),
    ensures
        condition_of(scope, tokens, at) is Ok,
{
    lemma_condition_at_is_read(scope, tokens, 0, 0, at);
}

/// A value stands at a position.
pub open spec fn is_value(tokens: IfTokens, i: int) -> bool {
    0 <= i < tokens.len() && tokens[i] is Ok && tokens[i]->Ok_0.token_type is Atom
}

/// A value is expected at a position: it is the first one, or follows an operator or `not`.
pub open spec fn expects_value(tokens: IfTokens, i: int) -> bool {
    0 <= i <= tokens.len() && (i > 0 ==> tokens[i - 1] is Ok && !is_value(tokens, i - 1))
}

/// What is wrong with a condition stands somewhere in it: an operator where a value is expected, a
/// value or `not` where an operator is, nothing where a value is, or what cannot be read.
pub open spec fn wrong_somewhere(
    scope: Scope,
    tokens: IfTokens,
    error: ParseError<Seq<char>>,
) -> bool {
    match error {
        ParseError::InvalidIfPosition { at, token } => exists|i: int|
            {
                &&& #[trigger] expects_value(tokens, i)
                &&& i < tokens.len()
                &&& tokens[i] is Ok
                &&& tokens[i]->Ok_0.token_type is Operator
                &&& at == tokens[i]->Ok_0.at
                &&& token == span(scope.template, at)
            },
        ParseError::UnusedExpression { at, expression } => exists|i: int|
            {
                &&& #[trigger] is_value(tokens, i)
                &&& i + 1 < tokens.len()
                &&& tokens[i + 1] is Ok
                &&& !(tokens[i + 1]->Ok_0.token_type is Operator)
                &&& at == tokens[i + 1]->Ok_0.at
                &&& expression == span(scope.template, at)
            },
        ParseError::UnexpectedEndExpression { at } => {
            &&& tokens.len() > 0
            &&& expects_value(tokens, tokens.len() as int)
            &&& at == tokens.last()->Ok_0.at
        },
        _ => exists|i: int|
            {
                &&& 0 <= i < tokens.len()
                &&& match #[trigger] tokens[i] {
                    Err(e) => error == ParseError::<Seq<char>>::LexerError(e),
                    Ok(token) => token.token_type is Atom && atom_of(
                        scope,
                        token.at,
                        token.token_type->Atom_0,
                    ) == Err::<TagElement<int>, _>(error),
                }
            },
    }
}

/// Errors that values do not have of their own.
pub open spec fn is_order_error(error: ParseError<Seq<char>>) -> bool {
    error is InvalidIfPosition || error is UnusedExpression || error is UnexpectedEndExpression
}

/// No value has an error of the order of a condition.
pub open spec fn values_are_apart(scope: Scope, tokens: IfTokens) -> bool {
    forall|i: int|
        #[trigger] is_value(tokens, i) ==> (atom_of(
            scope,
            tokens[i]->Ok_0.at,
            tokens[i]->Ok_0.token_type->Atom_0,
        ) matches Err(e) ==> !is_order_error(e))
}

proof fn lemma_condition_at_is_wrong(scope: Scope, tokens: IfTokens, pos: int, min: u8, at: At)
    requires
        tokens.len() > 0,
        values_are_apart(scope, tokens),
        expects_value(tokens, pos),
        pos > 0 ==> at == tokens[pos - 1]->Ok_0.at,
    ensures
        match condition_at(scope, tokens, pos, min, at) {
            Ok((_, next)) => pos < next <= tokens.len() && is_value(tokens, next - 1),
            Err(e) => wrong_somewhere(scope, tokens, e),
        },
    decreases tokens.len() - pos, 1int,
{
    if pos < tokens.len() {
        match tokens[pos] {
            Err(e) => {
                assert(wrong_somewhere(scope, tokens, ParseError::LexerError(e)));
            },
            Ok(token) => match token.token_type {
                IfConditionTokenType::Atom(atom) => {
                    assert(is_value(tokens, pos));
                    match atom_of(scope, token.at, atom) {
                        Ok(element) => {
                            lemma_condition_from_is_wrong(
                                scope,
                                tokens,
                                pos + 1,
                                min,
                                IfCondition::Variable(element),
                            );
                        },
                        Err(e) => {
                            assert(!is_order_error(e));
                            assert(tokens[pos]->Ok_0.token_type->Atom_0 == atom);
                            assert(wrong_somewhere(scope, tokens, e));
                        },
                    }
                },
                IfConditionTokenType::Not => {
                    lemma_condition_at_is_wrong(
                        scope,
                        tokens,
                        pos + 1,
                        NOT_BINDING_POWER,
                        token.at,
                    );
                    if let Ok((inner, next)) = condition_at(
                        scope,
                        tokens,
                        pos + 1,
                        NOT_BINDING_POWER,
                        token.at,
                    ) {
                        lemma_condition_from_is_wrong(
                            scope,
                            tokens,
                            next,
                            min,
                            IfCondition::Not(Box::new(inner)),
                        );
                    }
                },
                IfConditionTokenType::Operator(_) => {},
            },
        }
    }
}

proof fn lemma_condition_from_is_wrong(
    scope: Scope,
    tokens: IfTokens,
    pos: int,
    min: u8,
    lhs: IfCondition<int>,
)
    requires
        tokens.len() > 0,
        values_are_apart(scope, tokens),
        0 < pos <= tokens.len(),
        is_value(tokens, pos - 1),
    ensures
        match condition_from(scope, tokens, pos, min, lhs) {
            Ok((_, next)) => pos <= next <= tokens.len() && is_value(tokens, next - 1),
            Err(e) => wrong_somewhere(scope, tokens, e),
        },
    decreases tokens.len() - pos, 0int,
{
    if pos < tokens.len() {
        match tokens[pos] {
            Err(e) => {
                assert(wrong_somewhere(scope, tokens, ParseError::LexerError(e)));
            },
            Ok(token) => {
                if let IfConditionTokenType::Operator(operator) = token.token_type {
                    if power(operator) > min {
                        lemma_condition_at_is_wrong(
                            scope,
                            tokens,
                            pos + 1,
                            power(operator),
                            token.at,
                        );
                        if let Ok((rhs, next)) = condition_at(
                            scope,
                            tokens,
                            pos + 1,
                            power(operator),
                            token.at,
                        ) {
                            lemma_condition_from_is_wrong(
                                scope,
                                tokens,
                                next,
                                min,
                                joined(operator, lhs, rhs),
                            );
                        }
                    }
                } else {
                    assert(tokens[(pos - 1) + 1] == tokens[pos]);
                }
            },
        }
    }
}

/// A condition that is refused is so for what is wrong somewhere in it, and this is told of where it
/// stands; one without tokens is told of where it should stand.
pub proof fn law_refused_conditions_are_wrong_somewhere(scope: Scope, tokens: IfTokens, at: At)
    requires
        values_are_apart(scope, tokens),
    ensures
        tokens.len() == 0 ==> condition_of(scope, tokens, at) == Err::<IfCondition<int>, _>(
            ParseError::<Seq<char>>::MissingBooleanExpression { at },
        ),
        tokens.len() > 0 ==> (condition_of(scope, tokens, at) matches Err(e) ==> wrong_somewhere(
            scope,
            tokens,
            e,
        )),
{
    if tokens.len() > 0 {
        lemma_condition_at_is_wrong(scope, tokens, 0, 0, at);
    }
}

} // verus!
