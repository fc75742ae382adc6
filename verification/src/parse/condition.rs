//! The conditions of if tags.
use vstd::prelude::*;
use vstd::string::*;
use crate::integer::Integer;
use crate::lexer::tokens::{
    if_tokens_wf, IfConditionOperator, IfConditionToken, IfConditionTokenType, IfConditionTokens,
    LexerError, TagElementTokenType,
};
use crate::parse::elements::{element_of, number, parse_numeric};
use crate::parse::errors::{result_view, ParseError};
use crate::parse::parser::{Parser, Scope};
use crate::parse::tree::{IfCondition, TagElement};
use crate::text::{span, At};
use crate::types::Text;

verus! {

/// How tightly `not` binds what follows it.
pub const NOT_BINDING_POWER: u8 = 8;

/// How tightly an operator binds what stands on its two sides.
pub open spec fn power(operator: IfConditionOperator) -> u8 {
    match operator {
        IfConditionOperator::Or => 6,
        IfConditionOperator::And => 7,
        IfConditionOperator::In | IfConditionOperator::NotIn => 9,
        _ => 10,
    }
}

/// The condition of an operator and its two sides.
pub open spec fn joined<I>(
    operator: IfConditionOperator,
    lhs: IfCondition<I>,
    rhs: IfCondition<I>,
) -> IfCondition<I> {
    let inner = Box::new((lhs, rhs));
    match operator {
        IfConditionOperator::And => IfCondition::And(inner),
        IfConditionOperator::Or => IfCondition::Or(inner),
        IfConditionOperator::In => IfCondition::In(inner),
        IfConditionOperator::NotIn => IfCondition::NotIn(inner),
        IfConditionOperator::Is => IfCondition::Is(inner),
        IfConditionOperator::IsNot => IfCondition::IsNot(inner),
        IfConditionOperator::Equal => IfCondition::Equal(inner),
        IfConditionOperator::NotEqual => IfCondition::NotEqual(inner),
        IfConditionOperator::GreaterThan => IfCondition::GreaterThan(inner),
        IfConditionOperator::GreaterThanEqual => IfCondition::GreaterThanEqual(inner),
        IfConditionOperator::LessThan => IfCondition::LessThan(inner),
        IfConditionOperator::LessThanEqual => IfCondition::LessThanEqual(inner),
    }
}

impl IfConditionOperator {
    /// How tightly the operator binds what stands on its two sides.
    pub fn binding_power(&self) -> (r: u8)
        ensures
            r == power(*self),
    {
        match self {
            IfConditionOperator::Or => 6,
            IfConditionOperator::And => 7,
            IfConditionOperator::In | IfConditionOperator::NotIn => 9,
            IfConditionOperator::Is
            | IfConditionOperator::IsNot
            | IfConditionOperator::Equal
            | IfConditionOperator::NotEqual
            | IfConditionOperator::GreaterThan
            | IfConditionOperator::GreaterThanEqual
            | IfConditionOperator::LessThan
            | IfConditionOperator::LessThanEqual => 10,
        }
    }

    /// The condition of the operator and its two sides.
    pub fn build_condition(&self, lhs: IfCondition<Integer>, rhs: IfCondition<Integer>) -> (r:
        IfCondition<Integer>)
        ensures
            r == joined(*self, lhs, rhs),
            r@ == joined(*self, lhs@, rhs@),
    {
        let inner = Box::new((lhs, rhs));
        match self {
            IfConditionOperator::And => IfCondition::And(inner),
            IfConditionOperator::Or => IfCondition::Or(inner),
            IfConditionOperator::In => IfCondition::In(inner),
            IfConditionOperator::NotIn => IfCondition::NotIn(inner),
            IfConditionOperator::Is => IfCondition::Is(inner),
            IfConditionOperator::IsNot => IfCondition::IsNot(inner),
            IfConditionOperator::Equal => IfCondition::Equal(inner),
            IfConditionOperator::NotEqual => IfCondition::NotEqual(inner),
            IfConditionOperator::GreaterThan => IfCondition::GreaterThan(inner),
            IfConditionOperator::GreaterThanEqual => IfCondition::GreaterThanEqual(inner),
            IfConditionOperator::LessThan => IfCondition::LessThan(inner),
            IfConditionOperator::LessThanEqual => IfCondition::LessThanEqual(inner),
        }
    }
}

/// The tokens of a condition.
pub type IfTokens = Seq<Result<IfConditionToken, LexerError>>;

/// The value of a token that stands for one.
pub open spec fn atom_of(scope: Scope, at: At, atom: TagElementTokenType) -> Result<
    TagElement<int>,
    ParseError<Seq<char>>,
> {
    let content_at = atom.content_of(at);
    match atom {
        TagElementTokenType::Numeric(float) => number(
            span(scope.template, content_at),
            float,
            content_at,
        ),
        _ => element_of(scope, at, atom),
    }
}

/// The condition that starts at a position, made of operators that bind more tightly than `min`,
/// and the position after it. `at` is where a condition is expected.
pub open spec fn condition_at(
    scope: Scope,
    tokens: IfTokens,
    pos: int,
    min: u8,
    at: At,
) -> Result<(IfCondition<int>, int), ParseError<Seq<char>>>
    decreases tokens.len() - pos, 1int,
{
    if pos < 0 || pos >= tokens.len() {
        Err(ParseError::UnexpectedEndExpression { at })
    } else {
        match tokens[pos] {
            Err(e) => Err(ParseError::LexerError(e)),
            Ok(token) => match token.token_type {
                IfConditionTokenType::Atom(atom) => match atom_of(scope, token.at, atom) {
                    Ok(element) => condition_from(
                        scope,
                        tokens,
                        pos + 1,
                        min,
                        IfCondition::Variable(element),
                    ),
                    Err(e) => Err(e),
                },
                IfConditionTokenType::Not => match condition_at(
                    scope,
                    tokens,
                    pos + 1,
                    NOT_BINDING_POWER,
                    token.at,
                ) {
                    Ok((inner, next)) => if pos < next <= tokens.len() {
                        condition_from(
                            scope,
                            tokens,
                            next,
                            min,
                            IfCondition::Not(Box::new(inner)),
                        )
                    } else {
                        arbitrary()
                    },
                    Err(e) => Err(e),
                },
                IfConditionTokenType::Operator(_) => Err(
                    ParseError::InvalidIfPosition {
                        at: token.at,
                        token: span(scope.template, token.at),
                    },
                ),
            },
        }
    }
}

/// The condition that starts with `lhs` and goes on at a position.
pub open spec fn condition_from(
    scope: Scope,
    tokens: IfTokens,
    pos: int,
    min: u8,
    lhs: IfCondition<int>,
) -> Result<(IfCondition<int>, int), ParseError<Seq<char>>>
    decreases tokens.len() - pos, 0int,
{
    if pos < 0 || pos >= tokens.len() {
        Ok((lhs, pos))
    } else {
        match tokens[pos] {
            Err(e) => Err(ParseError::LexerError(e)),
            Ok(token) => match token.token_type {
                IfConditionTokenType::Operator(operator) => if power(operator) <= min {
                    Ok((lhs, pos))
                } else {
                    match condition_at(scope, tokens, pos + 1, power(operator), token.at) {
                        Ok((rhs, next)) => if pos < next <= tokens.len() {
                            condition_from(scope, tokens, next, min, joined(operator, lhs, rhs))
                        } else {
                            arbitrary()
                        },
                        Err(e) => Err(e),
                    }
                },
                _ => Err(
                    ParseError::UnusedExpression {
                        at: token.at,
                        expression: span(scope.template, token.at),
                    },
                ),
            },
        }
    }
}

/// The condition that tokens stand for.
pub open spec fn condition_of(scope: Scope, tokens: IfTokens, at: At) -> Result<
    IfCondition<int>,
    ParseError<Seq<char>>,
> {
    if tokens.len() == 0 {
        Err(ParseError::MissingBooleanExpression { at })
    } else {
        match condition_at(scope, tokens, 0, 0, at) {
            Ok((condition, _)) => Ok(condition),
            Err(e) => Err(e),
        }
    }
}

/// The value of a token that stands for one.
fn parse_atom(parser: &Parser<'_>, at: At, atom: &TagElementTokenType) -> (r: Result<
    TagElement<Integer>,
    ParseError<String>,
>)
    requires
        atom.wf(at, parser.env().template),
    ensures
        result_view(r) == atom_of(parser.scope(), at, *atom),
{
    let content_at = atom.content_at(at);
    match atom {
        TagElementTokenType::Numeric(float) => parse_numeric(
            parser.content(content_at),
            *float,
            content_at,
        ),
        TagElementTokenType::Text => Ok(TagElement::Text(Text::new(content_at))),
        TagElementTokenType::TranslatedText => Ok(
            TagElement::TranslatedText(Text::new(content_at)),
        ),
        TagElementTokenType::Variable(variable) => parser.parse_variable(variable, content_at),
    }
}

/// Reads a condition made of operators that bind more tightly than `min_binding_power`, and moves
/// the position past it.
fn parse_if_binding_power(
    parser: &Parser<'_>,
    tokens: &IfConditionTokens,
    pos: &mut usize,
    min_binding_power: u8,
    at: At,
) -> (r: Result<IfCondition<Integer>, ParseError<String>>)
    requires
        if_tokens_wf(tokens@, parser.env().template),
        *old(pos) <= tokens@.len(),
    ensures
        match r {
            Ok(condition) => {
                &&& condition_at(
                    parser.scope(),
                    tokens@,
                    *old(pos) as int,
                    min_binding_power,
                    at,
                ) == Ok::<_, ParseError<Seq<char>>>((condition@, *final(pos) as int))
                &&& *old(pos) < *final(pos) <= tokens@.len()
            },
            Err(e) => condition_at(
                parser.scope(),
                tokens@,
                *old(pos) as int,
                min_binding_power,
                at,
            ) == Err::<(IfCondition<int>, int), _>(e@),
        },
    decreases tokens@.len() - *old(pos),
{
    let ghost start = *pos as int;
    if *pos >= tokens.len() {
        return Err(ParseError::UnexpectedEndExpression { at });
    }
    let token = match &tokens[*pos] {
        Ok(token) => token,
        Err(e) => {
            return Err(ParseError::LexerError(*e));
        },
    };
    *pos = *pos + 1;
    let mut lhs = match &token.token_type {
        IfConditionTokenType::Atom(atom) => {
            IfCondition::Variable(parse_atom(parser, token.at, atom)?)
        },
        IfConditionTokenType::Not => {
            let inner = parse_if_binding_power(
                parser,
                tokens,
                pos,
                NOT_BINDING_POWER,
                token.at,
            )?;
            IfCondition::Not(Box::new(inner))
        },
        IfConditionTokenType::Operator(_) => {
            return Err(
                ParseError::InvalidIfPosition {
                    at: token.at,
                    token: parser.content(token.at).to_owned(),
                },
            );
        },
    };
    assert(condition_at(parser.scope(), tokens@, start, min_binding_power, at) == condition_from(
        parser.scope(),
        tokens@,
        *pos as int,
        min_binding_power,
        lhs@,
    ));
    while *pos < tokens.len()
        invariant
            if_tokens_wf(tokens@, parser.env().template),
            start < *pos <= tokens@.len(),
            condition_at(parser.scope(), tokens@, start, min_binding_power, at)
                == condition_from(
                parser.scope(),
                tokens@,
                *pos as int,
                min_binding_power,
                lhs@,
            ),
            start == *old(pos),
        decreases tokens@.len() - *pos,
    {
        let token = match &tokens[*pos] {
            Ok(token) => token,
            Err(e) => {
                return Err(ParseError::LexerError(*e));
            },
        };
        let operator = match &token.token_type {
            IfConditionTokenType::Operator(operator) => *operator,
            _ => {
                return Err(
                    ParseError::UnusedExpression {
                        at: token.at,
                        expression: parser.content(token.at).to_owned(),
                    },
                );
            },
        };
        let binding_power = operator.binding_power();
        if binding_power <= min_binding_power {
            return Ok(lhs);
        }
        *pos = *pos + 1;
        match parse_if_binding_power(parser, tokens, pos, binding_power, token.at) {
            Ok(rhs) => {
                lhs = operator.build_condition(lhs, rhs);
            },
            Err(e) => {
                return Err(e);
            },
        }
    }
    Ok(lhs)
}

/// Reads the condition of an if tag at a location.
pub fn parse_if_condition(parser: &Parser<'_>, tokens: &IfConditionTokens, at: At) -> (r: Result<
    IfCondition<Integer>,
    ParseError<String>,
>)
    requires
        if_tokens_wf(tokens@, parser.env().template),
    ensures
        result_view(r) == condition_of(parser.scope(), tokens@, at),
{
    if tokens.len() == 0 {
        return Err(ParseError::MissingBooleanExpression { at });
    }
    let mut pos: usize = 0;
    parse_if_binding_power(parser, tokens, &mut pos, 0, at)
}

/// A piece of a condition.
pub enum Symbol {
    Atom(TagElement<int>),
    Operator(IfConditionOperator),
    Not,
}

/// An operator between two runs of symbols.
pub open spec fn infix(left: Seq<Symbol>, operator: IfConditionOperator, right: Seq<Symbol>) -> Seq<
    Symbol,
> {
    left.push(Symbol::Operator(operator)) + right
}

/// The pieces of a condition, in the order in which they are written.
pub open spec fn symbols(condition: IfCondition<int>) -> Seq<Symbol>
    decreases condition,
{
    match condition {
        IfCondition::Variable(element) => seq![Symbol::Atom(element)],
        IfCondition::Not(c) => seq![Symbol::Not] + symbols(*c),
        IfCondition::And(c) => infix(
            symbols(c.0),
            IfConditionOperator::And,
            symbols(c.1),
        ),
        IfCondition::Or(c) => infix(
            symbols(c.0),
            IfConditionOperator::Or,
            symbols(c.1),
        ),
        IfCondition::Equal(c) => infix(
            symbols(c.0),
            IfConditionOperator::Equal,
            symbols(c.1),
        ),
        IfCondition::NotEqual(c) => infix(
            symbols(c.0),
            IfConditionOperator::NotEqual,
            symbols(c.1),
        ),
        IfCondition::LessThan(c) => infix(
            symbols(c.0),
            IfConditionOperator::LessThan,
            symbols(c.1),
        ),
        IfCondition::GreaterThan(c) => infix(
            symbols(c.0),
            IfConditionOperator::GreaterThan,
            symbols(c.1),
        ),
        IfCondition::LessThanEqual(c) => infix(
            symbols(c.0),
            IfConditionOperator::LessThanEqual,
            symbols(c.1),
        ),
        IfCondition::GreaterThanEqual(c) => infix(
            symbols(c.0),
            IfConditionOperator::GreaterThanEqual,
            symbols(c.1),
        ),
        IfCondition::In(c) => infix(
            symbols(c.0),
            IfConditionOperator::In,
            symbols(c.1),
        ),
        IfCondition::NotIn(c) => infix(
            symbols(c.0),
            IfConditionOperator::NotIn,
            symbols(c.1),
        ),
        IfCondition::Is(c) => infix(
            symbols(c.0),
            IfConditionOperator::Is,
            symbols(c.1),
        ),
        IfCondition::IsNot(c) => infix(
            symbols(c.0),
            IfConditionOperator::IsNot,
            symbols(c.1),
        ),
    }
}

/// How tightly the outermost part of a condition holds together; values hold together most.
pub open spec fn strength(condition: IfCondition<int>) -> u8 {
    match condition {
        IfCondition::Variable(_) => 11,
        IfCondition::Not(_) => NOT_BINDING_POWER,
        IfCondition::And(_) => power(IfConditionOperator::And),
        IfCondition::Or(_) => power(IfConditionOperator::Or),
        IfCondition::Equal(_) => power(IfConditionOperator::Equal),
        IfCondition::NotEqual(_) => power(IfConditionOperator::NotEqual),
        IfCondition::LessThan(_) => power(IfConditionOperator::LessThan),
        IfCondition::GreaterThan(_) => power(IfConditionOperator::GreaterThan),
        IfCondition::LessThanEqual(_) => power(IfConditionOperator::LessThanEqual),
        IfCondition::GreaterThanEqual(_) => power(IfConditionOperator::GreaterThanEqual),
        IfCondition::In(_) => power(IfConditionOperator::In),
        IfCondition::NotIn(_) => power(IfConditionOperator::NotIn),
        IfCondition::Is(_) => power(IfConditionOperator::Is),
        IfCondition::IsNot(_) => power(IfConditionOperator::IsNot),
    }
}

/// The two sides of an operator bind at least as tightly as it does, and the right one more
/// tightly, unless it starts with `not`.
pub open spec fn sides_fit(
    operator: IfConditionOperator,
    lhs: IfCondition<int>,
    rhs: IfCondition<int>,
) -> bool {
    &&& strength(lhs) >= power(operator)
    &&& strength(rhs) > power(operator) || rhs is Not
}

/// Everything in a condition is grouped by how tightly the operators bind, and operators that
/// bind alike are grouped from the left.
pub open spec fn well_grouped(condition: IfCondition<int>) -> bool
    decreases condition,
{
    match condition {
        IfCondition::Variable(_) => true,
        IfCondition::Not(c) => {
            &&& strength(*c) > NOT_BINDING_POWER || *c is Not
            &&& well_grouped(*c)
        },
        IfCondition::And(c) => {
            &&& sides_fit(IfConditionOperator::And, c.0, c.1)
            &&& well_grouped(c.0)
            &&& well_grouped(c.1)
        },
        IfCondition::Or(c) => {
            &&& sides_fit(IfConditionOperator::Or, c.0, c.1)
            &&& well_grouped(c.0)
            &&& well_grouped(c.1)
        },
        IfCondition::Equal(c) => {
            &&& sides_fit(IfConditionOperator::Equal, c.0, c.1)
            &&& well_grouped(c.0)
            &&& well_grouped(c.1)
        },
        IfCondition::NotEqual(c) => {
            &&& sides_fit(IfConditionOperator::NotEqual, c.0, c.1)
            &&& well_grouped(c.0)
            &&& well_grouped(c.1)
        },
        IfCondition::LessThan(c) => {
            &&& sides_fit(IfConditionOperator::LessThan, c.0, c.1)
            &&& well_grouped(c.0)
            &&& well_grouped(c.1)
        },
        IfCondition::GreaterThan(c) => {
            &&& sides_fit(IfConditionOperator::GreaterThan, c.0, c.1)
            &&& well_grouped(c.0)
            &&& well_grouped(c.1)
        },
        IfCondition::LessThanEqual(c) => {
            &&& sides_fit(IfConditionOperator::LessThanEqual, c.0, c.1)
            &&& well_grouped(c.0)
            &&& well_grouped(c.1)
        },
        IfCondition::GreaterThanEqual(c) => {
            &&& sides_fit(IfConditionOperator::GreaterThanEqual, c.0, c.1)
            &&& well_grouped(c.0)
            &&& well_grouped(c.1)
        },
        IfCondition::In(c) => {
            &&& sides_fit(IfConditionOperator::In, c.0, c.1)
            &&& well_grouped(c.0)
            &&& well_grouped(c.1)
        },
        IfCondition::NotIn(c) => {
            &&& sides_fit(IfConditionOperator::NotIn, c.0, c.1)
            &&& well_grouped(c.0)
            &&& well_grouped(c.1)
        },
        IfCondition::Is(c) => {
            &&& sides_fit(IfConditionOperator::Is, c.0, c.1)
            &&& well_grouped(c.0)
            &&& well_grouped(c.1)
        },
        IfCondition::IsNot(c) => {
            &&& sides_fit(IfConditionOperator::IsNot, c.0, c.1)
            &&& well_grouped(c.0)
            &&& well_grouped(c.1)
        },
    }
}

/// A token is what a symbol was read from.
pub open spec fn stands_for(
    scope: Scope,
    token: Result<IfConditionToken, LexerError>,
    symbol: Symbol,
) -> bool {
    match token {
        Err(_) => false,
        Ok(token) => match token.token_type {
            IfConditionTokenType::Atom(atom) => match atom_of(scope, token.at, atom) {
                Ok(element) => symbol == Symbol::Atom(element),
                Err(_) => false,
            },
            IfConditionTokenType::Operator(operator) => symbol == Symbol::Operator(operator),
            IfConditionTokenType::Not => symbol == Symbol::Not,
        },
    }
}

/// The tokens from one position up to another are what the symbols were read from.
pub open spec fn spelled(
    scope: Scope,
    tokens: IfTokens,
    from: int,
    to: int,
    symbols: Seq<Symbol>,
) -> bool {
    &&& symbols.len() == to - from
    &&& forall|i: int|
        from <= i < to ==> stands_for(scope, #[trigger] tokens[i], symbols[i - from])
}

/// The operator at a position, if there is one, does not bind more tightly than `min`.
spec fn ends(tokens: IfTokens, pos: int, min: u8) -> bool {
    pos < tokens.len() ==> match tokens[pos] {
        Ok(token) => match token.token_type {
            IfConditionTokenType::Operator(operator) => power(operator) <= min,
            _ => false,
        },
        Err(_) => false,
    }
}

/// An operator at a position can take `lhs` for its left side.
spec fn can_follow(tokens: IfTokens, pos: int, lhs: IfCondition<int>) -> bool {
    pos < tokens.len() ==> match tokens[pos] {
        Ok(token) => match token.token_type {
            IfConditionTokenType::Operator(operator) => power(operator) <= strength(lhs),
            _ => true,
        },
        Err(_) => true,
    }
}

proof fn lemma_joined(operator: IfConditionOperator, lhs: IfCondition<int>, rhs: IfCondition<int>)
    ensures
        symbols(joined(operator, lhs, rhs)) == infix(symbols(lhs), operator, symbols(rhs)),
        strength(joined(operator, lhs, rhs)) == power(operator),
        well_grouped(joined(operator, lhs, rhs)) == (sides_fit(operator, lhs, rhs)
            && well_grouped(lhs) && well_grouped(rhs)),
{
}

proof fn lemma_condition_at(scope: Scope, tokens: IfTokens, pos: int, min: u8, at: At)
    requires
        0 <= pos,
        min <= 10,
        condition_at(scope, tokens, pos, min, at) is Ok,
    ensures
        ({
            let (condition, next) = condition_at(scope, tokens, pos, min, at)->Ok_0;
            &&& pos < next <= tokens.len()
            &&& spelled(scope, tokens, pos, next, symbols(condition))
            &&& well_grouped(condition)
            &&& strength(condition) > min || condition is Not
            &&& ends(tokens, next, min)
        }),
    decreases tokens.len() - pos, 1int,
{
    let token = tokens[pos]->Ok_0;
    match token.token_type {
        IfConditionTokenType::Atom(atom) => {
            let element = atom_of(scope, token.at, atom)->Ok_0;
            lemma_condition_from(
                scope,
                tokens,
                pos,
                pos + 1,
                min,
                IfCondition::Variable(element),
            );
        },
        IfConditionTokenType::Not => {
            lemma_condition_at(scope, tokens, pos + 1, NOT_BINDING_POWER, token.at);
            let (inner, next) = condition_at(
                scope,
                tokens,
                pos + 1,
                NOT_BINDING_POWER,
                token.at,
            )->Ok_0;
            let lhs = IfCondition::Not(Box::new(inner));
            assert forall|i: int| pos <= i < next implies stands_for(
                scope,
                #[trigger] tokens[i],
                symbols(lhs)[i - pos],
            ) by {
                if i > pos {
                    assert(symbols(lhs)[i - pos] == symbols(inner)[i - (pos + 1)]);
                }
            }
            lemma_condition_from(scope, tokens, pos, next, min, lhs);
        },
        IfConditionTokenType::Operator(_) => {},
    }
}

proof fn lemma_condition_from(
    scope: Scope,
    tokens: IfTokens,
    start: int,
    pos: int,
    min: u8,
    lhs: IfCondition<int>,
)
    requires
        0 <= start < pos <= tokens.len(),
        min <= 10,
        condition_from(scope, tokens, pos, min, lhs) is Ok,
        spelled(scope, tokens, start, pos, symbols(lhs)),
        well_grouped(lhs),
        strength(lhs) > min || lhs is Not,
        can_follow(tokens, pos, lhs),
    ensures
        ({
            let (condition, next) = condition_from(scope, tokens, pos, min, lhs)->Ok_0;
            &&& pos <= next <= tokens.len()
            &&& spelled(scope, tokens, start, next, symbols(condition))
            &&& well_grouped(condition)
            &&& strength(condition) > min || condition is Not
            &&& ends(tokens, next, min)
        }),
    decreases tokens.len() - pos, 0int,
{
    if pos < tokens.len() {
        let token = tokens[pos]->Ok_0;
        let operator = token.token_type->Operator_0;
        if power(operator) > min {
            lemma_condition_at(scope, tokens, pos + 1, power(operator), token.at);
            let (rhs, next) = condition_at(
                scope,
                tokens,
                pos + 1,
                power(operator),
                token.at,
            )->Ok_0;
            lemma_joined(operator, lhs, rhs);
            let both = joined(operator, lhs, rhs);
            assert forall|i: int| start <= i < next implies stands_for(
                scope,
                #[trigger] tokens[i],
                symbols(both)[i - start],
            ) by {
                if i < pos {
                    assert(symbols(both)[i - start] == symbols(lhs)[i - start]);
                } else if i > pos {
                    assert(symbols(both)[i - start] == symbols(rhs)[i - (pos + 1)]);
                }
            }
            lemma_condition_from(scope, tokens, start, next, min, both);
        }
    }
}

/// A condition is made of all of its tokens, in their order, and of nothing else.
pub proof fn law_condition_keeps_tokens(scope: Scope, tokens: IfTokens, at: At)
    requires
        condition_of(scope, tokens, at) is Ok,
    ensures
        spelled(
            scope,
            tokens,
            0,
            tokens.len() as int,
            symbols(condition_of(scope, tokens, at)->Ok_0),
        ),
{
    lemma_condition_at(scope, tokens, 0, 0, at);
}

/// Operators that bind more tightly are grouped first, and operators that bind alike are grouped
/// from the left.
pub proof fn law_condition_is_well_grouped(scope: Scope, tokens: IfTokens, at: At)
    requires
        condition_of(scope, tokens, at) is Ok,
    ensures
        well_grouped(condition_of(scope, tokens, at)->Ok_0),
{
    lemma_condition_at(scope, tokens, 0, 0, at);
}

} // verus!
