//! What names and filters are read as.
use vstd::prelude::*;
use vstd::string::*;
use crate::filters::FilterType;
use crate::integer::{decimal, decimal_text, law_text_reads_back};
use crate::lexer::tokens::{
    ArgumentToken, FilterToken, LexedVariable, TagElementTokenType, VariableLexerError,
    VariableToken,
};
use crate::parse::elements::{
    apply_filter, apply_filters, argument_of, element_of, filter_type, for_variable,
    for_variable_name, number, variable_of,
};
use crate::parse::errors::ParseError;
use crate::parse::parser::Scope;
use crate::parse::tree::TagElement;
use crate::text::{span, At};
use crate::types::{Argument, ArgumentType, Either, Float, ForVariable, ForVariableName, Variable};
use crate::words::{split_on, trim};

verus! {

/// How what is asked of a for loop is written.
pub open spec fn variant_name(variant: ForVariableName) -> Seq<char> {
    match variant {
        ForVariableName::Counter => "counter"@,
        ForVariableName::Counter0 => "counter0"@,
        ForVariableName::RevCounter => "revcounter"@,
        ForVariableName::RevCounter0 => "revcounter0"@,
        ForVariableName::First => "first"@,
        ForVariableName::Last => "last"@,
        ForVariableName::Object => "parentloop"@,
    }
}

/// The words that ask something of the loop that is a number of loops further out.
pub open spec fn loop_words(variant: ForVariableName, parents: nat) -> Seq<Seq<char>> {
    let out = Seq::new(parents, |i: int| "parentloop"@);
    if variant is Object {
        seq!["forloop"@] + out
    } else {
        (seq!["forloop"@] + out).push(variant_name(variant))
    }
}

/// The words of a variable, between its dots.
pub open spec fn words_of(text: Seq<char>) -> Seq<Seq<char>> {
    split_on(text, '.').map_values(|part: Seq<char>| trim(part))
}

proof fn lemma_variant_is_read(variant: ForVariableName)
    ensures
        for_variable_name(variant_name(variant)) == Some(variant),
{
    reveal_strlit("counter");
    assert("counter"@.len() == 7 && "counter"@[0] == 'c');
    reveal_strlit("counter0");
    assert("counter0"@.len() == 8 && "counter0"@[0] == 'c');
    reveal_strlit("revcounter");
    assert("revcounter"@.len() == 10 && "revcounter"@[0] == 'r');
    reveal_strlit("revcounter0");
    assert("revcounter0"@.len() == 11 && "revcounter0"@[0] == 'r');
    reveal_strlit("first");
    assert("first"@.len() == 5 && "first"@[0] == 'f');
    reveal_strlit("last");
    assert("last"@.len() == 4 && "last"@[0] == 'l');
    reveal_strlit("parentloop");
    assert("parentloop"@.len() == 10 && "parentloop"@[0] == 'p');
}

proof fn lemma_split_is_not_empty(text: Seq<char>)
    ensures
        split_on(text, '.').len() > 0,
    decreases text.len(),
{
    if text.len() > 0 {
        lemma_split_is_not_empty(text.drop_last());
    }
}

/// Within for loops, the words that ask something of a loop are read as asking just that, where
/// there is such a loop.
pub proof fn law_loop_words_are_read_as_written(
    text: Seq<char>,
    forloop_depth: int,
    at: At,
    variant: ForVariableName,
    parents: nat,
)
    requires
        words_of(text) == loop_words(variant, parents),
        0 < forloop_depth,
        parents <= forloop_depth <= usize::MAX,
    ensures
        for_variable(text, forloop_depth, at) == Either::<Variable, ForVariable>::Right(
            ForVariable { variant, parent_count: parents as usize, at },
        ),
{
    let parts = split_on(text, '.');
    let words = words_of(text);
    lemma_split_is_not_empty(text);
    lemma_variant_is_read(variant);
    assert(words[0] == trim(parts[0]));
    assert(words.len() == parts.len());
    assert(words.last() == trim(parts.last()));
    assert forall|i: int| 1 <= i < parts.len() - 1 implies trim(#[trigger] parts[i])
        == "parentloop"@ by {
        assert(words[i] == trim(parts[i]));
    }
    assert(parts.len() > 1 ==> words.last() == variant_name(variant));
}

/// Whatever is read as asking something of a for loop is written that way, and there is such a
/// loop; everything else is a plain variable.
pub proof fn law_loop_variables_are_written_so(text: Seq<char>, forloop_depth: int, at: At)
    requires
        0 <= forloop_depth <= usize::MAX,
    ensures
        match for_variable(text, forloop_depth, at) {
            Either::Right(asked) => {
                &&& words_of(text) == loop_words(asked.variant, asked.parent_count as nat)
                &&& asked.parent_count <= forloop_depth
                &&& 0 < forloop_depth
                &&& asked.at == at
            },
            Either::Left(plain) => plain.at == at,
        },
{
    let parts = split_on(text, '.');
    let words = words_of(text);
    lemma_split_is_not_empty(text);
    assert(words[0] == trim(parts[0]));
    assert(words.last() == trim(parts.last()));
    if let Either::Right(asked) = for_variable(text, forloop_depth, at) {
        assert forall|i: int| 1 <= i < parts.len() - 1 implies words[i] == "parentloop"@ by {
            assert(words[i] == trim(parts[i]));
        }
        assert(words =~= loop_words(asked.variant, asked.parent_count as nat));
    }
}

/// How a filter is written.
pub open spec fn filter_name(filter: FilterType<int>) -> Seq<char> {
    match filter {
        FilterType::Add(_) => "add"@,
        FilterType::AddSlashes(_) => "addslashes"@,
        FilterType::Capfirst(_) => "capfirst"@,
        FilterType::Center(_) => "center"@,
        FilterType::Cut(_) => "cut"@,
        FilterType::Date(_) => "date"@,
        FilterType::Default(_) => "default"@,
        FilterType::DefaultIfNone(_) => "default_if_none"@,
        FilterType::DivisibleBy(_) => "divisibleby"@,
        FilterType::Escape(_) => "escape"@,
        FilterType::Escapejs(_) => "escapejs"@,
        FilterType::External(_) => ""@,
        FilterType::ForceEscape(_) => "force_escape"@,
        FilterType::Last(_) => "last"@,
        FilterType::Length(_) => "length"@,
        FilterType::Lower(_) => "lower"@,
        FilterType::Safe(_) => "safe"@,
        FilterType::Slugify(_) => "slugify"@,
        FilterType::Title(_) => "title"@,
        FilterType::Upper(_) => "upper"@,
        FilterType::Wordcount(_) => "wordcount"@,
        FilterType::Wordwrap(_) => "wordwrap"@,
        FilterType::Yesno(_) => "yesno"@,
    }
}

/// The argument that a filter holds.
pub open spec fn filter_argument(filter: FilterType<int>) -> Option<Argument<int>> {
    match filter {
        FilterType::Add(f) => Some(f.argument),
        FilterType::Center(f) => Some(f.argument),
        FilterType::Cut(f) => Some(f.argument),
        FilterType::Date(f) => f.argument,
        FilterType::Default(f) => Some(f.argument),
        FilterType::DefaultIfNone(f) => Some(f.argument),
        FilterType::DivisibleBy(f) => Some(f.argument),
        FilterType::External(f) => f.argument,
        FilterType::Wordwrap(f) => Some(f.argument),
        FilterType::Yesno(f) => f.argument,
        _ => None,
    }
}

/// A filter keeps where it stands, if it keeps anything of the kind.
pub open spec fn stands_at(filter: FilterType<int>, at: At) -> bool {
    match filter {
        FilterType::Date(f) => f.at == at,
        FilterType::Default(f) => f.at == at,
        FilterType::DivisibleBy(f) => f.at == at,
        FilterType::Last(f) => f.at == at,
        FilterType::Yesno(f) => f.at == at,
        _ => true,
    }
}

/// A filter is one that divides by zero.
pub open spec fn divides_by_zero(filter: FilterType<int>) -> bool {
    filter matches FilterType::DivisibleBy(f) && f.argument.argument_type == ArgumentType::Int(0int)
}

/// A name is that of a filter that comes with every template.
pub open spec fn is_built_in(name: Seq<char>) -> bool {
    exists|filter: FilterType<int>| !(filter is External) && #[trigger] filter_name(filter) == name
}

/// Whatever is read as a filter is written by its name and has the argument that was given: only
/// under other names is it one that a library defines.
pub proof fn law_filters_are_written_by_name(
    scope: Scope,
    name: Seq<char>,
    at: At,
    right: Option<Argument<int>>,
)
    ensures
        filter_type(scope, name, at, right) matches Ok(filter) ==> {
            &&& filter_argument(filter) == right
            &&& stands_at(filter, at)
            &&& !divides_by_zero(filter)
            &&& match filter {
                FilterType::External(external) => {
                    &&& scope.external_filters.contains_key(name)
                    &&& external.filter == scope.external_filters[name]
                    &&& !is_built_in(name)
                },
                _ => filter_name(filter) == name,
            }
        },
{
}

/// Every filter is read from its name and its argument, unless it divides by zero.
pub proof fn law_filters_are_read_by_name(scope: Scope, at: At, filter: FilterType<int>)
    requires
        !(filter is External),
        stands_at(filter, at),
        !divides_by_zero(filter),
    ensures
        filter_type(scope, filter_name(filter), at, filter_argument(filter)) == Ok::<
            _,
            ParseError<Seq<char>>,
        >(filter),
{
    reveal_strlit("add");
    assert("add"@.len() == 3 && "add"@[0] == 'a');
    reveal_strlit("addslashes");
    assert("addslashes"@.len() == 10 && "addslashes"@[0] == 'a');
    reveal_strlit("capfirst");
    assert("capfirst"@.len() == 8 && "capfirst"@[0] == 'c');
    reveal_strlit("center");
    assert("center"@.len() == 6 && "center"@[0] == 'c');
    reveal_strlit("cut");
    assert("cut"@.len() == 3 && "cut"@[0] == 'c');
    reveal_strlit("date");
    assert("date"@.len() == 4 && "date"@[0] == 'd');
    reveal_strlit("default");
    assert("default"@.len() == 7 && "default"@[0] == 'd');
    reveal_strlit("default_if_none");
    assert("default_if_none"@.len() == 15 && "default_if_none"@[0] == 'd');
    reveal_strlit("divisibleby");
    assert("divisibleby"@.len() == 11 && "divisibleby"@[0] == 'd');
    reveal_strlit("escape");
    assert("escape"@.len() == 6 && "escape"@[0] == 'e');
    reveal_strlit("escapejs");
    assert("escapejs"@.len() == 8 && "escapejs"@[0] == 'e');
    reveal_strlit("force_escape");
    assert("force_escape"@.len() == 12 && "force_escape"@[0] == 'f');
    reveal_strlit("last");
    assert("last"@.len() == 4 && "last"@[0] == 'l');
    reveal_strlit("length");
    assert("length"@.len() == 6 && "length"@[0] == 'l');
    reveal_strlit("lower");
    assert("lower"@.len() == 5 && "lower"@[0] == 'l');
    reveal_strlit("safe");
    assert("safe"@.len() == 4 && "safe"@[0] == 's');
    reveal_strlit("slugify");
    assert("slugify"@.len() == 7 && "slugify"@[0] == 's');
    reveal_strlit("title");
    assert("title"@.len() == 5 && "title"@[0] == 't');
    reveal_strlit("upper");
    assert("upper"@.len() == 5 && "upper"@[0] == 'u');
    reveal_strlit("wordcount");
    assert("wordcount"@.len() == 9 && "wordcount"@[0] == 'w');
    reveal_strlit("wordwrap");
    assert("wordwrap"@.len() == 8 && "wordwrap"@[0] == 'w');
    reveal_strlit("yesno");
    assert("yesno"@.len() == 5 && "yesno"@[0] == 'y');
}

/// Why a filter is refused: it lacks its argument, has one that it does not take, divides by zero,
/// or is unknown.
pub proof fn law_refused_filters(
    scope: Scope,
    name: Seq<char>,
    at: At,
    right: Option<Argument<int>>,
)
    ensures
        filter_type(scope, name, at, right) matches Err(error) ==> match error {
            ParseError::MissingArgument { at: place } => right is None && place == at,
            ParseError::UnexpectedArgument { filter, at: place } => {
                &&& filter == name
                &&& right matches Some(argument) && argument.at == place
            },
            ParseError::DivisibleByZero { at: place } => {
                &&& name == "divisibleby"@
                &&& right matches Some(argument) && argument.at == place && argument.argument_type
                    == ArgumentType::Int(0int)
            },
            ParseError::InvalidFilter { filter, at: place } => {
                &&& filter == name && place == at
                &&& !scope.external_filters.contains_key(name)
                &&& !is_built_in(name)
            },
            _ => false,
        },
{
}

/// The argument that a token stands for lies where the token does, and is what the token says.
pub proof fn law_arguments_are_what_they_say(scope: Scope, token: ArgumentToken)
    ensures
        argument_of(scope, token) matches Ok(argument) ==> {
            &&& argument.at == token.location()
            &&& match (token, argument.argument_type) {
                (ArgumentToken::Numeric { at, float }, ArgumentType::Int(n)) => {
                    decimal(span(scope.template, at)) == Some(n)
                },
                (ArgumentToken::Numeric { at, float }, ArgumentType::Float(f)) => {
                    decimal(span(scope.template, at)) is None && float == Some(f)
                },
                (ArgumentToken::Text(at), ArgumentType::Text(text)) => is_between_quotes(
                    text.at,
                    at,
                    1,
                    1,
                ),
                (ArgumentToken::TranslatedText(at), ArgumentType::TranslatedText(text)) => {
                    is_between_quotes(text.at, at, 3, 2)
                },
                (ArgumentToken::Variable(at), ArgumentType::Variable(variable)) => {
                    &&& variable.at == at
                    &&& for_variable(span(scope.template, at), scope.forloop_depth, at) is Left
                },
                (ArgumentToken::Variable(at), ArgumentType::ForVariable(variable)) => {
                    for_variable(span(scope.template, at), scope.forloop_depth, at)
                        == Either::<Variable, ForVariable>::Right(variable)
                },
                _ => false,
            }
        },
        argument_of(scope, token) is Err ==> (token matches ArgumentToken::Numeric { at, float }
            && float is None && decimal(span(scope.template, at)) is None),
{
}

/// What stands between quotes: some characters are left out before and after it.
pub open spec fn is_between_quotes(inner: At, outer: At, before: int, after: int) -> bool {
    outer.0 + before <= usize::MAX && outer.1 >= before + after ==> {
        &&& inner.0 == outer.0 + before
        &&& inner.0 + inner.1 + after == outer.0 + outer.1
    }
}

/// The element that a token stands for is what the token says.
pub proof fn law_elements_are_what_they_say(scope: Scope, at: At, token_type: TagElementTokenType)
    ensures
        element_of(scope, at, token_type) matches Ok(element) ==> match (token_type, element) {
            (TagElementTokenType::Numeric(float), TagElement::Int(n)) => {
                decimal(span(scope.template, at)) == Some(n)
            },
            (TagElementTokenType::Numeric(float), TagElement::Float(f)) => {
                decimal(span(scope.template, at)) is None && float == Some(f)
            },
            (TagElementTokenType::Text, TagElement::Text(text)) => is_between_quotes(
                text.at,
                at,
                1,
                1,
            ),
            (TagElementTokenType::TranslatedText, TagElement::TranslatedText(text)) => {
                is_between_quotes(text.at, at, 3, 2)
            },
            (TagElementTokenType::Variable(variable), _) => {
                variable_of(scope, variable, at) == Ok::<_, ParseError<Seq<char>>>(element)
            },
            _ => false,
        },
        token_type is Text || token_type is TranslatedText ==> element_of(scope, at, token_type) is Ok,
{
}

/// A variable without filters is what its name is read as.
pub proof fn law_plain_variables(scope: Scope, lexed: LexedVariable, at: At)
    requires
        lexed.filters@.len() == 0,
    ensures
        variable_of(scope, Ok(Some(lexed)), at) matches Ok(element) && match (lexed.token, element) {
            (VariableToken::Int(n), TagElement::Int(m)) => m == n@,
            (VariableToken::Float(f), TagElement::Float(g)) => f == g,
            (VariableToken::Variable, TagElement::Variable(variable)) => {
                &&& variable.at == lexed.at
                &&& for_variable(
                    span(scope.template, lexed.at),
                    scope.forloop_depth,
                    lexed.at,
                ) is Left
            },
            (VariableToken::Variable, TagElement::ForVariable(variable)) => {
                for_variable(span(scope.template, lexed.at), scope.forloop_depth, lexed.at)
                    == Either::<Variable, ForVariable>::Right(variable)
            },
            _ => false,
        },
{
}

/// The last of some filters is the outermost one: it is applied to what the filters before it give,
/// and reaches from the start of the variable to its own end.
pub proof fn law_filters_apply_in_turn(
    scope: Scope,
    start: usize,
    left: TagElement<int>,
    filters: Seq<Result<FilterToken, VariableLexerError>>,
)
    requires
        filters.len() > 0,
    ensures
        apply_filters(scope, start, left, filters) matches Ok(element) ==> {
            &&& filters.last() matches Ok(token)
            &&& element matches TagElement::Filter(outer) && {
                &&& outer.at == token.at
                &&& outer.all_at.0 == start
                &&& start <= token.at.0 && token.at.0 + token.at.1 <= usize::MAX ==> start
                    + outer.all_at.1 == token.at.0 + token.at.1
                &&& apply_filters(scope, start, left, filters.drop_last()) == Ok::<
                    _,
                    ParseError<Seq<char>>,
                >(outer.left)
                &&& outer.filter is External || filter_name(outer.filter) == span(
                    scope.template,
                    token.at,
                )
                &&& match token.argument {
                    None => filter_argument(outer.filter) is None,
                    Some(argument) => argument_of(scope, argument) == Ok::<
                        _,
                        ParseError<Seq<char>>,
                    >(filter_argument(outer.filter)->Some_0) && filter_argument(outer.filter) is Some,
                }
            }
        },
    decreases filters.len(),
{
    if filters.len() == 1 {
        assert(filters.drop_last() =~= Seq::empty());
        assert(filters.drop_first() =~= Seq::empty());
        if let Ok(element) = apply_filter(scope, start, left, filters[0]) {
            assert(apply_filters(scope, start, element, Seq::empty()) == Ok::<
                _,
                ParseError<Seq<char>>,
            >(element));
        }
    } else {
        if let Ok(next) = apply_filter(scope, start, left, filters[0]) {
            law_filters_apply_in_turn(scope, start, next, filters.drop_first());
            assert(filters.drop_first().drop_last() =~= filters.drop_last().drop_first());
            assert(filters.drop_last()[0] == filters[0]);
        }
    }
}

/// An integer reads as itself however it is written in decimal; any other number is the floating
/// point number that it reads as, and what reads as none is refused where it stands.
pub proof fn law_numbers_read_as_written(n: int, text: Seq<char>, float: Option<Float>, at: At)
    ensures
        number(decimal_text(n), float, at) == Ok::<_, ParseError<Seq<char>>>(TagElement::Int(n)),
        number(text, float, at) matches Ok(TagElement::Int(m)) ==> decimal(text) == Some(m),
        decimal(text) is None && float is Some ==> number(text, float, at) == Ok::<
            _,
            ParseError<Seq<char>>,
        >(TagElement::<int>::Float(float->0)),
        number(text, float, at) is Err <==> decimal(text) is None && float is None,
        number(text, float, at) matches Err(e) ==> e == (ParseError::<Seq<char>>::InvalidNumber {
            at,
        }),
{
    law_text_reads_back(n);
}

} // verus!
