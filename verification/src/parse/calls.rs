//! How the function behind a tag of a library is called.
use vstd::prelude::*;
use crate::dict::views;
use crate::lexer::tokens::{LexerFault, TagElementKwargToken};
use crate::parse::arguments::{
    as_variable, custom_tag_parts, first_fault, last_as, missing_arguments, missing_names,
    readable, take_argument, take_arguments, unfilled_params, CustomParts,
};
use crate::parse::elements::element_of;
use crate::parse::errors::{ParseError, PyParseError};
use crate::parse::library::{
    tag_context, with_tag, Closure, ClosureValue, SimpleTagContextView, TagContextView, TagSource,
};
use crate::parse::parser::Scope;
use crate::parse::tree::TagElement;
use crate::text::{span, At};
use crate::types::PyObject;

verus! {

/// What tokens end with says which variable the outcome goes to: the word `as` and a name, or
/// nothing.
pub proof fn law_as_variables(
    template: Seq<char>,
    tokens: Seq<TagElementKwargToken>,
    word: TagElementKwargToken,
    name: TagElementKwargToken,
)
    requires
        span(template, word.at) == "as"@,
    ensures
        as_variable(template, tokens.push(word).push(name)) == Ok::<_, ParseError<Seq<char>>>(
            (Some(span(template, name.at)), tokens.len() as int),
        ),
        (forall|i: int| 0 <= i < tokens.len() ==> span(template, (#[trigger] tokens[i]).at) != "as"@)
            <==> as_variable(template, tokens) == Ok::<_, ParseError<Seq<char>>>(
            (None::<Seq<char>>, tokens.len() as int),
        ),
        as_variable(template, tokens) matches Ok((asvar, count)) ==> match asvar {
            None => count == tokens.len(),
            Some(variable) => {
                &&& 0 <= count == tokens.len() - 2
                &&& span(template, tokens[count].at) == "as"@
                &&& span(template, tokens[count + 1].at) == variable
            },
        },
{
    let all = tokens.push(word).push(name);
    assert(all.drop_last() =~= tokens.push(word));
    assert(tokens.push(word).last() == word);
    assert(all[all.len() - 2] == word);
    assert(last_as(template, tokens.push(word)) == Some(tokens.len() as int));
    find_last_as(template, tokens);
}

/// Where the last `as` stands.
proof fn find_last_as(template: Seq<char>, tokens: Seq<TagElementKwargToken>)
    ensures
        match last_as(template, tokens) {
            None => forall|i: int|
                0 <= i < tokens.len() ==> span(template, (#[trigger] tokens[i]).at) != "as"@,
            Some(pos) => {
                &&& 0 <= pos < tokens.len()
                &&& span(template, tokens[pos].at) == "as"@
                &&& forall|i: int|
                    pos < i < tokens.len() ==> span(template, (#[trigger] tokens[i]).at) != "as"@
            },
        },
    decreases tokens.len(),
{
    if tokens.len() > 0 && span(template, tokens.last().at) != "as"@ {
        find_last_as(template, tokens.drop_last());
        match last_as(template, tokens.drop_last()) {
            None => {
                assert forall|i: int| 0 <= i < tokens.len() implies span(
                    template,
                    (#[trigger] tokens[i]).at,
                ) != "as"@ by {
                    if i < tokens.len() - 1 {
                        assert(tokens.drop_last()[i] == tokens[i]);
                    }
                }
            },
            Some(pos) => {
                assert forall|i: int| pos < i < tokens.len() implies span(
                    template,
                    (#[trigger] tokens[i]).at,
                ) != "as"@ by {
                    if i < tokens.len() - 1 {
                        assert(tokens.drop_last()[i] == tokens[i]);
                    }
                }
            },
        }
    }
}

/// Tokens without the word `as` bind nothing.
pub proof fn lemma_no_as(template: Seq<char>, tokens: Seq<TagElementKwargToken>)
    requires
        forall|i: int|
            0 <= i < tokens.len() ==> span(template, (#[trigger] tokens[i]).at) != "as"@,
    ensures
        as_variable(template, tokens) == Ok::<_, ParseError<Seq<char>>>(
            (None::<Seq<char>>, tokens.len() as int),
        ),
{
    find_last_as(template, tokens);
    if let Some(pos) = last_as(template, tokens) {
        assert(span(template, tokens[pos].at) != "as"@);
    }
}

/// The `as` that is left without a variable, or with more than one word after it, is refused where
/// it stands.
pub proof fn law_as_without_a_variable(template: Seq<char>, tokens: Seq<TagElementKwargToken>, pos: int)
    requires
        0 <= pos < tokens.len(),
        span(template, tokens[pos].at) == "as"@,
        forall|i: int|
            pos < i < tokens.len() ==> span(template, (#[trigger] tokens[i]).at) != "as"@,
        pos == tokens.len() - 1 ==> pos == 0 || span(template, tokens[pos - 1].at) != "as"@,
        pos != tokens.len() - 2,
        pos < tokens.len() - 2 ==> tokens[pos + 2].at.0 <= tokens.last().at.0,
        tokens.last().at.0 + tokens.last().at.1 <= usize::MAX,
    ensures
        match as_variable(template, tokens) {
            Err(ParseError::MissingVariableAfterAs { at }) => {
                &&& pos == tokens.len() - 1
                &&& at == tokens[pos].at
            },
            Err(ParseError::UnexpectedTokensAfterAsVariable { at, var_name }) => {
                &&& pos < tokens.len() - 2
                &&& at.0 == tokens[pos + 2].at.0
                &&& at.0 + at.1 == tokens.last().at.0 + tokens.last().at.1
                &&& var_name == span(template, tokens[pos + 1].at)
            },
            _ => false,
        },
{
    find_last_as(template, tokens);
    let found = last_as(template, tokens);
    if found is None {
        assert(span(template, tokens[pos].at) != "as"@);
    } else {
        let last = found->0;
        if last < pos {
            assert(span(template, tokens[pos].at) != "as"@);
        } else if pos < last {
            assert(span(template, tokens[last].at) != "as"@);
        }
    }
}

/// The elements that tokens stand for.
pub open spec fn elements_of(scope: Scope, tokens: Seq<TagElementKwargToken>) -> Seq<
    TagElement<int>,
> {
    Seq::new(tokens.len(), |i: int| element_of(scope, tokens[i].at, tokens[i].token_type)->Ok_0)
}

/// The elements that tokens stand for, each with its keyword.
pub open spec fn named_elements_of(scope: Scope, tokens: Seq<TagElementKwargToken>) -> Seq<
    (Seq<char>, TagElement<int>),
> {
    Seq::new(
        tokens.len(),
        |i: int| (keyword(scope, tokens[i]), elements_of(scope, tokens)[i]),
    )
}

/// The keyword before an element.
pub open spec fn keyword(scope: Scope, token: TagElementKwargToken) -> Seq<char> {
    span(scope.template, token.kwarg->0)
}

/// A keyword stands before one of the elements.
pub open spec fn is_named(scope: Scope, named: Seq<TagElementKwargToken>, name: Seq<char>) -> bool {
    exists|i: int| 0 <= i < named.len() && keyword(scope, #[trigger] named[i]) == name
}

/// Each token stands for an element.
pub open spec fn all_are_elements(scope: Scope, tokens: Seq<TagElementKwargToken>) -> bool {
    forall|i: int|
        0 <= i < tokens.len() ==> element_of(
            scope,
            (#[trigger] tokens[i]).at,
            tokens[i].token_type,
        ) is Ok
}

/// A function that takes positional and named arguments can be called with these.
pub open spec fn fits(
    scope: Scope,
    context: SimpleTagContextView,
    given: Seq<TagElementKwargToken>,
    named: Seq<TagElementKwargToken>,
) -> bool {
    &&& forall|i: int| 0 <= i < given.len() ==> (#[trigger] given[i]).kwarg is None
    &&& forall|i: int| 0 <= i < named.len() ==> (#[trigger] named[i]).kwarg is Some
    &&& all_are_elements(scope, given)
    &&& all_are_elements(scope, named)
    &&& context.varargs || given.len() <= context.params.len()
    &&& forall|i: int, j: int|
        0 <= i < j < named.len() ==> keyword(scope, #[trigger] named[i]) != keyword(
            scope,
            #[trigger] named[j],
        )
    &&& forall|i: int|
        0 <= i < named.len() ==> context.varkw || context.params.contains(
            keyword(scope, #[trigger] named[i]),
        ) || context.kwonly.contains(keyword(scope, named[i]))
    &&& forall|i: int|
        given.len() <= i < context.params.len() - context.defaults_count ==> is_named(
            scope,
            named,
            #[trigger] context.params[i],
        )
    &&& forall|i: int|
        0 <= i < context.kwonly.len() ==> is_named(scope, named, #[trigger] context.kwonly[i])
            || context.kwonly_defaults.contains(context.kwonly[i])
}

proof fn lemma_given_are_taken(
    scope: Scope,
    context: SimpleTagContextView,
    parts: CustomParts,
    index: int,
    given: Seq<TagElementKwargToken>,
    rest: Seq<TagElementKwargToken>,
) -> (next: CustomParts)
    requires
        forall|i: int| 0 <= i < given.len() ==> (#[trigger] given[i]).kwarg is None,
        all_are_elements(scope, given),
        parts.kwargs.len() == 0,
        index >= 0,
        context.varargs || index + given.len() <= context.params.len(),
    ensures
        next.args == parts.args + elements_of(scope, given),
        next.kwargs == parts.kwargs,
        next.seen == parts.seen,
        take_arguments(scope, context, parts, index, given + rest) == take_arguments(
            scope,
            context,
            next,
            index + given.len(),
            rest,
        ),
    decreases given.len(),
{
    if given.len() == 0 {
        assert(given + rest =~= rest);
        assert(parts.args + elements_of(scope, given) =~= parts.args);
        parts
    } else {
        let token = given[0];
        assert((given + rest)[0] == token);
        assert((given + rest).drop_first() =~= given.drop_first() + rest);
        let step = take_argument(scope, context, parts, index, token)->Ok_0;
        assert(element_of(scope, token.at, token.token_type) is Ok);
        assert forall|i: int| 0 <= i < given.drop_first().len() implies (
        #[trigger] given.drop_first()[i]).kwarg is None by {
            assert(given[i + 1].kwarg is None);
        }
        assert(all_are_elements(scope, given.drop_first())) by {
            assert forall|i: int| 0 <= i < given.drop_first().len() implies element_of(
                scope,
                (#[trigger] given.drop_first()[i]).at,
                given.drop_first()[i].token_type,
            ) is Ok by {
                assert(element_of(scope, given[i + 1].at, given[i + 1].token_type) is Ok);
            }
        }
        let next = lemma_given_are_taken(
            scope,
            context,
            step,
            index + 1,
            given.drop_first(),
            rest,
        );
        assert(next.args =~= parts.args + elements_of(scope, given));
        next
    }
}

proof fn lemma_named_are_taken(
    scope: Scope,
    context: SimpleTagContextView,
    parts: CustomParts,
    index: int,
    named: Seq<TagElementKwargToken>,
) -> (next: CustomParts)
    requires
        forall|i: int| 0 <= i < named.len() ==> (#[trigger] named[i]).kwarg is Some,
        all_are_elements(scope, named),
        forall|i: int, j: int|
            0 <= i < j < named.len() ==> keyword(scope, #[trigger] named[i]) != keyword(
                scope,
                #[trigger] named[j],
            ),
        forall|i: int|
            0 <= i < named.len() ==> !parts.seen.contains_key(keyword(scope, #[trigger] named[i])),
        forall|i: int|
            0 <= i < named.len() ==> context.varkw || context.params.contains(
                keyword(scope, #[trigger] named[i]),
            ) || context.kwonly.contains(keyword(scope, named[i])),
    ensures
        take_arguments(scope, context, parts, index, named) == Ok::<_, ParseError<Seq<char>>>(next),
        next.args == parts.args,
        next.kwargs == parts.kwargs + named_elements_of(scope, named),
        forall|name: Seq<char>| #[trigger]
            next.seen.contains_key(name) <==> parts.seen.contains_key(name) || is_named(
                scope,
                named,
                name,
            ),
    decreases named.len(),
{
    if named.len() == 0 {
        assert(parts.kwargs + named_elements_of(scope, named) =~= parts.kwargs);
        parts
    } else {
        let token = named[0];
        let rest = named.drop_first();
        let step = take_argument(scope, context, parts, index, token)->Ok_0;
        assert(element_of(scope, token.at, token.token_type) is Ok);
        assert forall|i: int| 0 <= i < rest.len() implies (#[trigger] rest[i]).kwarg is Some by {
            assert(named[i + 1].kwarg is Some);
        }
        assert(all_are_elements(scope, rest)) by {
            assert forall|i: int| 0 <= i < rest.len() implies element_of(
                scope,
                (#[trigger] rest[i]).at,
                rest[i].token_type,
            ) is Ok by {
                assert(element_of(scope, named[i + 1].at, named[i + 1].token_type) is Ok);
            }
        }
        assert forall|i: int, j: int| 0 <= i < j < rest.len() implies keyword(
            scope,
            #[trigger] rest[i],
        ) != keyword(scope, #[trigger] rest[j]) by {
            assert(keyword(scope, named[i + 1]) != keyword(scope, named[j + 1]));
        }
        assert forall|i: int| 0 <= i < rest.len() implies !step.seen.contains_key(
            keyword(scope, #[trigger] rest[i]),
        ) by {
            assert(keyword(scope, named[0]) != keyword(scope, named[i + 1]));
        }
        assert forall|i: int| 0 <= i < rest.len() implies context.varkw || context.params.contains(
            keyword(scope, #[trigger] rest[i]),
        ) || context.kwonly.contains(keyword(scope, rest[i])) by {
            assert(rest[i] == named[i + 1]);
        }
        let next = lemma_named_are_taken(scope, context, step, index + 1, rest);
        assert(next.kwargs =~= parts.kwargs + named_elements_of(scope, named));
        assert forall|name: Seq<char>| #[trigger]
            next.seen.contains_key(name) <==> parts.seen.contains_key(name) || is_named(
                scope,
                named,
                name,
            ) by {
            if is_named(scope, rest, name) {
                let i = choose|i: int|
                    0 <= i < rest.len() && keyword(scope, #[trigger] rest[i]) == name;
                assert(keyword(scope, named[i + 1]) == name);
            }
            if is_named(scope, named, name) {
                let i = choose|i: int|
                    0 <= i < named.len() && keyword(scope, #[trigger] named[i]) == name;
                if i > 0 {
                    assert(keyword(scope, rest[i - 1]) == name);
                }
            }
            if keyword(scope, token) == name {
                assert(keyword(scope, named[0]) == name);
            }
        }
        next
    }
}

proof fn lemma_no_names_missing(names: Seq<Seq<char>>, seen: Map<Seq<char>, At>, defaults: Seq<Seq<char>>)
    requires
        forall|i: int|
            0 <= i < names.len() ==> seen.contains_key(#[trigger] names[i]) || defaults.contains(
                names[i],
            ),
    ensures
        missing_names(names, seen, defaults).len() == 0,
    decreases names.len(),
{
    if names.len() > 0 {
        assert forall|i: int| 0 <= i < names.drop_last().len() implies seen.contains_key(
            #[trigger] names.drop_last()[i],
        ) || defaults.contains(names.drop_last()[i]) by {
            assert(names.drop_last()[i] == names[i]);
        }
        lemma_no_names_missing(names.drop_last(), seen, defaults);
        assert(names.last() == names[names.len() - 1]);
    }
}

proof fn lemma_all_readable(tokens: Seq<TagElementKwargToken>)
    ensures
        first_fault(tokens.map_values(|token: TagElementKwargToken| Ok::<_, LexerFault>(token)))
            is None,
        readable(tokens.map_values(|token: TagElementKwargToken| Ok::<_, LexerFault>(token)))
            == tokens,
    decreases tokens.len(),
{
    let all = tokens.map_values(|token: TagElementKwargToken| Ok::<_, LexerFault>(token));
    assert(readable(all) =~= tokens);
    if tokens.len() > 0 {
        lemma_all_readable(tokens.drop_first());
        assert(all.drop_first() =~= tokens.drop_first().map_values(
            |token: TagElementKwargToken| Ok::<_, LexerFault>(token),
        ));
    }
}

/// Arguments that the function of a tag can be called with are accepted, and handed to it as they
/// are written: the positional ones and then the named ones, in order. What comes after `as` is
/// the variable that the outcome is stored in.
pub proof fn law_arguments_that_fit_are_accepted(
    scope: Scope,
    context: SimpleTagContextView,
    parts_at: At,
    given: Seq<TagElementKwargToken>,
    named: Seq<TagElementKwargToken>,
    ending: Seq<TagElementKwargToken>,
)
    requires
        fits(scope, context, given, named),
        ending.len() == 0 ==> forall|i: int|
            0 <= i < (given + named).len() ==> span(
                scope.template,
                (#[trigger] (given + named)[i]).at,
            ) != "as"@,
        ending.len() == 0 || (ending.len() == 2 && span(scope.template, ending[0].at) == "as"@),
    ensures
        custom_tag_parts(
            scope,
            (given + named + ending).map_values(
                |token: TagElementKwargToken| Ok::<_, LexerFault>(token),
            ),
            parts_at,
            context,
        ) == Ok::<_, ParseError<Seq<char>>>(
            (
                elements_of(scope, given),
                named_elements_of(scope, named),
                if ending.len() == 0 {
                    None
                } else {
                    Some(span(scope.template, ending[1].at))
                },
            ),
        ),
{
    let all = given + named;
    let tokens = all + ending;
    lemma_all_readable(tokens);
    if ending.len() == 0 {
        assert(tokens =~= all);
        find_last_as(scope.template, all);
        if let Some(pos) = last_as(scope.template, all) {
            assert(span(scope.template, all[pos].at) != "as"@);
        }
    } else {
        assert(tokens =~= all.push(ending[0]).push(ending[1]));
        law_as_variables(scope.template, all, ending[0], ending[1]);
    }
    assert(tokens.take(all.len() as int) =~= all);
    let start = CustomParts {
        args: Seq::empty(),
        kwargs: Seq::empty(),
        seen: Map::empty(),
        prev_at: parts_at,
    };
    let between = lemma_given_are_taken(scope, context, start, 0, given, named);
    let parts = lemma_named_are_taken(scope, context, between, given.len() as int, named);
    assert(parts.args =~= elements_of(scope, given));
    assert(parts.kwargs =~= named_elements_of(scope, named));
    let unfilled = unfilled_params(context, given.len() as int);
    assert forall|i: int| 0 <= i < unfilled.len() implies parts.seen.contains_key(
        #[trigger] unfilled[i],
    ) || Seq::<Seq<char>>::empty().contains(unfilled[i]) by {
        assert(unfilled[i] == context.params[given.len() + i]);
        assert(is_named(scope, named, context.params[given.len() + i]));
    }
    lemma_no_names_missing(unfilled, parts.seen, Seq::empty());
    assert forall|i: int| 0 <= i < context.kwonly.len() implies parts.seen.contains_key(
        #[trigger] context.kwonly[i],
    ) || context.kwonly_defaults.contains(context.kwonly[i]) by {
        assert(is_named(scope, named, context.kwonly[i]) || context.kwonly_defaults.contains(
            context.kwonly[i],
        ));
    }
    lemma_no_names_missing(context.kwonly, parts.seen, context.kwonly_defaults);
    assert(missing_arguments(context, parts).len() == 0);
}

/// A function as it is declared.
pub struct Function {
    pub func: PyObject,
    pub name: Seq<char>,
    pub takes_context: bool,
    pub params: Seq<Seq<char>>,
    /// The number of default values, for the last parameters, if there are any.
    pub defaults: Option<usize>,
    pub varargs: bool,
    pub kwonly: Seq<Seq<char>>,
    /// The keyword-only parameters with a default value, if there are any.
    pub kwonly_defaults: Option<Seq<Seq<char>>>,
    pub varkw: bool,
}

/// A closure holds what is declared of a function, under the names `defaults`, `func`,
/// `function_name`, `kwonly`, `kwonly_defaults`, `params`, `takes_context`, `varargs` and `varkw`,
/// in this order; the values from `func` on start at a position.
pub open spec fn declares(values: Seq<ClosureValue>, from: int, f: Function) -> bool {
    &&& 0 < from
    &&& from + 8 <= values.len()
    &&& match f.defaults {
        None => values[0].is_none,
        Some(count) => !values[0].is_none && values[0].length == Ok::<usize, PyObject>(count),
    }
    &&& values[from].object == f.func
    &&& values[from + 1].text matches Ok(name) && name@ == f.name
    &&& values[from + 2].texts matches Ok(names) && views(names@) == f.kwonly
    &&& match f.kwonly_defaults {
        None => values[from + 3].is_none,
        Some(names) => !values[from + 3].is_none && (values[from + 3].items matches Ok(items)
            && views(items@) == names),
    }
    &&& values[from + 4].texts matches Ok(names) && views(names@) == f.params
    &&& values[from + 5].is_truthy == Ok::<bool, PyObject>(f.takes_context)
    &&& values[from + 6].is_none == !f.varargs
    &&& values[from + 7].is_none == !f.varkw
}

/// What a tag is called with besides its arguments comes first among the parameters; the rest is
/// called as it is declared.
pub open spec fn calls(context: SimpleTagContextView, f: Function, handed: Seq<Seq<char>>) -> bool {
    &&& context.func == f.func
    &&& context.function_name == f.name
    &&& context.takes_context == f.takes_context
    &&& handed + context.params == f.params
    &&& context.defaults_count == (match f.defaults {
        None => 0,
        Some(count) => count as int,
    })
    &&& context.varargs == f.varargs
    &&& context.kwonly == f.kwonly
    &&& forall|name: Seq<char>| #[trigger]
        context.kwonly_defaults.contains(name) <==> (f.kwonly_defaults matches Some(names)
            && names.contains(name))
    &&& context.varkw == f.varkw
}

/// A tag made from a function calls this function: it fills the parameters as they are declared,
/// after the first one where this is the context. Only a function that takes the context without
/// saying so is refused.
pub proof fn law_simple_tags_call_their_functions(
    at: At,
    name: Seq<char>,
    source: TagSource,
    names: Vec<String>,
    values: Vec<ClosureValue>,
    f: Function,
)
    requires
        source.closure == Ok::<_, PyObject>(
            Some(Closure { names: Ok(names), values: Ok(values) }),
        ),
        !views(names@).contains("filename"@),
        !views(names@).contains("end_name"@),
        declares(values@, 1, f),
    ensures
        match tag_context(at, name, source) {
            Ok(TagContextView::Simple(context)) => if f.takes_context {
                calls(context, f, seq!["context"@])
            } else {
                calls(context, f, Seq::empty())
            },
            Err(PyParseError::ParseError(ParseError::RequiresContext { name, at: place })) => {
                &&& f.takes_context
                &&& f.params.len() == 0 || f.params[0] != "context"@
                &&& name == f.name
                &&& place == at
            },
            _ => false,
        },
{
    if let Ok(TagContextView::Simple(context)) = tag_context(at, name, source) {
        if f.takes_context {
            assert(seq!["context"@] + context.params =~= f.params);
        } else {
            assert(Seq::<Seq<char>>::empty() + context.params =~= f.params);
        }
        assert forall|name: Seq<char>| #[trigger]
            context.kwonly_defaults.contains(name) <==> (f.kwonly_defaults matches Some(names)
                && names.contains(name)) by {
            if f.kwonly_defaults is None {
                assert(context.kwonly_defaults =~= Seq::empty());
            }
        }
    }
}

/// A tag around a block made from a function calls this function, which is handed the content of
/// the block, after the context where it takes it; it ends at the tag that its function names.
/// Only a function that does not declare these parameters is refused.
pub proof fn law_block_tags_call_their_functions(
    at: At,
    name: Seq<char>,
    source: TagSource,
    names: Vec<String>,
    values: Vec<ClosureValue>,
    end: Seq<char>,
    f: Function,
)
    requires
        source.closure == Ok::<_, PyObject>(
            Some(Closure { names: Ok(names), values: Ok(values) }),
        ),
        !views(names@).contains("filename"@),
        views(names@).contains("end_name"@),
        declares(values@, 2, f),
        values@[1].text matches Ok(text) && text@ == end,
    ensures
        match tag_context(at, name, source) {
            Ok(TagContextView::SimpleBlock { end_tag_name, context }) => {
                &&& end_tag_name == end
                &&& if f.takes_context {
                    calls(context, f, seq!["context"@, "content"@])
                } else {
                    calls(context, f, seq!["content"@])
                }
            },
            Err(PyParseError::ParseError(ParseError::RequiresContent { name, at: place })) => {
                &&& !f.takes_context
                &&& f.params.len() == 0 || f.params[0] != "content"@
                &&& name == f.name
                &&& place == at
            },
            Err(
                PyParseError::ParseError(
                    ParseError::RequiresContextAndContent { name, at: place },
                ),
            ) => {
                &&& f.takes_context
                &&& f.params.len() < 2 || f.params[0] != "context"@ || f.params[1] != "content"@
                &&& name == f.name
                &&& place == at
            },
            _ => false,
        },
{
    if let Ok(TagContextView::SimpleBlock { end_tag_name, context }) = tag_context(
        at,
        name,
        source,
    ) {
        if f.takes_context {
            assert(seq!["context"@, "content"@] + context.params =~= f.params);
        } else {
            assert(seq!["content"@] + context.params =~= f.params);
        }
        assert forall|name: Seq<char>| #[trigger]
            context.kwonly_defaults.contains(name) <==> (f.kwonly_defaults matches Some(names)
                && names.contains(name)) by {
            if f.kwonly_defaults is None {
                assert(context.kwonly_defaults =~= Seq::empty());
            }
        }
    }
}

/// A tag that is loaded is there from then on, with the tag that ends it if it goes around a
/// block; the tags of other names stay what they were.
pub proof fn law_loaded_tags_are_there(
    tags: Map<Seq<char>, TagContextView>,
    name: Seq<char>,
    context: TagContextView,
    other: Seq<char>,
)
    ensures
        with_tag(tags, name, context).contains_key(name),
        with_tag(tags, name, context)[name] == context,
        context matches TagContextView::SimpleBlock { end_tag_name, .. } ==> (end_tag_name != name
            ==> with_tag(tags, name, context).contains_key(end_tag_name) && with_tag(
            tags,
            name,
            context,
        )[end_tag_name] == TagContextView::EndSimpleBlock),
        other != name && !(context matches TagContextView::SimpleBlock { end_tag_name, .. }
            && end_tag_name == other) ==> {
            &&& with_tag(tags, name, context).contains_key(other) == tags.contains_key(other)
            &&& with_tag(tags, name, context)[other] == tags[other]
        },
{
}

/// A location is that of an argument, from its keyword on if it has one.
pub open spec fn is_whole(place: At, token: TagElementKwargToken) -> bool {
    match token.kwarg {
        None => place == token.at,
        Some(name_at) => place.0 == name_at.0 && (name_at.1 + 1 + token.at.1 <= usize::MAX
            ==> place.1 == name_at.1 + 1 + token.at.1),
    }
}

/// One of some arguments is at fault: it stands after one with a keyword and has none, is one too
/// many, has a keyword that is not known or that came before, or is not an element.
pub open spec fn at_fault(
    scope: Scope,
    context: SimpleTagContextView,
    tokens: Seq<TagElementKwargToken>,
    i: int,
    error: ParseError<Seq<char>>,
) -> bool {
    let token = tokens[i];
    match error {
        ParseError::PositionalAfterKeyword { at, after } => {
            &&& token.kwarg is None
            &&& at == token.at
            &&& i > 0 && tokens[i - 1].kwarg is Some && is_whole(after, tokens[i - 1])
        },
        ParseError::TooManyPositionalArguments { at } => {
            &&& token.kwarg is None
            &&& at == token.at
            &&& !context.varargs
            &&& i == context.params.len()
        },
        ParseError::UnexpectedKeywordArgument { at } => {
            &&& token.kwarg is Some
            &&& is_whole(at, token)
            &&& !context.varkw
            &&& !context.params.contains(keyword(scope, token))
            &&& !context.kwonly.contains(keyword(scope, token))
        },
        ParseError::DuplicateKeywordArgument { tag_name, kwarg_name, first_at, second_at } => {
            &&& token.kwarg is Some
            &&& tag_name == context.function_name
            &&& kwarg_name == keyword(scope, token)
            &&& is_whole(second_at, token)
            &&& exists|j: int|
                {
                    &&& 0 <= j < i
                    &&& (#[trigger] tokens[j]).kwarg is Some
                    &&& keyword(scope, tokens[j]) == kwarg_name
                    &&& is_whole(first_at, tokens[j])
                }
        },
        _ => element_of(scope, token.at, token.token_type) == Err::<TagElement<int>, _>(error),
    }
}

/// What has been taken of arguments is known by them.
spec fn is_taken_from(
    scope: Scope,
    parts: CustomParts,
    before: Seq<TagElementKwargToken>,
) -> bool {
    &&& parts.kwargs.len() > 0 ==> before.len() > 0 && before.last().kwarg is Some
    &&& before.len() > 0 ==> is_whole(parts.prev_at, before.last())
    &&& forall|name: Seq<char>| #[trigger]
        parts.seen.contains_key(name) ==> exists|j: int|
            {
                &&& 0 <= j < before.len()
                &&& (#[trigger] before[j]).kwarg is Some
                &&& keyword(scope, before[j]) == name
                &&& is_whole(parts.seen[name], before[j])
            }
}

/// Errors that an argument itself may have.
pub open spec fn is_argument_error(error: ParseError<Seq<char>>) -> bool {
    error is PositionalAfterKeyword || error is TooManyPositionalArguments || error
        is UnexpectedKeywordArgument || error is DuplicateKeywordArgument
}

proof fn lemma_one_is_at_fault(
    scope: Scope,
    context: SimpleTagContextView,
    parts: CustomParts,
    before: Seq<TagElementKwargToken>,
    tokens: Seq<TagElementKwargToken>,
)
    requires
        is_taken_from(scope, parts, before),
        forall|i: int|
            0 <= i < tokens.len() ==> (element_of(
                scope,
                (#[trigger] tokens[i]).at,
                tokens[i].token_type,
            ) matches Err(e) ==> !is_argument_error(e)),
    ensures
        take_arguments(scope, context, parts, before.len() as int, tokens) matches Err(e)
            ==> exists|i: int|
            before.len() <= i < before.len() + tokens.len() && #[trigger] at_fault(
                scope,
                context,
                before + tokens,
                i,
                e,
            ),
    decreases tokens.len(),
{
    if tokens.len() > 0 {
        let token = tokens[0];
        let rest = tokens.drop_first();
        let all = before + tokens;
        let n = before.len() as int;
        assert(all[n] == token);
        assert(forall|j: int| 0 <= j < n ==> #[trigger] all[j] == before[j]);
        assert(element_of(scope, tokens[0].at, tokens[0].token_type) matches Err(e)
            ==> !is_argument_error(e));
        match take_argument(scope, context, parts, n, token) {
            Err(e) => {
                if token.kwarg is Some && parts.seen.contains_key(keyword(scope, token)) {
                    let j = choose|j: int|
                        {
                            &&& 0 <= j < before.len()
                            &&& (#[trigger] before[j]).kwarg is Some
                            &&& keyword(scope, before[j]) == keyword(scope, token)
                            &&& is_whole(parts.seen[keyword(scope, token)], before[j])
                        };
                    assert(all[j] == before[j]);
                }
                if n > 0 {
                    assert(all[n - 1] == before.last());
                }
                assert(at_fault(scope, context, all, n, e));
            },
            Ok(next) => {
                let taken = before.push(token);
                assert(taken + rest =~= all);
                assert forall|name: Seq<char>| #[trigger]
                    next.seen.contains_key(name) implies exists|j: int|
                    {
                        &&& 0 <= j < taken.len()
                        &&& (#[trigger] taken[j]).kwarg is Some
                        &&& keyword(scope, taken[j]) == name
                        &&& is_whole(next.seen[name], taken[j])
                    } by {
                    if token.kwarg is Some && keyword(scope, token) == name {
                        assert(taken[n] == token);
                    } else {
                        assert(parts.seen.contains_key(name));
                        let j = choose|j: int|
                            {
                                &&& 0 <= j < before.len()
                                &&& (#[trigger] before[j]).kwarg is Some
                                &&& keyword(scope, before[j]) == name
                                &&& is_whole(parts.seen[name], before[j])
                            };
                        assert(taken[j] == before[j]);
                    }
                }
                assert forall|i: int| 0 <= i < rest.len() implies (element_of(
                    scope,
                    (#[trigger] rest[i]).at,
                    rest[i].token_type,
                ) matches Err(e) ==> !is_argument_error(e)) by {
                    assert(rest[i] == tokens[i + 1]);
                }
                lemma_one_is_at_fault(scope, context, next, taken, rest);
            },
        }
    }
}

/// Arguments that are refused are so for one of them, which is named with its place, or because
/// some are missing.
pub proof fn law_refused_arguments_are_at_fault(
    scope: Scope,
    context: SimpleTagContextView,
    parts_at: At,
    tokens: Seq<TagElementKwargToken>,
)
    requires
        forall|i: int|
            0 <= i < tokens.len() ==> span(scope.template, (#[trigger] tokens[i]).at) != "as"@,
        forall|i: int|
            0 <= i < tokens.len() ==> (element_of(
                scope,
                (#[trigger] tokens[i]).at,
                tokens[i].token_type,
            ) matches Err(e) ==> !is_argument_error(e) && !(e is MissingArguments)),
    ensures
        custom_tag_parts(
            scope,
            tokens.map_values(|token: TagElementKwargToken| Ok::<_, LexerFault>(token)),
            parts_at,
            context,
        ) matches Err(e) ==> match e {
            ParseError::MissingArguments { tag_name, at, .. } => tag_name == context.function_name
                && at == parts_at,
            _ => exists|i: int|
                0 <= i < tokens.len() && #[trigger] at_fault(scope, context, tokens, i, e),
        },
{
    lemma_all_readable(tokens);
    lemma_no_as(scope.template, tokens);
    assert(tokens.take(tokens.len() as int) =~= tokens);
    let start = CustomParts {
        args: Seq::empty(),
        kwargs: Seq::empty(),
        seen: Map::empty(),
        prev_at: parts_at,
    };
    lemma_one_is_at_fault(scope, context, start, Seq::empty(), tokens);
    assert(Seq::<TagElementKwargToken>::empty() + tokens =~= tokens);
}

/// The names that are told to be missing are those that were neither given nor have a default, in
/// quotes and in order.
pub proof fn law_missing_names_are_those_not_given(
    names: Seq<Seq<char>>,
    seen: Map<Seq<char>, At>,
    defaults: Seq<Seq<char>>,
    name: Seq<char>,
)
    ensures
        missing_names(names.push(name), seen, defaults) == (if seen.contains_key(name)
            || defaults.contains(name) {
            missing_names(names, seen, defaults)
        } else {
            missing_names(names, seen, defaults).push("'"@ + name + "'"@)
        }),
        missing_names(Seq::empty(), seen, defaults).len() == 0,
{
    assert(names.push(name).drop_last() =~= names);
}

} // verus!
