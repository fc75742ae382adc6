//! What the tags that stand on their own keep of what is written in them.
use vstd::prelude::*;
use crate::lexer::tokens::{
    lorem_wf, ForArguments, ForVariableNameToken, IncludeArguments, IncludeTemplateToken,
    IncludeTemplateTokenType, IncludeToken, IncludeWithToken, LexerError, LexerFault, LoremMethod,
    LoremToken, NowArguments, TagElementKwargToken, TagElementToken,
};
use crate::parse::arguments::{as_variable, first_fault, readable};
use crate::parse::calls::{
    all_are_elements, elements_of, keyword, law_as_variables, lemma_no_as, named_elements_of,
};
use crate::parse::elements::{element_of, variable_of};
use crate::parse::errors::{ForParseError, ParseError};
use crate::parse::grammar::{cycle_at, cycle_values, first_element_error};
use crate::parse::laws::{cycle_name, simple_cycle};
use crate::parse::parser::{scope_of, Env, Scope, State};
use crate::parse::tags::{
    binds_variable, first_name_fault, firstof_of, for_loop_of, include_kwargs, include_of,
    lorem_of, now_of, sorted_arguments, url_of,
};
use crate::parse::tree::{IncludeTemplateName, TagElement};
use crate::text::{span, At};
use crate::types::PyObject;

verus! {

/// The word `with` follows the name of a template, after `only` or without it.
pub open spec fn says_with(arguments: IncludeArguments) -> bool {
    match arguments.first {
        Ok(IncludeWithToken::With(_)) => true,
        Ok(IncludeWithToken::Only(_)) => arguments.second matches Ok(IncludeWithToken::With(_)),
        _ => false,
    }
}

/// A token is the word `only`.
pub open spec fn is_only(token: Result<IncludeToken, LexerFault>) -> bool {
    token matches Ok(IncludeToken::Only(_))
}

/// The word `only` stands among what follows the name of a template.
pub open spec fn says_only(arguments: IncludeArguments) -> bool {
    ||| arguments.first matches Ok(IncludeWithToken::Only(_))
    ||| says_with(arguments) && exists|i: int|
        0 <= i < arguments.rest@.len() && is_only(#[trigger] arguments.rest@[i])
}

/// The word `only` stands once among tokens, or not at all.
pub open spec fn only_once(tokens: Seq<Result<IncludeToken, LexerFault>>) -> bool {
    forall|i: int, j: int|
        0 <= i < j < tokens.len() ==> !(is_only(#[trigger] tokens[i]) && is_only(
            #[trigger] tokens[j],
        ))
}

/// Each token could be read, and each element with a keyword is one.
pub open spec fn all_assign(scope: Scope, tokens: Seq<Result<IncludeToken, LexerFault>>) -> bool {
    forall|i: int|
        0 <= i < tokens.len() ==> match #[trigger] tokens[i] {
            Err(_) => false,
            Ok(IncludeToken::Only(_)) => true,
            Ok(IncludeToken::Kwarg { token, .. }) => element_of(scope, token.at, token.token_type)
                is Ok,
        }
}

/// The elements with keywords among tokens, in their order.
pub open spec fn assigned(scope: Scope, tokens: Seq<Result<IncludeToken, LexerFault>>) -> Seq<
    (At, TagElement<int>),
>
    decreases tokens.len(),
{
    if tokens.len() == 0 {
        Seq::empty()
    } else {
        (match tokens[0] {
            Ok(IncludeToken::Kwarg { kwarg_at, token }) => seq![
                (kwarg_at, element_of(scope, token.at, token.token_type)->Ok_0),
            ],
            _ => Seq::empty(),
        }) + assigned(scope, tokens.drop_first())
    }
}

proof fn lemma_kwargs_are_assigned(
    scope: Scope,
    tokens: Seq<Result<IncludeToken, LexerFault>>,
    only: Option<At>,
    kwargs: Seq<(At, TagElement<int>)>,
)
    ensures
        match include_kwargs(scope, tokens, only, kwargs) {
            Ok((after, all)) => {
                &&& all_assign(scope, tokens)
                &&& only_once(tokens)
                &&& only is Some ==> after == only && forall|i: int|
                    0 <= i < tokens.len() ==> !is_only(#[trigger] tokens[i])
                &&& after is Some <==> only is Some || exists|i: int|
                    0 <= i < tokens.len() && is_only(#[trigger] tokens[i])
                &&& all == kwargs + assigned(scope, tokens)
            },
            Err(_) => !(all_assign(scope, tokens) && only_once(tokens) && (only is Some
                ==> forall|i: int| 0 <= i < tokens.len() ==> !is_only(#[trigger] tokens[i]))),
        },
    decreases tokens.len(),
{
    if tokens.len() == 0 {
        assert(kwargs + assigned(scope, tokens) =~= kwargs);
    } else {
        let rest = tokens.drop_first();
        let (next_only, next_kwargs) = match tokens[0] {
            Ok(IncludeToken::Only(at)) => (Some(at), kwargs),
            Ok(IncludeToken::Kwarg { kwarg_at, token }) => (
                only,
                kwargs.push((kwarg_at, element_of(scope, token.at, token.token_type)->Ok_0)),
            ),
            Err(_) => (only, kwargs),
        };
        lemma_kwargs_are_assigned(scope, rest, next_only, next_kwargs);
        assert(forall|i: int| 0 <= i < rest.len() ==> #[trigger] rest[i] == tokens[i + 1]);
        assert(forall|i: int| 1 <= i < tokens.len() ==> #[trigger] tokens[i] == rest[i - 1]);
        assert(next_kwargs + assigned(scope, rest) =~= kwargs + assigned(scope, tokens));
        if all_assign(scope, rest) && tokens[0] is Ok && (tokens[0] matches Ok(
            IncludeToken::Kwarg { token, .. },
        ) ==> element_of(scope, token.at, token.token_type) is Ok) {
            assert(all_assign(scope, tokens));
        }
    }
}

/// The template that replaces a tag sees nothing but what is handed to it just if the word `only`
/// stands in the tag; it is handed what follows the word `with`, in order.
pub proof fn law_inclusions_keep_what_is_written(
    scope: Scope,
    engine: PyObject,
    origin: Option<Seq<char>>,
    at: At,
    arguments: IncludeArguments,
)
    ensures
        include_of(scope, engine, origin, at, arguments) matches Ok(tag) ==> {
            &&& tag.only == says_only(arguments)
            &&& tag.kwargs == (if says_with(arguments) {
                assigned(scope, arguments.rest@)
            } else {
                Seq::empty()
            })
            &&& tag.engine == engine
            &&& tag.origin == origin
            &&& arguments.template matches Ok(Some(token)) && match token.token_type {
                IncludeTemplateTokenType::Text => arguments.relative_path matches Ok(path)
                    && match path {
                    Some(path) => tag.template_name matches IncludeTemplateName::Relative(name)
                        && name.path == path@ && name.at == token.content_location(),
                    None => tag.template_name matches IncludeTemplateName::Text(name) && name.at
                        == token.content_location(),
                },
                IncludeTemplateTokenType::Variable(variable) => tag.template_name matches
                    IncludeTemplateName::Variable(element) && variable_of(
                    scope,
                    variable,
                    token.at,
                ) == Ok::<_, ParseError<Seq<char>>>(element),
            }
        },
{
    let rest = arguments.rest@;
    let only = match arguments.first {
        Ok(IncludeWithToken::Only(at)) => Some(at),
        _ => None,
    };
    lemma_kwargs_are_assigned(scope, rest, only, Seq::empty());
    assert(Seq::empty() + assigned(scope, rest) =~= assigned(scope, rest));
}

/// A tag that names a template is accepted just if its words can be read, `only` does not come
/// twice and something follows `with`.
pub proof fn law_inclusions_are_accepted(
    scope: Scope,
    engine: PyObject,
    origin: Option<Seq<char>>,
    at: At,
    arguments: IncludeArguments,
    token: IncludeTemplateToken,
)
    requires
        arguments.template matches Ok(Some(named)) && named == token,
        match token.token_type {
            IncludeTemplateTokenType::Text => arguments.relative_path is Ok,
            IncludeTemplateTokenType::Variable(variable) => variable_of(scope, variable, token.at)
                is Ok,
        },
    ensures
        include_of(scope, engine, origin, at, arguments) is Ok <==> {
            &&& arguments.first is Ok
            &&& arguments.first matches Ok(IncludeWithToken::Only(_)) ==> match arguments.second {
                Ok(IncludeWithToken::Only(_)) => false,
                Ok(_) => true,
                Err(_) => false,
            }
            &&& says_with(arguments) ==> {
                &&& all_assign(scope, arguments.rest@)
                &&& only_once(arguments.rest@)
                &&& arguments.first matches Ok(IncludeWithToken::Only(_)) ==> forall|i: int|
                    0 <= i < arguments.rest@.len() ==> !is_only(#[trigger] arguments.rest@[i])
                &&& assigned(scope, arguments.rest@).len() > 0
            }
        },
{
    let rest = arguments.rest@;
    let only = match arguments.first {
        Ok(IncludeWithToken::Only(at)) => Some(at),
        _ => None,
    };
    lemma_kwargs_are_assigned(scope, rest, only, Seq::empty());
    assert(Seq::empty() + assigned(scope, rest) =~= assigned(scope, rest));
}

/// The tokens without a keyword, in their order.
pub open spec fn unnamed(tokens: Seq<TagElementKwargToken>) -> Seq<TagElementKwargToken>
    decreases tokens.len(),
{
    if tokens.len() == 0 {
        Seq::empty()
    } else if tokens[0].kwarg is None {
        seq![tokens[0]] + unnamed(tokens.drop_first())
    } else {
        unnamed(tokens.drop_first())
    }
}

/// The tokens with a keyword, in their order.
pub open spec fn named(tokens: Seq<TagElementKwargToken>) -> Seq<TagElementKwargToken>
    decreases tokens.len(),
{
    if tokens.len() == 0 {
        Seq::empty()
    } else if tokens[0].kwarg is Some {
        seq![tokens[0]] + named(tokens.drop_first())
    } else {
        named(tokens.drop_first())
    }
}

proof fn lemma_arguments_are_sorted(
    scope: Scope,
    tokens: Seq<TagElementKwargToken>,
    args: Seq<TagElement<int>>,
    kwargs: Seq<(Seq<char>, TagElement<int>)>,
)
    ensures
        match sorted_arguments(scope, tokens, args, kwargs) {
            Ok((all, all_named)) => {
                &&& all_are_elements(scope, tokens)
                &&& all == args + elements_of(scope, unnamed(tokens))
                &&& all_named == kwargs + named_elements_of(scope, named(tokens))
            },
            Err(_) => !all_are_elements(scope, tokens),
        },
    decreases tokens.len(),
{
    if tokens.len() == 0 {
        assert(args + elements_of(scope, unnamed(tokens)) =~= args);
        assert(kwargs + named_elements_of(scope, named(tokens)) =~= kwargs);
    } else {
        let rest = tokens.drop_first();
        let element = element_of(scope, tokens[0].at, tokens[0].token_type);
        assert(forall|i: int| 0 <= i < rest.len() ==> #[trigger] rest[i] == tokens[i + 1]);
        if element is Ok {
            if tokens[0].kwarg is None {
                let next = args.push(element->Ok_0);
                lemma_arguments_are_sorted(scope, rest, next, kwargs);
                assert(next + elements_of(scope, unnamed(rest)) =~= args + elements_of(
                    scope,
                    unnamed(tokens),
                ));
            } else {
                let next = kwargs.push((keyword(scope, tokens[0]), element->Ok_0));
                lemma_arguments_are_sorted(scope, rest, args, next);
                assert(next + named_elements_of(scope, named(rest)) =~= kwargs + named_elements_of(
                    scope,
                    named(tokens),
                ));
            }
            if all_are_elements(scope, rest) {
                assert forall|i: int| 0 <= i < tokens.len() implies element_of(
                    scope,
                    (#[trigger] tokens[i]).at,
                    tokens[i].token_type,
                ) is Ok by {
                    if i > 0 {
                        assert(rest[i - 1] == tokens[i]);
                    }
                }
            } else {
                let i = choose|i: int|
                    0 <= i < rest.len() && !(element_of(
                        scope,
                        (#[trigger] rest[i]).at,
                        rest[i].token_type,
                    ) is Ok);
                assert(tokens[i + 1] == rest[i]);
            }
        }
    }
}

/// The variable after `as` is what tokens that end with it bind.
proof fn lemma_tokens_bind(template: Seq<char>, tokens: Seq<TagElementKwargToken>)
    ensures
        match as_variable(template, tokens) {
            Ok((Some(variable), count)) => {
                &&& binds_variable(template, tokens)
                &&& variable == span(template, tokens.last().at)
                &&& count == tokens.len() - 2
            },
            Ok((None, count)) => !binds_variable(template, tokens) && count == tokens.len(),
            Err(_) => !binds_variable(template, tokens),
        },
{
    let n = tokens.len() as int;
    if binds_variable(template, tokens) {
        law_as_variables(template, tokens.take(n - 2), tokens[n - 2], tokens[n - 1]);
        assert(tokens.take(n - 2).push(tokens[n - 2]).push(tokens[n - 1]) =~= tokens);
    } else if n > 0 {
        // Any word does for the one that is looked for.
        if exists|i: int| 0 <= i < n && span(template, (#[trigger] tokens[i]).at) == "as"@ {
            let i = choose|i: int|
                0 <= i < n && span(template, (#[trigger] tokens[i]).at) == "as"@;
            law_as_variables(template, tokens, tokens[i], tokens[i]);
        } else {
            lemma_no_as(template, tokens);
        }
    }
}

proof fn lemma_faults(tokens: Seq<Result<TagElementKwargToken, LexerFault>>)
    ensures
        match first_fault(tokens) {
            None => forall|i: int| 0 <= i < tokens.len() ==> (#[trigger] tokens[i]) is Ok,
            Some(e) => exists|i: int|
                0 <= i < tokens.len() && #[trigger] tokens[i] == Err::<TagElementKwargToken, _>(e),
        },
    decreases tokens.len(),
{
    if tokens.len() > 0 {
        let rest = tokens.drop_first();
        lemma_faults(rest);
        assert(forall|i: int| 0 <= i < rest.len() ==> #[trigger] rest[i] == tokens[i + 1]);
        match first_fault(rest) {
            None => {
                assert forall|i: int| 0 <= i < tokens.len() && tokens[0] is Ok implies (
                #[trigger] tokens[i]) is Ok by {
                    if i > 0 {
                        assert(rest[i - 1] is Ok);
                    }
                }
            },
            Some(e) => {
                let i = choose|i: int|
                    0 <= i < rest.len() && #[trigger] rest[i] == Err::<TagElementKwargToken, _>(e);
                assert(tokens[i + 1] == rest[i]);
            },
        }
    }
}

/// The URL of a tag is the one of its first argument, with the others as they are written: those
/// without a keyword and those with one, each in order, and not some of both. What is stored goes
/// to the variable after `as`.
pub proof fn law_urls_keep_what_is_written(
    scope: Scope,
    at: At,
    first: TagElementKwargToken,
    rest: Seq<TagElementKwargToken>,
)
    ensures
        ({
            let tokens = (seq![first] + rest).map_values(
                |token: TagElementKwargToken| Ok::<_, LexerFault>(token),
            );
            let binds = binds_variable(scope.template, rest);
            let arguments = if binds {
                rest.take(rest.len() - 2)
            } else {
                rest
            };
            match url_of(scope, at, tokens) {
                Ok(url) => {
                    &&& url.at == at
                    &&& element_of(scope, first.at, first.token_type) == Ok::<
                        _,
                        ParseError<Seq<char>>,
                    >(url.view_name)
                    &&& all_are_elements(scope, arguments)
                    &&& url.args == elements_of(scope, unnamed(arguments))
                    &&& url.kwargs == named_elements_of(scope, named(arguments))
                    &&& url.args.len() == 0 || url.kwargs.len() == 0
                    &&& url.asvar == (if binds {
                        Some(span(scope.template, rest.last().at))
                    } else {
                        None
                    })
                },
                Err(_) => {
                    ||| element_of(scope, first.at, first.token_type) is Err
                    ||| !all_are_elements(scope, arguments)
                    ||| unnamed(arguments).len() > 0 && named(arguments).len() > 0
                },
            }
        }),
{
    let all = seq![first] + rest;
    let tokens = all.map_values(|token: TagElementKwargToken| Ok::<_, LexerFault>(token));
    let left = tokens.skip(1);
    lemma_faults(left);
    assert(readable(left) =~= rest);
    lemma_tokens_bind(scope.template, rest);
    assert(rest.take(rest.len() as int) =~= rest);
    let arguments = if binds_variable(scope.template, rest) {
        rest.take(rest.len() - 2)
    } else {
        rest
    };
    lemma_arguments_are_sorted(scope, arguments, Seq::empty(), Seq::empty());
    assert(Seq::empty() + elements_of(scope, unnamed(arguments)) =~= elements_of(
        scope,
        unnamed(arguments),
    ));
    assert(Seq::empty() + named_elements_of(scope, named(arguments)) =~= named_elements_of(
        scope,
        named(arguments),
    ));
    assert(tokens[0] == Ok::<_, LexerFault>(first));
}

proof fn lemma_elements_are_taken(
    scope: Scope,
    tokens: Seq<TagElementKwargToken>,
    before: Seq<TagElement<int>>,
)
    ensures
        match crate::parse::tags::elements_of(scope, tokens, before) {
            Ok(all) => all_are_elements(scope, tokens) && all == before + elements_of(
                scope,
                tokens,
            ),
            Err(_) => !all_are_elements(scope, tokens),
        },
    decreases tokens.len(),
{
    if tokens.len() == 0 {
        assert(before + elements_of(scope, tokens) =~= before);
    } else {
        let rest = tokens.drop_first();
        let element = element_of(scope, tokens[0].at, tokens[0].token_type);
        assert(forall|i: int| 0 <= i < rest.len() ==> #[trigger] rest[i] == tokens[i + 1]);
        if element is Ok {
            let next = before.push(element->Ok_0);
            lemma_elements_are_taken(scope, rest, next);
            assert(next + elements_of(scope, rest) =~= before + elements_of(scope, tokens));
            if all_are_elements(scope, rest) {
                assert forall|i: int| 0 <= i < tokens.len() implies element_of(
                    scope,
                    (#[trigger] tokens[i]).at,
                    tokens[i].token_type,
                ) is Ok by {
                    if i > 0 {
                        assert(rest[i - 1] == tokens[i]);
                    }
                }
            } else {
                let i = choose|i: int|
                    0 <= i < rest.len() && !(element_of(
                        scope,
                        (#[trigger] rest[i]).at,
                        rest[i].token_type,
                    ) is Ok);
                assert(tokens[i + 1] == rest[i]);
            }
        }
    }
}

/// The values of which the first one that is true is taken are those that are written, in order,
/// up to `as` and the variable that it is stored in.
pub proof fn law_first_of_keeps_what_is_written(
    scope: Scope,
    parts_at: At,
    written: Seq<TagElementKwargToken>,
)
    ensures
        ({
            let tokens = written.map_values(
                |token: TagElementKwargToken| Ok::<_, LexerFault>(token),
            );
            let binds = binds_variable(scope.template, written);
            let values = if binds {
                written.take(written.len() - 2)
            } else {
                written
            };
            match firstof_of(scope, parts_at, tokens) {
                Ok(tag) => {
                    &&& written.len() > 0
                    &&& all_are_elements(scope, values)
                    &&& tag.vars == elements_of(scope, values)
                    &&& tag.asvar == (if binds {
                        Some(span(scope.template, written.last().at))
                    } else {
                        None
                    })
                },
                Err(ParseError::MissingArgument { at }) => {
                    ||| written.len() == 0 && at == parts_at
                    ||| !all_are_elements(scope, values)
                },
                Err(_) => !all_are_elements(scope, values),
            }
        }),
{
    let tokens = written.map_values(|token: TagElementKwargToken| Ok::<_, LexerFault>(token));
    lemma_faults(tokens);
    assert(readable(tokens) =~= written);
    lemma_tokens_bind(scope.template, written);
    assert(written.take(written.len() as int) =~= written);
    let values = if binds_variable(scope.template, written) {
        written.take(written.len() - 2)
    } else {
        written
    };
    lemma_elements_are_taken(scope, values, Seq::empty());
    assert(Seq::empty() + elements_of(scope, values) =~= elements_of(scope, values));
}

/// Placeholder text is of the kind that is written, or of blocks where none is; it is taken at
/// random just if the last word is `random`; and there is as much of it as the count before these
/// words says, or one.
pub proof fn law_placeholders_keep_what_is_written(
    scope: Scope,
    tokens: Seq<Result<LoremToken, LexerFault>>,
    template: Seq<char>,
)
    requires
        lorem_wf(tokens, template),
    ensures
        lorem_of(scope, tokens) matches Ok(tag) ==> {
            let n = tokens.len();
            &&& forall|i: int| 0 <= i < n ==> (#[trigger] tokens[i]) is Ok
            &&& n <= 3
            &&& tag.common <==> n == 0 || !(tokens.last()->Ok_0.token_type is Random)
            &&& tag.method == (if n == 1 && tokens[0]->Ok_0.token_type is Method {
                tokens[0]->Ok_0.token_type->Method_0
            } else if n >= 2 && tokens[1]->Ok_0.token_type is Method {
                tokens[1]->Ok_0.token_type->Method_0
            } else {
                LoremMethod::Blocks
            })
            &&& n >= 2 ==> variable_of(
                scope,
                tokens[0]->Ok_0.variable,
                tokens[0]->Ok_0.at,
            ) == Ok::<_, ParseError<Seq<char>>>(tag.count)
            &&& n == 1 && tokens[0]->Ok_0.token_type is Count ==> element_of(
                scope,
                tokens[0]->Ok_0.token_type->Count_0.at,
                tokens[0]->Ok_0.token_type->Count_0.token_type,
            ) == Ok::<_, ParseError<Seq<char>>>(tag.count)
            &&& n == 0 || (n == 1 && !(tokens[0]->Ok_0.token_type is Count)) ==> tag.count
                == TagElement::Int(1int)
        },
        lorem_of(scope, tokens) is Err ==> {
            ||| exists|i: int| 0 <= i < tokens.len() && (#[trigger] tokens[i]) is Err
            ||| tokens.len() >= 2 && variable_of(
                scope,
                tokens[0]->Ok_0.variable,
                tokens[0]->Ok_0.at,
            ) is Err
            ||| tokens.len() == 1 && tokens[0]->Ok_0.token_type is Count && element_of(
                scope,
                tokens[0]->Ok_0.token_type->Count_0.at,
                tokens[0]->Ok_0.token_type->Count_0.token_type,
            ) is Err
        },
{
    if tokens.len() > 0 {
        assert(tokens[0] == tokens[0]);
    }
    if tokens.len() > 1 {
        assert(tokens[1] is Ok || tokens[1] is Err);
    }
    if tokens.len() > 2 {
        assert(tokens[2] is Ok || tokens[2] is Err);
    }
    if tokens.len() > 3 {
        assert(tokens[3] is Ok || tokens[3] is Err);
    }
}

/// A date is written in the format that stands between two characters, and stored in the variable
/// that is named; only words that could not be read are refused.
pub proof fn law_dates_keep_their_format(
    template: Seq<char>,
    arguments: NowArguments,
    open: char,
    format: Seq<char>,
    close: char,
)
    requires
        arguments.format matches Ok(at) ==> span(template, at) == seq![open] + format + seq![close],
    ensures
        now_of(template, arguments) is Ok <==> arguments.format is Ok && arguments.variable is Ok
            && arguments.extra is Ok,
        now_of(template, arguments) matches Ok(now) ==> {
            &&& now.format == format
            &&& arguments.variable == Ok::<_, LexerFault>(now.asvar)
        },
{
    let text = seq![open] + format + seq![close];
    assert(text.subrange(1, text.len() - 1) =~= format);
}

proof fn lemma_name_faults(names: Seq<Result<ForVariableNameToken, LexerFault>>)
    ensures
        match first_name_fault(names) {
            None => forall|i: int| 0 <= i < names.len() ==> (#[trigger] names[i]) is Ok,
            Some(e) => exists|i: int|
                0 <= i < names.len() && #[trigger] names[i] == Err::<ForVariableNameToken, _>(e),
        },
    decreases names.len(),
{
    if names.len() > 0 {
        let rest = names.drop_first();
        lemma_name_faults(rest);
        assert(forall|i: int| 0 <= i < rest.len() ==> #[trigger] rest[i] == names[i + 1]);
        match first_name_fault(rest) {
            None => {
                assert forall|i: int| 0 <= i < names.len() && names[0] is Ok implies (
                #[trigger] names[i]) is Ok by {
                    if i > 0 {
                        assert(rest[i - 1] is Ok);
                    }
                }
            },
            Some(e) => {
                let i = choose|i: int|
                    0 <= i < rest.len() && #[trigger] rest[i] == Err::<ForVariableNameToken, _>(e);
                assert(names[i + 1] == rest[i]);
            },
        }
    }
}

/// A for loop binds the names that are written, in order, goes through what stands after `in`, and
/// does so backwards just if it says so.
pub proof fn law_loops_keep_what_is_written(scope: Scope, arguments: ForArguments, at: At)
    ensures
        for_loop_of(scope, arguments, at) is Ok <==> {
            &&& arguments.variable_names@.len() > 0
            &&& forall|i: int|
                0 <= i < arguments.variable_names@.len() ==> (
                #[trigger] arguments.variable_names@[i]) is Ok
            &&& arguments.in_keyword is Ok
            &&& arguments.reversed is Ok
            &&& arguments.expression matches Ok(expression) && !(expression.token_type is Numeric)
                && element_of(scope, expression.at, expression.token_type) is Ok
        },
        for_loop_of(scope, arguments, at) matches Ok((iterable, names, reversed)) ==> {
            &&& arguments.reversed == Ok::<_, LexerFault>(reversed)
            &&& arguments.expression matches Ok(expression) && iterable.at == expression.at
                && element_of(scope, expression.at, expression.token_type) == Ok::<
                _,
                ParseError<Seq<char>>,
            >(iterable.iterable)
            &&& names.names.len() == arguments.variable_names@.len()
            &&& forall|i: int|
                0 <= i < names.names.len() ==> #[trigger] names.names[i] == span(
                    scope.template,
                    arguments.variable_names@[i]->Ok_0.at,
                )
            &&& names.at.0 == arguments.variable_names@[0]->Ok_0.at.0
            &&& ({
                let last = arguments.variable_names@.last()->Ok_0.at;
                names.at.0 <= last.0 && last.0 + last.1 <= usize::MAX ==> names.at.0 + names.at.1
                    == last.0 + last.1
            })
        },
{
    lemma_name_faults(arguments.variable_names@);
}

proof fn lemma_cycle_values_are_taken(
    scope: Scope,
    written: Seq<TagElementToken>,
    before: Seq<TagElement<int>>,
)
    requires
        forall|i: int|
            0 <= i < written.len() ==> element_of(
                scope,
                (#[trigger] written[i]).at,
                written[i].token_type,
            ) is Ok,
    ensures
        cycle_values(
            scope,
            written.map_values(|token: TagElementToken| Ok::<_, LexerError>(token)),
            before,
        ) matches Ok(values) && values.len() == before.len() + written.len() && (forall|i: int|
            0 <= i < before.len() ==> #[trigger] values[i] == before[i]) && (forall|i: int|
            0 <= i < written.len() ==> Ok::<_, ParseError<Seq<char>>>(values[before.len() + i])
                == element_of(scope, (#[trigger] written[i]).at, written[i].token_type)),
    decreases written.len(),
{
    if written.len() > 0 {
        let rest = written.drop_first();
        let all = written.map_values(|token: TagElementToken| Ok::<_, LexerError>(token));
        let others = rest.map_values(|token: TagElementToken| Ok::<_, LexerError>(token));
        assert(all.drop_first() =~= others);
        let element = element_of(scope, written[0].at, written[0].token_type)->Ok_0;
        let next = before.push(element);
        assert forall|i: int| 0 <= i < rest.len() implies element_of(
            scope,
            (#[trigger] rest[i]).at,
            rest[i].token_type,
        ) is Ok by {
            assert(rest[i] == written[i + 1]);
        }
        lemma_cycle_values_are_taken(scope, rest, next);
        let values = cycle_values(scope, others, next)->Ok_0;
        assert forall|i: int| 0 <= i < before.len() implies #[trigger] values[i] == before[i] by {
            assert(values[i] == next[i]);
        }
        assert forall|i: int| 0 <= i < written.len() implies Ok::<_, ParseError<Seq<char>>>(
            values[before.len() + i],
        ) == element_of(scope, (#[trigger] written[i]).at, written[i].token_type) by {
            if i > 0 {
                assert(written[i] == rest[i - 1]);
                assert(values[next.len() + (i - 1)] == values[before.len() + i]);
            } else {
                assert(values[before.len() as int] == next[before.len() as int]);
            }
        }
    }
}

proof fn lemma_no_element_error(written: Seq<TagElementToken>)
    ensures
        first_element_error(
            written.map_values(|token: TagElementToken| Ok::<_, LexerError>(token)),
        ) is None,
    decreases written.len(),
{
    if written.len() > 0 {
        lemma_no_element_error(written.drop_first());
        assert(written.map_values(|token: TagElementToken| Ok::<_, LexerError>(token)).drop_first()
            =~= written.drop_first().map_values(
            |token: TagElementToken| Ok::<_, LexerError>(token),
        ));
    }
}

/// How the end of a cycle names it: not at all, by `as` and a name, or by these and `silent`.
pub open spec fn names_cycle(
    template: Seq<char>,
    values: Seq<TagElementToken>,
    ending: Seq<TagElementToken>,
) -> bool {
    let written = values + ending;
    let n = written.len() as int;
    &&& values.len() >= 2
    &&& ending.len() == 0 ==> {
        &&& n >= 4 ==> span(template, written[n - 2].at) != "as"@
        &&& n >= 5 ==> span(template, written[n - 3].at) != "as"@
    }
    &&& ending.len() == 2 ==> {
        &&& span(template, ending[0].at) == "as"@
        &&& n >= 5 ==> span(template, written[n - 3].at) != "as"@
    }
    &&& ending.len() == 3 ==> {
        &&& span(template, ending[0].at) == "as"@
        &&& span(template, ending[2].at) == "silent"@
    }
    &&& ending.len() == 0 || ending.len() == 2 || ending.len() == 3
}

/// A cycle goes through the values that are written, in order. It has the name that follows `as`,
/// and is silent just if `silent` follows this; it takes the next number, and is what its name
/// stands for from then on.
pub proof fn law_cycles_keep_what_is_written(
    env: Env,
    state: State,
    parts_at: At,
    values: Seq<TagElementToken>,
    ending: Seq<TagElementToken>,
)
    requires
        names_cycle(env.template, values, ending),
        forall|i: int|
            0 <= i < values.len() ==> element_of(
                scope_of(env, state),
                (#[trigger] values[i]).at,
                values[i].token_type,
            ) is Ok,
    ensures
        ({
            let tokens = (values + ending).map_values(
                |token: TagElementToken| Ok::<_, LexerError>(token),
            );
            let (after, outcome) = cycle_at(env, state, parts_at, tokens);
            &&& outcome matches Ok(cycle) && {
                &&& simple_cycle(cycle).values.len() == values.len()
                &&& forall|i: int|
                    0 <= i < values.len() ==> Ok::<_, ParseError<Seq<char>>>(
                        simple_cycle(cycle).values[i],
                    ) == element_of(
                        scope_of(env, state),
                        (#[trigger] values[i]).at,
                        values[i].token_type,
                    )
                &&& simple_cycle(cycle).id.0 == state.next_cycle_id
                &&& cycle_name(cycle) == (if ending.len() == 0 {
                    None
                } else {
                    Some(span(env.template, ending[1].at))
                })
                &&& cycle is SilentNamed <==> ending.len() == 3
                &&& cycle_name(cycle) matches Some(name) ==> after.named_cycles
                    == state.named_cycles.insert(name, cycle)
                &&& cycle_name(cycle) is None ==> after.named_cycles == state.named_cycles
            }
        }),
{
    let written = values + ending;
    let tokens = written.map_values(|token: TagElementToken| Ok::<_, LexerError>(token));
    lemma_no_element_error(written);
    lemma_cycle_values_are_taken(scope_of(env, state), values, Seq::empty());
    let n = written.len() as int;
    if ending.len() >= 2 {
        assert(written[n - ending.len()] == ending[0]);
        assert(written[n - ending.len() + 1] == ending[1]);
    }
    if ending.len() == 3 {
        assert(written[n - 1] == ending[2]);
    }
    assert(tokens.take(values.len() as int) =~= values.map_values(
        |token: TagElementToken| Ok::<_, LexerError>(token),
    ));
    assert(forall|i: int| 0 <= i < n ==> #[trigger] tokens[i] == Ok::<_, LexerError>(written[i]));
    let all = cycle_values(
        scope_of(env, state),
        tokens.take(values.len() as int),
        Seq::empty(),
    )->Ok_0;
    assert forall|i: int| 0 <= i < values.len() implies Ok::<_, ParseError<Seq<char>>>(all[i])
        == element_of(
        scope_of(env, state),
        (#[trigger] values[i]).at,
        values[i].token_type,
    ) by {
        assert(all[Seq::<TagElement<int>>::empty().len() + i] == all[i]);
    }
}

/// Where the word `in` is not found, this is told of, unless the last name before it is `in`: then
/// a name is missing, after the one before it where a comma was expected, or before `in`.
pub proof fn law_missing_names_are_told_of(scope: Scope, arguments: ForArguments, at: At)
    requires
        arguments.variable_names@.len() > 0,
        forall|i: int|
            0 <= i < arguments.variable_names@.len() ==> (#[trigger] arguments.variable_names@[i])
                is Ok,
        arguments.in_keyword is Err,
    ensures
        ({
            let names = arguments.variable_names@;
            let n = names.len() as int;
            let says_in = span(scope.template, names[n - 1]->Ok_0.at) == "in"@;
            match for_loop_of(scope, arguments, at) {
                Err(ParseError::ForLexerInError(e)) => !says_in && arguments.in_keyword == Err::<
                    (),
                    _,
                >(e),
                Err(ParseError::ForParseError(ForParseError::MissingVariable { at: place })) => {
                    &&& says_in
                    &&& n >= 2
                    &&& arguments.in_keyword->Err_0 is MissingComma
                    &&& place == names[n - 2]->Ok_0.at
                },
                Err(
                    ParseError::ForParseError(
                        ForParseError::MissingVariableBeforeIn { at: place },
                    ),
                ) => {
                    &&& says_in
                    &&& n == 1 || !(arguments.in_keyword->Err_0 is MissingComma)
                    &&& place == names[n - 1]->Ok_0.at
                },
                _ => false,
            }
        }),
{
    lemma_name_faults(arguments.variable_names@);
}

/// A loop without names is told of where it stands, and one over a number by the number.
pub proof fn law_loops_over_nothing_are_told_of(scope: Scope, arguments: ForArguments, at: At)
    ensures
        arguments.variable_names@.len() == 0 ==> (for_loop_of(scope, arguments, at) matches Err(
            ParseError::ForParseError(ForParseError::MissingVariableNames { at: place }),
        ) && place == at),
        for_loop_of(scope, arguments, at) matches Err(
            ParseError::NotIterable { literal, at: place },
        ) ==> (arguments.expression matches Ok(expression) && (expression.token_type is Numeric
            ==> place == expression.at && literal == span(scope.template, expression.at))),
{
    lemma_name_faults(arguments.variable_names@);
}

/// A URL without a name, and one with some arguments of both kinds, are told of where the tag
/// stands.
pub proof fn law_refused_urls_are_told_of(
    scope: Scope,
    at: At,
    first: TagElementKwargToken,
    rest: Seq<TagElementKwargToken>,
)
    requires
        element_of(scope, first.at, first.token_type) is Ok,
        !binds_variable(scope.template, rest),
        all_are_elements(scope, rest),
        unnamed(rest).len() > 0,
        named(rest).len() > 0,
    ensures
        url_of(scope, at, Seq::empty()) matches Err(ParseError::UrlTagNoArguments { at: place })
            && place == at,
        url_of(
            scope,
            at,
            (seq![first] + rest).map_values(
                |token: TagElementKwargToken| Ok::<_, LexerFault>(token),
            ),
        ) matches Err(ParseError::MixedArgsKwargs { at: place }) && place == at,
{
    let all = seq![first] + rest;
    let tokens = all.map_values(|token: TagElementKwargToken| Ok::<_, LexerFault>(token));
    let left = tokens.skip(1);
    lemma_faults(left);
    assert(readable(left) =~= rest);
    lemma_tokens_bind(scope.template, rest);
    assert(rest.take(rest.len() as int) =~= rest);
    lemma_arguments_are_sorted(scope, rest, Seq::empty(), Seq::empty());
    assert(Seq::empty() + elements_of(scope, unnamed(rest)) =~= elements_of(scope, unnamed(rest)));
    assert(Seq::empty() + named_elements_of(scope, named(rest)) =~= named_elements_of(
        scope,
        named(rest),
    ));
    assert(tokens[0] == Ok::<_, LexerFault>(first));
}

/// A tag that names no template is told of where it stands, a second `only` with the first one, and
/// a `with` that nothing follows where it stands.
pub proof fn law_refused_inclusions_are_told_of(
    scope: Scope,
    engine: PyObject,
    origin: Option<Seq<char>>,
    at: At,
    arguments: IncludeArguments,
    first_at: At,
    second_at: At,
)
    ensures
        arguments.template matches Ok(None) ==> (include_of(
            scope,
            engine,
            origin,
            at,
            arguments,
        ) matches Err(ParseError::MissingArgument { at: place }) && place == at),
        includes_well(scope, arguments) && arguments.first == Ok::<_, LexerFault>(
            IncludeWithToken::Only(first_at),
        ) && arguments.second == Ok::<_, LexerFault>(IncludeWithToken::Only(second_at)) ==> (
        include_of(scope, engine, origin, at, arguments) matches Err(
            ParseError::IncludeOnlyTwice { first_at: a, second_at: b },
        ) && a == first_at && b == second_at),
        includes_well(scope, arguments) && arguments.first == Ok::<_, LexerFault>(
            IncludeWithToken::With(first_at),
        ) && arguments.rest@.len() == 0 ==> (include_of(
            scope,
            engine,
            origin,
            at,
            arguments,
        ) matches Err(ParseError::MissingKeywordArgument { at: place }) && place == first_at),
{
}

/// The name of a template can be read.
pub open spec fn includes_well(scope: Scope, arguments: IncludeArguments) -> bool {
    match arguments.template {
        Ok(Some(token)) => match token.token_type {
            IncludeTemplateTokenType::Text => arguments.relative_path is Ok,
            IncludeTemplateTokenType::Variable(variable) => variable_of(scope, variable, token.at)
                is Ok,
        },
        _ => false,
    }
}

/// A cycle without values is told of, and so is a name that no cycle has; a name alone stands for
/// the cycle that has it, and takes nothing else.
pub proof fn law_single_names_stand_for_cycles(
    env: Env,
    state: State,
    parts_at: At,
    token: TagElementToken,
)
    ensures
        cycle_at(env, state, parts_at, Seq::empty()).1 matches Err(
            ParseError::MissingCycleArguments { at },
        ) && at == parts_at,
        ({
            let (after, outcome) = cycle_at(
                env,
                state,
                parts_at,
                seq![Ok::<_, LexerError>(token)],
            );
            let name = span(env.template, token.at);
            &&& after == state
            &&& if !(token.token_type is Variable) {
                outcome matches Err(ParseError::MissingCycleArguments { at }) && at == token.at
            } else if state.named_cycles.contains_key(name) {
                outcome == Ok::<_, ParseError<Seq<char>>>(state.named_cycles[name])
            } else {
                outcome matches Err(ParseError::UnknownNamedCycle { name: missing, at })
                    && missing == name && at == token.at
            }
        }),
{
    let tokens = seq![Ok::<TagElementToken, LexerError>(token)];
    assert(tokens.drop_first() =~= Seq::empty());
    reveal_with_fuel(first_element_error, 2);
}

/// What follows the name of a cycle is `silent`, or is told of where it stands.
pub proof fn law_other_flags_are_told_of(
    env: Env,
    state: State,
    parts_at: At,
    values: Seq<TagElementToken>,
    ending: Seq<TagElementToken>,
)
    requires
        values.len() >= 2,
        ending.len() == 3,
        span(env.template, ending[0].at) == "as"@,
        span(env.template, ending[2].at) != "silent"@,
    ensures
        cycle_at(
            env,
            state,
            parts_at,
            (values + ending).map_values(|token: TagElementToken| Ok::<_, LexerError>(token)),
        ).1 matches Err(ParseError::InvalidCycleFlag { flag, at }) && at == ending[2].at && flag
            == span(env.template, at),
{
    let written = values + ending;
    let tokens = written.map_values(|token: TagElementToken| Ok::<_, LexerError>(token));
    lemma_no_element_error(written);
    let n = written.len() as int;
    assert(written[n - 3] == ending[0] && written[n - 1] == ending[2]);
    assert(tokens[n - 3] == Ok::<_, LexerError>(ending[0]));
    assert(tokens[n - 1] == Ok::<_, LexerError>(ending[2]));
}

} // verus!
