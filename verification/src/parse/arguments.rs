//! The arguments of tags that take elements with keywords.
use vstd::prelude::*;
use vstd::string::*;
use crate::dict::{contains_text, lemma_views_push, option_view, views, Dict};
use crate::integer::Integer;
use crate::lexer::tokens::{
    all_between, get_all_at, kwargs_wf, KwargTokens, LexerFault, TagElementKwargToken,
};
use crate::parse::elements::element_of;
use crate::parse::errors::ParseError;
use crate::parse::library::{SimpleTagContext, SimpleTagContextView};
use crate::parse::parser::{Parser, Scope};
use crate::parse::tree::TagElement;
use crate::text::{span, str_eq, At, TemplateString};
use crate::words::{join, joined_by, quote, quoted};

verus! {

/// What is reported of the first token that could not be read.
pub open spec fn first_fault(tokens: Seq<Result<TagElementKwargToken, LexerFault>>) -> Option<
    LexerFault,
>
    decreases tokens.len(),
{
    if tokens.len() == 0 {
        None
    } else {
        match tokens[0] {
            Err(e) => Some(e),
            Ok(_) => first_fault(tokens.drop_first()),
        }
    }
}

/// The tokens that could be read.
pub open spec fn readable(tokens: Seq<Result<TagElementKwargToken, LexerFault>>) -> Seq<
    TagElementKwargToken,
> {
    tokens.map_values(|token: Result<TagElementKwargToken, LexerFault>| token->Ok_0)
}

/// The tokens lie in the template, in their order.
pub open spec fn in_order(tokens: Seq<TagElementKwargToken>, template: Seq<char>) -> bool {
    &&& forall|i: int| 0 <= i < tokens.len() ==> (#[trigger] tokens[i]).wf(template)
    &&& forall|i: int, j: int|
        0 <= i < j < tokens.len() ==> (#[trigger] tokens[i]).at.0 <= (#[trigger] tokens[j]).at.0
}

/// Collects the tokens from a position on, unless one of them could not be read.
pub fn collect_tokens<'a>(tokens: &'a KwargTokens, start: usize, template: TemplateString<'_>) -> (r:
    Result<Vec<&'a TagElementKwargToken>, LexerFault>)
    requires
        start <= tokens@.len(),
        kwargs_wf(tokens@, template@),
    ensures
        match r {
            Ok(v) => {
                &&& first_fault(tokens@.skip(start as int)) is None
                &&& v@.unref() == readable(tokens@.skip(start as int))
                &&& in_order(v@.unref(), template@)
            },
            Err(e) => first_fault(tokens@.skip(start as int)) == Some(e),
        },
{
    let ghost rest = tokens@.skip(start as int);
    let mut v: Vec<&'a TagElementKwargToken> = Vec::new();
    let mut i: usize = start;
    assert(rest.skip(0) =~= rest);
    while i < tokens.len()
        invariant
            start <= i <= tokens@.len(),
            rest == tokens@.skip(start as int),
            v@.len() == i - start,
            forall|j: int| 0 <= j < v@.len() ==> rest[j] == Ok::<_, LexerFault>(*#[trigger] v@[j]),
            first_fault(rest) == first_fault(rest.skip(i - start)),
        decreases tokens@.len() - i,
    {
        assert(rest.skip(i - start)[0] == tokens@[i as int]);
        assert(rest.skip(i - start).drop_first() =~= rest.skip(i + 1 - start));
        match &tokens[i] {
            Ok(token) => v.push(token),
            Err(e) => {
                return Err(*e);
            },
        }
        i += 1;
    }
    proof {
        assert(v@.unref() =~= readable(rest));
        assert forall|j: int| 0 <= j < v@.len() implies (#[trigger] v@.unref()[j]).wf(
            template@,
        ) by {
            assert(tokens@[start + j] == Ok::<_, LexerFault>(*v@[j]));
        }
        assert forall|j: int, k: int| 0 <= j < k < v@.len() implies (
        #[trigger] v@.unref()[j]).at.0 <= (#[trigger] v@.unref()[k]).at.0 by {
            assert(tokens@[start + j] == Ok::<_, LexerFault>(*v@[j]));
            assert(tokens@[start + k] == Ok::<_, LexerFault>(*v@[k]));
        }
    }
    Ok(v)
}

/// The position of the last `as` among tokens.
pub open spec fn last_as(template: Seq<char>, tokens: Seq<TagElementKwargToken>) -> Option<int>
    decreases tokens.len(),
{
    if tokens.len() == 0 {
        None
    } else if span(template, tokens.last().at) == "as"@ {
        Some(tokens.len() - 1)
    } else {
        last_as(template, tokens.drop_last())
    }
}

/// The variable that tokens end with after the word `as`, if they do, and the number of tokens
/// before that.
pub open spec fn as_variable(template: Seq<char>, tokens: Seq<TagElementKwargToken>) -> Result<
    (Option<Seq<char>>, int),
    ParseError<Seq<char>>,
> {
    let len = tokens.len() as int;
    match last_as(template, tokens) {
        None => Ok((None, len)),
        Some(pos) => if pos == len - 1 {
            if len >= 2 && span(template, tokens[len - 2].at) == "as"@ {
                Ok((Some("as"@), len - 2))
            } else {
                Err(ParseError::MissingVariableAfterAs { at: tokens[pos].at })
            }
        } else if pos == len - 2 {
            Ok((Some(span(template, tokens[len - 1].at)), len - 2))
        } else {
            Err(
                ParseError::UnexpectedTokensAfterAsVariable {
                    at: all_between(tokens[pos + 2].at, tokens[len - 1].at),
                    var_name: span(template, tokens[pos + 1].at),
                },
            )
        },
    }
}

/// Extracts "as variable" from the end of the tokens, and truncates them.
///
/// The outcome is the name of the variable if there is one, nothing if there is no "as", and an
/// error if a variable is missing after "as" or is not the last token.
pub fn extract_as_variable(
    tokens: &mut Vec<&TagElementKwargToken>,
    template: TemplateString<'_>,
) -> (r: Result<Option<String>, ParseError<String>>)
    requires
        in_order(old(tokens)@.unref(), template@),
    ensures
        match r {
            Ok(name) => {
                &&& as_variable(template@, old(tokens)@.unref()) == Ok::<_, ParseError<Seq<char>>>(
                    (option_view(name), final(tokens)@.len() as int),
                )
                &&& final(tokens)@.len() <= old(tokens)@.len()
                &&& final(tokens)@ == old(tokens)@.take(final(tokens)@.len() as int)
            },
            Err(e) => {
                &&& as_variable(template@, old(tokens)@.unref()) == Err::<(Option<Seq<char>>, int), _>(
                    e@,
                )
                &&& final(tokens)@ == old(tokens)@
            },
        },
{
    let ghost all = tokens@.unref();
    let len = tokens.len();
    let mut i: usize = len;
    assert(all.take(len as int) =~= all);
    while i > 0
        invariant
            0 <= i <= len,
            len == tokens@.len(),
            tokens@ == old(tokens)@,
            all == tokens@.unref(),
            in_order(all, template@),
            last_as(template@, all) == last_as(template@, all.take(i as int)),
        decreases i,
    {
        i -= 1;
        assert(all[i as int].wf(template@));
        assert(all.take(i + 1).last() == all[i as int]);
        assert(all.take(i + 1).drop_last() =~= all.take(i as int));
        if str_eq(template.content(tokens[i].at), "as") {
            if i == len - 1 {
                if len >= 2 {
                    assert(all[len - 2].wf(template@));
                    if str_eq(template.content(tokens[len - 2].at), "as") {
                        tokens.truncate(len - 2);
                        return Ok(Some("as".to_owned()));
                    }
                }
                return Err(ParseError::MissingVariableAfterAs { at: tokens[i].at });
            }
            assert(all[i + 1].wf(template@));
            if i == len - 2 {
                let variable = template.content(tokens[len - 1].at).to_owned();
                tokens.truncate(len - 2);
                return Ok(Some(variable));
            }
            let asvar = tokens[i + 1].at;
            let next = tokens[i + 2].at;
            let last = tokens[len - 1].at;
            assert(all[i + 2].wf(template@) && all[len - 1].wf(template@));
            assert(next == all[i + 2].at && last == all[len - 1].at);
            return Err(
                ParseError::UnexpectedTokensAfterAsVariable {
                    at: get_all_at(next, last),
                    var_name: template.content(asvar).to_owned(),
                },
            );
        }
    }
    assert(tokens@.take(len as int) =~= tokens@);
    Ok(None)
}

/// The arguments of a tag of a library: the positional ones, those with keywords, and the variable
/// to store the outcome in.
pub struct CustomParts {
    pub args: Seq<TagElement<int>>,
    pub kwargs: Seq<(Seq<char>, TagElement<int>)>,
    /// Where each keyword was given.
    pub seen: Map<Seq<char>, At>,
    /// Where the argument before stands.
    pub prev_at: At,
}

/// The location of an element together with its keyword.
pub open spec fn kwarg_location(name_at: At, at: At) -> At {
    (name_at.0, (name_at.1 + 1 + at.1) as usize)
}

/// Takes one more argument of a tag of a library. `index` is the number of those before it.
pub open spec fn take_argument(
    scope: Scope,
    context: SimpleTagContextView,
    parts: CustomParts,
    index: int,
    token: TagElementKwargToken,
) -> Result<CustomParts, ParseError<Seq<char>>> {
    let element = element_of(scope, token.at, token.token_type);
    match token.kwarg {
        None => if parts.kwargs.len() > 0 {
            Err(ParseError::PositionalAfterKeyword { at: token.at, after: parts.prev_at })
        } else if !context.varargs && index == context.params.len() {
            Err(ParseError::TooManyPositionalArguments { at: token.at })
        } else {
            match element {
                Ok(element) => Ok(
                    CustomParts {
                        args: parts.args.push(element),
                        kwargs: parts.kwargs,
                        seen: parts.seen,
                        prev_at: token.at,
                    },
                ),
                Err(e) => Err(e),
            }
        },
        Some(name_at) => {
            let kwarg_at = kwarg_location(name_at, token.at);
            let name = span(scope.template, name_at);
            if !context.varkw && !context.params.contains(name) && !context.kwonly.contains(name) {
                Err(ParseError::UnexpectedKeywordArgument { at: kwarg_at })
            } else if parts.seen.contains_key(name) {
                Err(
                    ParseError::DuplicateKeywordArgument {
                        tag_name: context.function_name,
                        kwarg_name: name,
                        first_at: parts.seen[name],
                        second_at: kwarg_at,
                    },
                )
            } else {
                match element {
                    Ok(element) => Ok(
                        CustomParts {
                            args: parts.args,
                            kwargs: parts.kwargs.push((name, element)),
                            seen: parts.seen.insert(name, kwarg_at),
                            prev_at: kwarg_at,
                        },
                    ),
                    Err(e) => Err(e),
                }
            }
        },
    }
}

/// Takes the arguments of a tag of a library in turn.
pub open spec fn take_arguments(
    scope: Scope,
    context: SimpleTagContextView,
    parts: CustomParts,
    index: int,
    tokens: Seq<TagElementKwargToken>,
) -> Result<CustomParts, ParseError<Seq<char>>>
    decreases tokens.len(),
{
    if tokens.len() == 0 {
        Ok(parts)
    } else {
        match take_argument(scope, context, parts, index, tokens[0]) {
            Ok(next) => take_arguments(scope, context, next, index + 1, tokens.drop_first()),
            Err(e) => Err(e),
        }
    }
}

/// The names that were not given and do not go without, in quotes.
pub open spec fn missing_names(
    names: Seq<Seq<char>>,
    seen: Map<Seq<char>, At>,
    defaults: Seq<Seq<char>>,
) -> Seq<Seq<char>>
    decreases names.len(),
{
    if names.len() == 0 {
        Seq::empty()
    } else {
        let before = missing_names(names.drop_last(), seen, defaults);
        let name = names.last();
        if seen.contains_key(name) || defaults.contains(name) {
            before
        } else {
            before.push(quoted(name))
        }
    }
}

/// The parameters that a positional argument, or none, would have to fill.
pub open spec fn unfilled_params(context: SimpleTagContextView, args_count: int) -> Seq<Seq<char>> {
    if context.params.len() > args_count + context.defaults_count {
        context.params.subrange(args_count, context.params.len() - context.defaults_count)
    } else {
        Seq::empty()
    }
}

/// The arguments that a tag of a library lacks, in quotes.
pub open spec fn missing_arguments(context: SimpleTagContextView, parts: CustomParts) -> Seq<
    Seq<char>,
> {
    missing_names(
        unfilled_params(context, parts.args.len() as int),
        parts.seen,
        Seq::empty(),
    ) + missing_names(context.kwonly, parts.seen, context.kwonly_defaults)
}

/// The arguments of a tag of a library: the positional ones, those with keywords, and the variable
/// to store the outcome in.
pub open spec fn custom_tag_parts(
    scope: Scope,
    tokens: Seq<Result<TagElementKwargToken, LexerFault>>,
    parts_at: At,
    context: SimpleTagContextView,
) -> Result<
    (Seq<TagElement<int>>, Seq<(Seq<char>, TagElement<int>)>, Option<Seq<char>>),
    ParseError<Seq<char>>,
> {
    match first_fault(tokens) {
        Some(e) => Err(ParseError::TagElementKwargLexerError(e)),
        None => match as_variable(scope.template, readable(tokens)) {
            Err(e) => Err(e),
            Ok((asvar, count)) => {
                let start = CustomParts {
                    args: Seq::empty(),
                    kwargs: Seq::empty(),
                    seen: Map::empty(),
                    prev_at: parts_at,
                };
                match take_arguments(scope, context, start, 0, readable(tokens).take(count)) {
                    Err(e) => Err(e),
                    Ok(parts) => {
                        let missing = missing_arguments(context, parts);
                        if missing.len() > 0 {
                            Err(
                                ParseError::MissingArguments {
                                    tag_name: context.function_name,
                                    at: parts_at,
                                    missing: joined_by(missing, ", "@),
                                },
                            )
                        } else {
                            Ok((parts.args, parts.kwargs, asvar))
                        }
                    },
                }
            },
        },
    }
}

/// Adds the names from one position up to another that were not given and do not go without, in
/// quotes.
fn push_missing(
    missing: &mut Vec<String>,
    names: &Vec<String>,
    from: usize,
    to: usize,
    seen: &Dict<At>,
    defaults: &Vec<String>,
)
    requires
        from <= to <= names@.len(),
    ensures
        views(final(missing)@) == views(old(missing)@) + missing_names(
            views(names@).subrange(from as int, to as int),
            seen@,
            views(defaults@),
        ),
{
    let ghost range = views(names@).subrange(from as int, to as int);
    let ghost before = views(missing@);
    let mut i: usize = from;
    assert(range.take(0) =~= Seq::<Seq<char>>::empty());
    assert(before + Seq::<Seq<char>>::empty() =~= before);
    while i < to
        invariant
            from <= i <= to <= names@.len(),
            range == views(names@).subrange(from as int, to as int),
            views(missing@) == before + missing_names(
                range.take(i - from),
                seen@,
                views(defaults@),
            ),
        decreases to - i,
    {
        let ghost next = range.take(i + 1 - from);
        assert(next.drop_last() =~= range.take(i - from));
        assert(next.last() == names@[i as int]@);
        let name = names[i].as_str();
        if !seen.contains_key(name) && !contains_text(defaults, name) {
            let ghost previous = missing@;
            missing.push(quote(name));
            proof {
                lemma_views_push(previous, missing@.last());
                assert(missing@ =~= previous.push(missing@.last()));
            }
        }
        assert(views(missing@) =~= before + missing_names(next, seen@, views(defaults@)));
        i += 1;
    }
    assert(range.take(to - from) =~= range);
}

impl<'t> Parser<'t> {
    /// The arguments of a tag of a library: the positional ones, those with keywords, and the
    /// variable to store the outcome in.
    pub fn parse_custom_tag_parts(
        &self,
        tokens: &KwargTokens,
        parts_at: At,
        context: &SimpleTagContext,
    ) -> (r: Result<
        (Vec<TagElement<Integer>>, Vec<(String, TagElement<Integer>)>, Option<String>),
        ParseError<String>,
    >)
        requires
            kwargs_wf(tokens@, self.env().template),
        ensures
            match r {
                Ok((args, kwargs, asvar)) => custom_tag_parts(
                    self.scope(),
                    tokens@,
                    parts_at,
                    context@,
                ) == Ok::<_, ParseError<Seq<char>>>(
                    (views(args@), views(kwargs@), option_view(asvar)),
                ),
                Err(e) => custom_tag_parts(self.scope(), tokens@, parts_at, context@) == Err::<
                    (Seq<TagElement<int>>, Seq<(Seq<char>, TagElement<int>)>, Option<Seq<char>>),
                    _,
                >(e@),
            },
    {
        assert(tokens@.skip(0) =~= tokens@);
        let mut collected = match collect_tokens(tokens, 0, self.template_string()) {
            Ok(collected) => collected,
            Err(e) => {
                return Err(ParseError::TagElementKwargLexerError(e));
            },
        };
        let ghost all = collected@.unref();
        let asvar = match extract_as_variable(&mut collected, self.template_string()) {
            Ok(asvar) => asvar,
            Err(e) => {
                return Err(e);
            },
        };
        let ghost rest = collected@.unref();
        assert(rest =~= all.take(rest.len() as int));
        let mut args: Vec<TagElement<Integer>> = Vec::new();
        let mut kwargs: Vec<(String, TagElement<Integer>)> = Vec::new();
        let mut seen: Dict<At> = Dict::new();
        let mut prev_at = parts_at;
        let params_count = context.params.len();
        let ghost start = CustomParts {
            args: Seq::empty(),
            kwargs: Seq::empty(),
            seen: Map::empty(),
            prev_at: parts_at,
        };
        let mut index: usize = 0;
        assert(rest.skip(0) =~= rest);
        assert(views(args@) =~= Seq::<TagElement<int>>::empty());
        assert(views(kwargs@) =~= Seq::<(Seq<char>, TagElement<int>)>::empty());
        while index < collected.len()
            invariant
                0 <= index <= collected@.len(),
                params_count == context.params@.len(),
                rest == collected@.unref(),
                rest == all.take(rest.len() as int),
                rest.len() <= all.len(),
                in_order(all, self.env().template),
                take_arguments(self.scope(), context@, start, 0, rest) == take_arguments(
                    self.scope(),
                    context@,
                    CustomParts {
                        args: views(args@),
                        kwargs: views(kwargs@),
                        seen: seen@,
                        prev_at,
                    },
                    index as int,
                    rest.skip(index as int),
                ),
                first_fault(tokens@) is None,
                all == readable(tokens@),
                start == (CustomParts {
                    args: Seq::empty(),
                    kwargs: Seq::empty(),
                    seen: Map::empty(),
                    prev_at: parts_at,
                }),
                as_variable(self.scope().template, all) == Ok::<_, ParseError<Seq<char>>>(
                    (option_view(asvar), rest.len() as int),
                ),
            decreases collected@.len() - index,
        {
            let token = collected[index];
            assert(*token == all[index as int]);
            assert(rest.skip(index as int)[0] == *token);
            assert(rest.skip(index as int).drop_first() =~= rest.skip(index + 1));
            match token.kwarg {
                None => {
                    if kwargs.len() > 0 {
                        return Err(
                            ParseError::PositionalAfterKeyword { at: token.at, after: prev_at },
                        );
                    }
                    if !context.varargs && index == params_count {
                        return Err(ParseError::TooManyPositionalArguments { at: token.at });
                    }
                    let element = match self.parse_kwarg_element(token) {
                        Ok(element) => element,
                        Err(e) => {
                            return Err(e);
                        },
                    };
                    proof {
                        lemma_views_push(args@, element);
                    }
                    args.push(element);
                    prev_at = token.at;
                },
                Some(name_at) => {
                    let kwarg_at = (name_at.0, name_at.1 + 1 + token.at.1);
                    let name = self.content(name_at);
                    if !context.varkw && !contains_text(&context.params, name) && !contains_text(
                        &context.kwonly,
                        name,
                    ) {
                        return Err(ParseError::UnexpectedKeywordArgument { at: kwarg_at });
                    }
                    if let Some(first_at) = seen.get(name) {
                        return Err(
                            ParseError::DuplicateKeywordArgument {
                                tag_name: context.function_name.clone(),
                                kwarg_name: name.to_owned(),
                                first_at: *first_at,
                                second_at: kwarg_at,
                            },
                        );
                    }
                    let element = match self.parse_kwarg_element(token) {
                        Ok(element) => element,
                        Err(e) => {
                            return Err(e);
                        },
                    };
                    seen.insert(name.to_owned(), kwarg_at);
                    let kwarg = (name.to_owned(), element);
                    proof {
                        lemma_views_push(kwargs@, kwarg);
                    }
                    kwargs.push(kwarg);
                    prev_at = kwarg_at;
                },
            }
            index += 1;
        }
        let args_count = args.len();
        let ghost parts = CustomParts {
            args: views(args@),
            kwargs: views(kwargs@),
            seen: seen@,
            prev_at,
        };
        assert(take_arguments(self.scope(), context@, start, 0, rest) == Ok::<
            _,
            ParseError<Seq<char>>,
        >(parts));
        let mut missing: Vec<String> = Vec::new();
        let no_defaults: Vec<String> = Vec::new();
        assert(views(no_defaults@) =~= Seq::<Seq<char>>::empty());
        assert(views(missing@) =~= Seq::<Seq<char>>::empty());
        if params_count > context.defaults_count && params_count - context.defaults_count
            > args_count {
            push_missing(
                &mut missing,
                &context.params,
                args_count,
                params_count - context.defaults_count,
                &seen,
                &no_defaults,
            );
        }
        assert(views(missing@) =~= missing_names(
            unfilled_params(context@, args_count as int),
            seen@,
            Seq::empty(),
        ));
        push_missing(
            &mut missing,
            &context.kwonly,
            0,
            context.kwonly.len(),
            &seen,
            &context.kwonly_defaults,
        );
        assert(views(context.kwonly@).subrange(0, context.kwonly@.len() as int) =~= views(
            context.kwonly@,
        ));
        assert(views(missing@) =~= missing_arguments(context@, parts));
        if missing.len() > 0 {
            return Err(
                ParseError::MissingArguments {
                    tag_name: context.function_name.clone(),
                    at: parts_at,
                    missing: join(&missing, ", "),
                },
            );
        }
        Ok((args, kwargs, asvar))
    }
}

/// The keywords of arguments.
pub open spec fn keywords(kwargs: Seq<(Seq<char>, TagElement<int>)>) -> Seq<Seq<char>> {
    kwargs.map_values(|kwarg: (Seq<char>, TagElement<int>)| kwarg.0)
}

/// Arguments that a function may be called with, as far as they go: there are not too many of
/// them, no keyword comes twice, and each one is known.
pub open spec fn may_be_given(
    context: SimpleTagContextView,
    args: Seq<TagElement<int>>,
    kwargs: Seq<(Seq<char>, TagElement<int>)>,
) -> bool {
    &&& !context.varargs ==> args.len() <= context.params.len()
    &&& keywords(kwargs).no_duplicates()
    &&& !context.varkw ==> forall|name: Seq<char>| #[trigger]
        keywords(kwargs).contains(name) ==> context.params.contains(name)
            || context.kwonly.contains(name)
}

/// No argument that a function needs is missing.
pub open spec fn none_is_missing(
    context: SimpleTagContextView,
    args: Seq<TagElement<int>>,
    kwargs: Seq<(Seq<char>, TagElement<int>)>,
) -> bool {
    &&& forall|i: int|
        args.len() <= i < context.params.len() - context.defaults_count ==> keywords(
            kwargs,
        ).contains(#[trigger] context.params[i])
    &&& forall|name: Seq<char>| #[trigger]
        context.kwonly.contains(name) ==> keywords(kwargs).contains(name)
            || context.kwonly_defaults.contains(name)
}

/// What was seen of keywords is what the arguments hold.
spec fn is_consistent(parts: CustomParts, index: int) -> bool {
    &&& forall|name: Seq<char>| #[trigger]
        parts.seen.contains_key(name) == keywords(parts.kwargs).contains(name)
    &&& parts.kwargs.len() == 0 ==> index == parts.args.len()
}

proof fn lemma_keyword_pushed(
    kwargs: Seq<(Seq<char>, TagElement<int>)>,
    kwarg: (Seq<char>, TagElement<int>),
)
    ensures
        keywords(kwargs.push(kwarg)) == keywords(kwargs).push(kwarg.0),
        forall|name: Seq<char>| #[trigger]
            keywords(kwargs.push(kwarg)).contains(name) == (keywords(kwargs).contains(name) || name
                == kwarg.0),
{
    let before = keywords(kwargs);
    let after = keywords(kwargs.push(kwarg));
    assert(after =~= before.push(kwarg.0));
    assert forall|name: Seq<char>| #[trigger] after.contains(name) == (before.contains(name) || name
        == kwarg.0) by {
        if before.contains(name) {
            let i = choose|i: int| 0 <= i < before.len() && before[i] == name;
            assert(after[i] == name);
        }
        if name == kwarg.0 {
            assert(after[before.len() as int] == name);
        }
        if after.contains(name) {
            let i = choose|i: int| 0 <= i < after.len() && after[i] == name;
            if i < before.len() {
                assert(before[i] == name);
            }
        }
    }
}

proof fn lemma_arguments_may_be_given(
    scope: Scope,
    context: SimpleTagContextView,
    parts: CustomParts,
    index: int,
    tokens: Seq<TagElementKwargToken>,
)
    requires
        may_be_given(context, parts.args, parts.kwargs),
        is_consistent(parts, index),
    ensures
        take_arguments(scope, context, parts, index, tokens) matches Ok(last) ==> {
            &&& may_be_given(context, last.args, last.kwargs)
            &&& is_consistent(last, index + tokens.len())
        },
    decreases tokens.len(),
{
    if tokens.len() > 0 {
        if let Ok(next) = take_argument(scope, context, parts, index, tokens[0]) {
            if let Some(name_at) = tokens[0].kwarg {
                let kwarg = next.kwargs.last();
                lemma_keyword_pushed(parts.kwargs, kwarg);
                assert(next.kwargs =~= parts.kwargs.push(kwarg));
                assert(!keywords(parts.kwargs).contains(kwarg.0)) by {
                    assert(!parts.seen.contains_key(kwarg.0));
                }
                assert(keywords(next.kwargs).no_duplicates()) by {
                    let before = keywords(parts.kwargs);
                    let after = keywords(next.kwargs);
                    assert forall|i: int, j: int|
                        0 <= i < after.len() && 0 <= j < after.len() && i
                            != j implies after[i] != after[j] by {
                        if i == before.len() {
                            assert(before[j] == after[j]);
                            assert(before.contains(before[j]));
                        } else if j == before.len() {
                            assert(before[i] == after[i]);
                            assert(before.contains(before[i]));
                        } else {
                            assert(before[i] == after[i] && before[j] == after[j]);
                        }
                    }
                }
            }
            lemma_arguments_may_be_given(scope, context, next, index + 1, tokens.drop_first());
        }
    }
}

proof fn lemma_none_is_missing(
    names: Seq<Seq<char>>,
    seen: Map<Seq<char>, At>,
    defaults: Seq<Seq<char>>,
    i: int,
)
    requires
        missing_names(names, seen, defaults).len() == 0,
        0 <= i < names.len(),
    ensures
        seen.contains_key(names[i]) || defaults.contains(names[i]),
    decreases names.len(),
{
    if i < names.len() - 1 {
        lemma_none_is_missing(names.drop_last(), seen, defaults, i);
        assert(names.drop_last()[i] == names[i]);
    }
}

/// The arguments that a tag of a library is accepted with are some that its function can be called
/// with: none is missing, none is too many, and no keyword is unknown or comes twice.
pub proof fn law_accepted_arguments_fit_the_function(
    scope: Scope,
    tokens: Seq<Result<TagElementKwargToken, LexerFault>>,
    parts_at: At,
    context: SimpleTagContextView,
)
    ensures
        custom_tag_parts(scope, tokens, parts_at, context) matches Ok((args, kwargs, _)) ==> {
            &&& may_be_given(context, args, kwargs)
            &&& none_is_missing(context, args, kwargs)
        },
{
    if let Ok((args, kwargs, asvar)) = custom_tag_parts(scope, tokens, parts_at, context) {
        let count = as_variable(scope.template, readable(tokens))->Ok_0.1;
        let taken = readable(tokens).take(count);
        let start = CustomParts {
            args: Seq::empty(),
            kwargs: Seq::empty(),
            seen: Map::empty(),
            prev_at: parts_at,
        };
        assert(keywords(start.kwargs) =~= Seq::empty());
        lemma_arguments_may_be_given(scope, context, start, 0, taken);
        let parts = take_arguments(scope, context, start, 0, taken)->Ok_0;
        let unfilled = unfilled_params(context, args.len() as int);
        assert(missing_arguments(context, parts).len() == 0);
        assert forall|i: int|
            args.len() <= i < context.params.len() - context.defaults_count implies keywords(
            kwargs,
        ).contains(#[trigger] context.params[i]) by {
            assert(unfilled[i - args.len()] == context.params[i]);
            lemma_none_is_missing(unfilled, parts.seen, Seq::empty(), i - args.len());
            assert(parts.seen.contains_key(context.params[i]));
        }
        assert forall|name: Seq<char>| #[trigger] context.kwonly.contains(name) implies keywords(
            kwargs,
        ).contains(name) || context.kwonly_defaults.contains(name) by {
            let i = choose|i: int| 0 <= i < context.kwonly.len() && context.kwonly[i] == name;
            lemma_none_is_missing(context.kwonly, parts.seen, context.kwonly_defaults, i);
            assert(parts.seen.contains_key(name) == keywords(kwargs).contains(name));
        }
    }
}

} // verus!
