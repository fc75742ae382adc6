//! The tags that stand on their own.
use vstd::prelude::*;
use vstd::string::*;
use crate::dict::{lemma_views_push, option_view, views};
use crate::integer::Integer;
use crate::lexer::tokens::{
    kwargs_wf, lorem_wf, text_content_at, ForArguments, ForLexerInError,
    ForVariableNameToken, IncludeArguments, IncludeTemplateToken, IncludeTemplateTokenType,
    IncludeToken, IncludeWithToken, KwargTokens, LexerFault, LoremMethod, LoremToken,
    LoremTokenType, LoremTokens, NowArguments, TagElementKwargToken, TagElementTokenType,
};
use crate::parse::arguments::{
    as_variable, collect_tokens, extract_as_variable, first_fault, in_order, readable,
};
use crate::parse::elements::{element_of, variable_of};
use crate::parse::errors::{result_view, ForParseError, ParseError};
use crate::parse::parser::{Parser, Scope};
use crate::parse::tree::{
    located_views, FirstOf, FirstOfView, ForIterable, ForNames, ForNamesView, Include,
    IncludeTemplateName, IncludeView, Lorem, Now, RelativePath, TagElement, Url, UrlView,
};
use crate::text::{is_span, span, str_eq, At};
use crate::types::{PyObject, Text};

verus! {

/// Elements sorted into those without a keyword and those with one, after some that were before.
pub open spec fn sorted_arguments(
    scope: Scope,
    tokens: Seq<TagElementKwargToken>,
    args: Seq<TagElement<int>>,
    kwargs: Seq<(Seq<char>, TagElement<int>)>,
) -> Result<
    (Seq<TagElement<int>>, Seq<(Seq<char>, TagElement<int>)>),
    ParseError<Seq<char>>,
>
    decreases tokens.len(),
{
    if tokens.len() == 0 {
        Ok((args, kwargs))
    } else {
        match element_of(scope, tokens[0].at, tokens[0].token_type) {
            Err(e) => Err(e),
            Ok(element) => match tokens[0].kwarg {
                None => sorted_arguments(scope, tokens.drop_first(), args.push(element), kwargs),
                Some(at) => sorted_arguments(
                    scope,
                    tokens.drop_first(),
                    args,
                    kwargs.push((span(scope.template, at), element)),
                ),
            },
        }
    }
}

/// The URL with some arguments, of which either all or none have keywords.
pub open spec fn url_with(
    at: At,
    view_name: TagElement<int>,
    asvar: Option<Seq<char>>,
    arguments: Result<
        (Seq<TagElement<int>>, Seq<(Seq<char>, TagElement<int>)>),
        ParseError<Seq<char>>,
    >,
) -> Result<UrlView, ParseError<Seq<char>>> {
    match arguments {
        Err(e) => Err(e),
        Ok((args, kwargs)) => if args.len() > 0 && kwargs.len() > 0 {
            Err(ParseError::MixedArgsKwargs { at })
        } else {
            Ok(UrlView { at, view_name, args, kwargs, asvar })
        },
    }
}

/// The URL that a tag at a location stands for.
pub open spec fn url_of(
    scope: Scope,
    at: At,
    tokens: Seq<Result<TagElementKwargToken, LexerFault>>,
) -> Result<UrlView, ParseError<Seq<char>>> {
    if tokens.len() == 0 {
        Err(ParseError::UrlTagNoArguments { at })
    } else {
        match tokens[0] {
            Err(e) => Err(ParseError::TagElementKwargLexerError(e)),
            Ok(view_token) => match element_of(scope, view_token.at, view_token.token_type) {
                Err(e) => Err(e),
                Ok(view_name) => match first_fault(tokens.skip(1)) {
                    Some(e) => Err(ParseError::TagElementKwargLexerError(e)),
                    None => {
                        let rest = readable(tokens.skip(1));
                        // An `as` that binds no variable is taken for the name of one.
                        let (asvar, count) = match as_variable(scope.template, rest) {
                            Ok((asvar, count)) => (asvar, count),
                            Err(_) => (None, rest.len() as int),
                        };
                        url_with(
                            at,
                            view_name,
                            asvar,
                            sorted_arguments(scope, rest.take(count), Seq::empty(), Seq::empty()),
                        )
                    },
                },
            },
        }
    }
}

/// The values of elements, after some that were before.
pub open spec fn elements_of(
    scope: Scope,
    tokens: Seq<TagElementKwargToken>,
    before: Seq<TagElement<int>>,
) -> Result<Seq<TagElement<int>>, ParseError<Seq<char>>>
    decreases tokens.len(),
{
    if tokens.len() == 0 {
        Ok(before)
    } else {
        match element_of(scope, tokens[0].at, tokens[0].token_type) {
            Err(e) => Err(e),
            Ok(element) => elements_of(scope, tokens.drop_first(), before.push(element)),
        }
    }
}

/// Whether the last token but one is the word `as`.
pub open spec fn binds_variable(template: Seq<char>, tokens: Seq<TagElementKwargToken>) -> bool {
    tokens.len() >= 2 && span(template, tokens[tokens.len() - 2].at) == "as"@
}

/// The first of some values, and the variable to store it in.
pub open spec fn firstof_with(
    asvar: Option<Seq<char>>,
    vars: Result<Seq<TagElement<int>>, ParseError<Seq<char>>>,
) -> Result<FirstOfView, ParseError<Seq<char>>> {
    match vars {
        Err(e) => Err(e),
        Ok(vars) => Ok(FirstOfView { vars, asvar }),
    }
}

/// The values of which a tag stands for the first one that is true.
pub open spec fn firstof_of(
    scope: Scope,
    parts_at: At,
    tokens: Seq<Result<TagElementKwargToken, LexerFault>>,
) -> Result<FirstOfView, ParseError<Seq<char>>> {
    match first_fault(tokens) {
        Some(e) => Err(ParseError::TagElementKwargLexerError(e)),
        None => {
            let all = readable(tokens);
            let binding = if binds_variable(scope.template, all) {
                as_variable(scope.template, all)
            } else {
                Ok((None, all.len() as int))
            };
            match binding {
                Err(e) => Err(e),
                Ok((asvar, count)) => if count == 0 && asvar is None {
                    Err(ParseError::MissingArgument { at: parts_at })
                } else {
                    firstof_with(asvar, elements_of(scope, all.take(count), Seq::empty()))
                },
            }
        },
    }
}

/// Placeholder text. What stands before a method or `random` is its count, whatever it is.
pub open spec fn lorem_of(scope: Scope, tokens: Seq<Result<LoremToken, LexerFault>>) -> Result<
    Lorem<int>,
    ParseError<Seq<char>>,
> {
    let one = TagElement::Int(1int);
    if tokens.len() == 0 {
        Ok(Lorem { count: one, method: LoremMethod::Blocks, common: true })
    } else {
        match tokens[0] {
            Err(e) => Err(ParseError::LoremError(e)),
            Ok(first) => if tokens.len() == 1 {
                match first.token_type {
                    LoremTokenType::Method(method) => Ok(
                        Lorem { count: one, method, common: true },
                    ),
                    LoremTokenType::Count(token) => match element_of(
                        scope,
                        token.at,
                        token.token_type,
                    ) {
                        Ok(count) => Ok(Lorem { count, method: LoremMethod::Blocks, common: true }),
                        Err(e) => Err(e),
                    },
                    LoremTokenType::Random => Ok(
                        Lorem { count: one, method: LoremMethod::Blocks, common: false },
                    ),
                }
            } else {
                match tokens[1] {
                    Err(e) => Err(ParseError::LoremError(e)),
                    Ok(second) => match variable_of(scope, first.variable, first.at) {
                        Err(e) => Err(e),
                        Ok(count) => if tokens.len() == 2 {
                            match second.token_type {
                                LoremTokenType::Method(method) => Ok(
                                    Lorem { count, method, common: true },
                                ),
                                _ => Ok(
                                    Lorem { count, method: LoremMethod::Blocks, common: false },
                                ),
                            }
                        } else {
                            match tokens[2] {
                                Err(e) => Err(ParseError::LoremError(e)),
                                Ok(_) => if tokens.len() > 3 {
                                    Err(ParseError::LoremError(tokens[3]->Err_0))
                                } else {
                                    Ok(
                                        Lorem {
                                            count,
                                            method: second.token_type->Method_0,
                                            common: false,
                                        },
                                    )
                                },
                            }
                        },
                    },
                }
            },
        }
    }
}

/// A text without its first and last character; nothing, where there are fewer than two.
pub open spec fn without_ends(text: Seq<char>) -> Seq<char> {
    if text.len() >= 2 {
        text.subrange(1, text.len() - 1)
    } else {
        ""@
    }
}

/// A text without its first and last character.
fn cut_ends(text: &str) -> (r: &str)
    ensures
        r@ == without_ends(text@),
{
    let len = text.unicode_len();
    if len >= 2 {
        text.substring_char(1, len - 1)
    } else {
        ""
    }
}

/// The current date in a format: its first and last character are left out, whatever they are.
pub open spec fn now_of(template: Seq<char>, arguments: NowArguments) -> Result<
    Now<Seq<char>>,
    ParseError<Seq<char>>,
> {
    match (arguments.format, arguments.variable, arguments.extra) {
        (Err(e), _, _) => Err(ParseError::NowError(e)),
        (_, Err(e), _) => Err(ParseError::NowError(e)),
        (_, _, Err(e)) => Err(ParseError::NowError(e)),
        (Ok(at), Ok(asvar), Ok(_)) => Ok(Now { format: without_ends(span(template, at)), asvar }),
    }
}

impl<'t> Parser<'t> {
    /// The URL that a tag at a location stands for.
    pub fn parse_url(&self, at: At, tokens: &KwargTokens) -> (r: Result<Url, ParseError<String>>)
        requires
            kwargs_wf(tokens@, self.env().template),
        ensures
            result_view(r) == url_of(self.scope(), at, tokens@),
    {
        if tokens.len() == 0 {
            return Err(ParseError::UrlTagNoArguments { at });
        }
        let view_token = match &tokens[0] {
            Ok(token) => token,
            Err(e) => {
                return Err(ParseError::TagElementKwargLexerError(*e));
            },
        };
        let view_name = self.parse_kwarg_element(view_token)?;
        let mut rest = match collect_tokens(tokens, 1, self.template_string()) {
            Ok(rest) => rest,
            Err(e) => {
                return Err(ParseError::TagElementKwargLexerError(e));
            },
        };
        let ghost all = rest@.unref();
        let asvar = match extract_as_variable(&mut rest, self.template_string()) {
            Ok(asvar) => asvar,
            Err(_) => None,
        };
        let ghost left = rest@.unref();
        assert(left =~= all.take(left.len() as int));
        let mut args: Vec<TagElement<Integer>> = Vec::new();
        let mut kwargs: Vec<(String, TagElement<Integer>)> = Vec::new();
        let mut i: usize = 0;
        assert(left.skip(0) =~= left);
        assert(views(args@) =~= Seq::<TagElement<int>>::empty());
        assert(views(kwargs@) =~= Seq::<(Seq<char>, TagElement<int>)>::empty());
        let ghost expected = sorted_arguments(self.scope(), left, Seq::empty(), Seq::empty());
        assert(url_of(self.scope(), at, tokens@) == url_with(
            at,
            view_name@,
            option_view(asvar),
            expected,
        ));
        while i < rest.len()
            invariant
                0 <= i <= rest@.len(),
                left == rest@.unref(),
                left == all.take(left.len() as int),
                left.len() <= all.len(),
                in_order(all, self.env().template),
                expected == sorted_arguments(
                    self.scope(),
                    left.skip(i as int),
                    views(args@),
                    views(kwargs@),
                ),
                url_of(self.scope(), at, tokens@) == url_with(
                    at,
                    view_name@,
                    option_view(asvar),
                    expected,
                ),
            decreases rest@.len() - i,
        {
            let token = rest[i];
            assert(*token == all[i as int]);
            assert(left.skip(i as int)[0] == *token);
            assert(left.skip(i as int).drop_first() =~= left.skip(i + 1));
            let element = match self.parse_kwarg_element(token) {
                Ok(element) => element,
                Err(e) => {
                    return Err(e);
                },
            };
            match token.kwarg {
                None => {
                    proof {
                        lemma_views_push(args@, element);
                    }
                    args.push(element);
                },
                Some(name_at) => {
                    let kwarg = (self.content(name_at).to_owned(), element);
                    proof {
                        lemma_views_push(kwargs@, kwarg);
                    }
                    kwargs.push(kwarg);
                },
            }
            i += 1;
        }
        if args.len() > 0 && kwargs.len() > 0 {
            return Err(ParseError::MixedArgsKwargs { at });
        }
        Ok(Url { at, view_name, args, kwargs, asvar })
    }

    /// The values of which a tag stands for the first one that is true.
    pub fn parse_firstof(&self, parts_at: At, tokens: &KwargTokens) -> (r: Result<
        FirstOf,
        ParseError<String>,
    >)
        requires
            kwargs_wf(tokens@, self.env().template),
        ensures
            result_view(r) == firstof_of(self.scope(), parts_at, tokens@),
    {
        assert(tokens@.skip(0) =~= tokens@);
        let mut rest = match collect_tokens(tokens, 0, self.template_string()) {
            Ok(rest) => rest,
            Err(e) => {
                return Err(ParseError::TagElementKwargLexerError(e));
            },
        };
        let ghost all = rest@.unref();
        let mut asvar: Option<String> = None;
        if rest.len() >= 2 {
            let as_at = rest[rest.len() - 2].at;
            assert(all[rest@.len() - 2].wf(self.env().template));
            if str_eq(self.content(as_at), "as") {
                asvar = extract_as_variable(&mut rest, self.template_string())?;
            }
        }
        let ghost left = rest@.unref();
        assert(left =~= all.take(left.len() as int));
        if rest.len() == 0 && asvar.is_none() {
            return Err(ParseError::MissingArgument { at: parts_at });
        }
        let mut vars: Vec<TagElement<Integer>> = Vec::new();
        let mut i: usize = 0;
        let ghost expected = elements_of(self.scope(), left, Seq::empty());
        assert(firstof_of(self.scope(), parts_at, tokens@) == firstof_with(
            option_view(asvar),
            expected,
        ));
        assert(left.skip(0) =~= left);
        assert(views(vars@) =~= Seq::<TagElement<int>>::empty());
        while i < rest.len()
            invariant
                0 <= i <= rest@.len(),
                left == rest@.unref(),
                left == all.take(left.len() as int),
                left.len() <= all.len(),
                in_order(all, self.env().template),
                expected == elements_of(self.scope(), left.skip(i as int), views(vars@)),
                firstof_of(self.scope(), parts_at, tokens@) == firstof_with(
                    option_view(asvar),
                    expected,
                ),
            decreases rest@.len() - i,
        {
            let token = rest[i];
            assert(*token == all[i as int]);
            assert(left.skip(i as int)[0] == *token);
            assert(left.skip(i as int).drop_first() =~= left.skip(i + 1));
            match self.parse_kwarg_element(token) {
                Ok(element) => {
                    proof {
                        lemma_views_push(vars@, element);
                    }
                    vars.push(element);
                },
                Err(e) => {
                    return Err(e);
                },
            }
            i += 1;
        }
        Ok(FirstOf { vars, asvar })
    }

    /// Placeholder text.
    pub fn parse_lorem(&self, tokens: &LoremTokens) -> (r: Result<
        Lorem<Integer>,
        ParseError<String>,
    >)
        requires
            lorem_wf(tokens@, self.env().template),
        ensures
            result_view(r) == lorem_of(self.scope(), tokens@),
    {
        if tokens.len() == 0 {
            let count = TagElement::Int(Integer::from_u8(1));
            return Ok(Lorem { count, method: LoremMethod::Blocks, common: true });
        }
        let first = match &tokens[0] {
            Ok(first) => first,
            Err(e) => {
                return Err(ParseError::LoremError(*e));
            },
        };
        if tokens.len() == 1 {
            return match &first.token_type {
                LoremTokenType::Method(method) => {
                    let count = TagElement::Int(Integer::from_u8(1));
                    Ok(Lorem { count, method: *method, common: true })
                },
                LoremTokenType::Count(token) => {
                    let count = self.parse_element(token)?;
                    Ok(Lorem { count, method: LoremMethod::Blocks, common: true })
                },
                LoremTokenType::Random => {
                    let count = TagElement::Int(Integer::from_u8(1));
                    Ok(Lorem { count, method: LoremMethod::Blocks, common: false })
                },
            };
        }
        let second = match &tokens[1] {
            Ok(second) => second,
            Err(e) => {
                return Err(ParseError::LoremError(*e));
            },
        };
        let count = self.parse_variable(&first.variable, first.at)?;
        if tokens.len() == 2 {
            return match &second.token_type {
                LoremTokenType::Method(method) => Ok(
                    Lorem { count, method: *method, common: true },
                ),
                _ => Ok(Lorem { count, method: LoremMethod::Blocks, common: false }),
            };
        }
        if let Err(e) = &tokens[2] {
            return Err(ParseError::LoremError(*e));
        }
        if tokens.len() > 3 {
            return match &tokens[3] {
                Err(e) => Err(ParseError::LoremError(*e)),
                Ok(_) => vstd::pervasive::unreached(),
            };
        }
        match &second.token_type {
            LoremTokenType::Method(method) => Ok(Lorem { count, method: *method, common: false }),
            _ => vstd::pervasive::unreached(),
        }
    }

    /// The current date in a format.
    pub fn parse_now(&self, arguments: &NowArguments) -> (r: Result<
        Now<String>,
        ParseError<String>,
    >)
        requires
            arguments.format matches Ok(at) ==> is_span(self.env().template, at),
        ensures
            result_view(r) == now_of(self.env().template, *arguments),
    {
        let format_at = match &arguments.format {
            Ok(at) => *at,
            Err(e) => {
                return Err(ParseError::NowError(*e));
            },
        };
        let asvar = match &arguments.variable {
            Ok(asvar) => *asvar,
            Err(e) => {
                return Err(ParseError::NowError(*e));
            },
        };
        if let Err(e) = &arguments.extra {
            return Err(ParseError::NowError(*e));
        }
        let format = cut_ends(self.content(format_at)).to_owned();
        Ok(Now { format, asvar })
    }
}

/// What is reported of the first name of a for loop that could not be read.
pub open spec fn first_name_fault(names: Seq<Result<ForVariableNameToken, LexerFault>>) -> Option<
    LexerFault,
>
    decreases names.len(),
{
    if names.len() == 0 {
        None
    } else {
        match names[0] {
            Err(e) => Some(e),
            Ok(_) => first_name_fault(names.drop_first()),
        }
    }
}

/// The names of a for loop.
pub open spec fn for_names(
    template: Seq<char>,
    names: Seq<Result<ForVariableNameToken, LexerFault>>,
) -> Seq<Seq<char>> {
    names.map_values(
        |name: Result<ForVariableNameToken, LexerFault>| span(template, name->Ok_0.at),
    )
}

/// The location from the first name of a for loop to the last.
pub open spec fn for_names_at(names: Seq<Result<ForVariableNameToken, LexerFault>>) -> At {
    let first = names[0]->Ok_0.at;
    let last = names.last()->Ok_0.at;
    (first.0, (last.0 - first.0 + last.1) as usize)
}

/// What is wrong where the word `in` is not found after the names of a for loop: where the last
/// name is `in`, a name before it is missing.
pub open spec fn in_error(
    template: Seq<char>,
    names: Seq<Result<ForVariableNameToken, LexerFault>>,
    error: ForLexerInError,
) -> ParseError<Seq<char>> {
    let last = names.last()->Ok_0.at;
    if span(template, last) != "in"@ {
        ParseError::ForLexerInError(error)
    } else if error is MissingComma && names.len() >= 2 {
        ParseError::ForParseError(
            ForParseError::MissingVariable { at: names[names.len() - 2]->Ok_0.at },
        )
    } else {
        ParseError::ForParseError(ForParseError::MissingVariableBeforeIn { at: last })
    }
}

/// What a for loop iterates over, the names that it binds, and whether it runs backwards.
pub open spec fn for_loop_of(scope: Scope, arguments: ForArguments, at: At) -> Result<
    (ForIterable<int>, ForNamesView, bool),
    ParseError<Seq<char>>,
> {
    let names = arguments.variable_names@;
    match first_name_fault(names) {
        Some(e) => Err(ParseError::ForLexerError(e)),
        None => if names.len() == 0 {
            Err(ParseError::ForParseError(ForParseError::MissingVariableNames { at }))
        } else {
            match (arguments.in_keyword, arguments.expression, arguments.reversed) {
                (Err(error), _, _) => Err(in_error(scope.template, names, error)),
                (_, Err(e), _) => Err(ParseError::ForLexerError(e)),
                (_, _, Err(e)) => Err(ParseError::ForLexerError(e)),
                (Ok(_), Ok(expression), Ok(reversed)) => if expression.token_type is Numeric {
                    Err(
                        ParseError::NotIterable {
                            literal: span(scope.template, expression.at),
                            at: expression.at,
                        },
                    )
                } else {
                    match element_of(scope, expression.at, expression.token_type) {
                        Err(e) => Err(e),
                        Ok(iterable) => Ok(
                            (
                                ForIterable { iterable, at: expression.at },
                                ForNamesView {
                                    names: for_names(scope.template, names),
                                    at: for_names_at(names),
                                },
                                reversed,
                            ),
                        ),
                    }
                },
            }
        },
    }
}

/// The names of a for loop, unless one of them could not be read.
fn parse_for_names(
    parser: &Parser<'_>,
    names: &Vec<Result<ForVariableNameToken, LexerFault>>,
) -> (r: Result<Vec<String>, LexerFault>)
    requires
        forall|i: int|
            0 <= i < names@.len() ==> match #[trigger] names@[i] {
                Ok(token) => is_span(parser.env().template, token.at),
                Err(_) => true,
            },
    ensures
        match r {
            Ok(texts) => {
                &&& first_name_fault(names@) is None
                &&& views(texts@) == for_names(parser.env().template, names@)
                &&& forall|i: int| 0 <= i < names@.len() ==> (#[trigger] names@[i]) is Ok
            },
            Err(e) => first_name_fault(names@) == Some(e),
        },
{
    let mut texts: Vec<String> = Vec::new();
    let mut i: usize = 0;
    let ghost template = parser.env().template;
    assert(names@.skip(0) =~= names@);
    while i < names.len()
        invariant
            0 <= i <= names@.len(),
            template == parser.env().template,
            forall|j: int|
                0 <= j < names@.len() ==> match #[trigger] names@[j] {
                    Ok(token) => is_span(parser.env().template, token.at),
                    Err(_) => true,
                },
            forall|j: int| 0 <= j < i ==> (#[trigger] names@[j]) is Ok,
            texts@.len() == i,
            forall|j: int|
                0 <= j < i ==> (#[trigger] texts@[j])@ == span(template, names@[j]->Ok_0.at),
            first_name_fault(names@) == first_name_fault(names@.skip(i as int)),
        decreases names@.len() - i,
    {
        assert(names@.skip(i as int)[0] == names@[i as int]);
        assert(names@.skip(i as int).drop_first() =~= names@.skip(i + 1));
        match &names[i] {
            Ok(token) => texts.push(parser.content(token.at).to_owned()),
            Err(e) => {
                return Err(*e);
            },
        }
        i += 1;
    }
    assert(views(texts@) =~= for_names(template, names@));
    Ok(texts)
}

/// What a for loop at a location iterates over, the names that it binds, and whether it runs
/// backwards.
pub fn parse_for_loop(parser: &Parser<'_>, arguments: &ForArguments, at: At) -> (r: Result<
    (ForIterable<Integer>, ForNames, bool),
    ParseError<String>,
>)
    requires
        arguments.wf(parser.env().template),
    ensures
        match r {
            Ok((iterable, names, reversed)) => for_loop_of(parser.scope(), *arguments, at) == Ok::<
                _,
                ParseError<Seq<char>>,
            >((iterable@, names@, reversed)),
            Err(e) => for_loop_of(parser.scope(), *arguments, at) == Err::<
                (ForIterable<int>, ForNamesView, bool),
                _,
            >(e@),
        },
{
    let tokens = &arguments.variable_names;
    let names = match parse_for_names(parser, tokens) {
        Ok(names) => names,
        Err(e) => {
            return Err(ParseError::ForLexerError(e));
        },
    };
    let len = tokens.len();
    if len == 0 {
        return Err(ParseError::ForParseError(ForParseError::MissingVariableNames { at }));
    }
    let first_at = for_name_at(tokens, 0);
    let last_at = for_name_at(tokens, len - 1);
    assert(tokens@[0]->Ok_0.at.0 <= tokens@[len - 1]->Ok_0.at.0);
    assert(is_span(parser.env().template, tokens@[len - 1]->Ok_0.at));
    let variables_at = (first_at.0, last_at.0 - first_at.0 + last_at.1);
    if let Err(error) = &arguments.in_keyword {
        if !str_eq(parser.content(last_at), "in") {
            return Err(ParseError::ForLexerInError(*error));
        }
        if let ForLexerInError::MissingComma { .. } = error {
            if len >= 2 {
                let at = for_name_at(tokens, len - 2);
                return Err(ParseError::ForParseError(ForParseError::MissingVariable { at }));
            }
        }
        return Err(
            ParseError::ForParseError(ForParseError::MissingVariableBeforeIn { at: last_at }),
        );
    }
    let expression = match &arguments.expression {
        Ok(expression) => expression,
        Err(e) => {
            return Err(ParseError::ForLexerError(*e));
        },
    };
    let reversed = match &arguments.reversed {
        Ok(reversed) => *reversed,
        Err(e) => {
            return Err(ParseError::ForLexerError(*e));
        },
    };
    if let TagElementTokenType::Numeric(_) = &expression.token_type {
        return Err(
            ParseError::NotIterable {
                literal: parser.content(expression.at).to_owned(),
                at: expression.at,
            },
        );
    }
    let iterable = parser.parse_element_at(expression.at, &expression.token_type)?;
    Ok(
        (
            ForIterable { iterable, at: expression.at },
            ForNames { names, at: variables_at },
            reversed,
        ),
    )
}

/// The location of one of the names of a for loop.
fn for_name_at(names: &Vec<Result<ForVariableNameToken, LexerFault>>, i: usize) -> (r: At)
    requires
        i < names@.len(),
        names@[i as int] is Ok,
    ensures
        r == names@[i as int]->Ok_0.at,
{
    match &names[i] {
        Ok(token) => token.at,
        Err(_) => vstd::pervasive::unreached(),
    }
}

/// The name of a template to render in place of a tag: what a string literal names may be relative
/// to the template at hand.
pub open spec fn template_name_of(
    scope: Scope,
    token: IncludeTemplateToken,
    relative_path: Result<Option<String>, LexerFault>,
) -> Result<IncludeTemplateName<int, Seq<char>>, ParseError<Seq<char>>> {
    let at = token.content_location();
    match token.token_type {
        IncludeTemplateTokenType::Text => match relative_path {
            Err(e) => Err(ParseError::RelativePathError(e)),
            Ok(Some(path)) => Ok(
                IncludeTemplateName::Relative(RelativePath { at, path: path@ }),
            ),
            Ok(None) => Ok(IncludeTemplateName::Text(Text { at })),
        },
        IncludeTemplateTokenType::Variable(variable) => match variable_of(scope, variable, at) {
            Ok(element) => Ok(IncludeTemplateName::Variable(element)),
            Err(e) => Err(e),
        },
    }
}

/// The words that follow the name of a template: where `only` and `with` stand.
pub open spec fn with_or_only(arguments: IncludeArguments) -> Result<
    (Option<At>, Option<At>),
    ParseError<Seq<char>>,
> {
    match arguments.first {
        Err(e) => Err(ParseError::IncludeLexerError(e)),
        Ok(IncludeWithToken::End) => Ok((None, None)),
        Ok(IncludeWithToken::With(at)) => Ok((None, Some(at))),
        Ok(IncludeWithToken::Only(at)) => match arguments.second {
            Err(e) => Err(ParseError::IncludeLexerError(e)),
            Ok(IncludeWithToken::End) => Ok((Some(at), None)),
            Ok(IncludeWithToken::Only(second_at)) => Err(
                ParseError::IncludeOnlyTwice { first_at: at, second_at },
            ),
            Ok(IncludeWithToken::With(with_at)) => Ok((Some(at), Some(with_at))),
        },
    }
}

/// The elements with keywords that follow `with`, after some that were before, and where `only`
/// stands.
pub open spec fn include_kwargs(
    scope: Scope,
    tokens: Seq<Result<IncludeToken, LexerFault>>,
    only: Option<At>,
    kwargs: Seq<(At, TagElement<int>)>,
) -> Result<(Option<At>, Seq<(At, TagElement<int>)>), ParseError<Seq<char>>>
    decreases tokens.len(),
{
    if tokens.len() == 0 {
        Ok((only, kwargs))
    } else {
        match tokens[0] {
            Err(e) => Err(ParseError::IncludeLexerError(e)),
            Ok(IncludeToken::Only(at)) => match only {
                None => include_kwargs(scope, tokens.drop_first(), Some(at), kwargs),
                Some(first_at) => Err(ParseError::IncludeOnlyTwice { first_at, second_at: at }),
            },
            Ok(IncludeToken::Kwarg { kwarg_at, token }) => match element_of(
                scope,
                token.at,
                token.token_type,
            ) {
                Err(e) => Err(e),
                Ok(element) => include_kwargs(
                    scope,
                    tokens.drop_first(),
                    only,
                    kwargs.push((kwarg_at, element)),
                ),
            },
        }
    }
}

/// Where `only` stands and the elements with keywords, once it is known where `with` stands.
pub open spec fn include_options(
    scope: Scope,
    tokens: Seq<Result<IncludeToken, LexerFault>>,
    only: Option<At>,
    with: Option<At>,
) -> Result<(Option<At>, Seq<(At, TagElement<int>)>), ParseError<Seq<char>>> {
    match with {
        None => Ok((only, Seq::empty())),
        Some(with_at) => match include_kwargs(scope, tokens, only, Seq::empty()) {
            Err(e) => Err(e),
            Ok((only, kwargs)) => if kwargs.len() == 0 {
                Err(ParseError::MissingKeywordArgument { at: with_at })
            } else {
                Ok((only, kwargs))
            },
        },
    }
}

/// The template that a tag at a location is to be replaced by.
pub open spec fn include_of(
    scope: Scope,
    engine: PyObject,
    origin: Option<Seq<char>>,
    at: At,
    arguments: IncludeArguments,
) -> Result<IncludeView, ParseError<Seq<char>>> {
    match arguments.template {
        Err(e) => Err(ParseError::IncludeLexerError(e)),
        Ok(None) => Err(ParseError::MissingArgument { at }),
        Ok(Some(token)) => match template_name_of(scope, token, arguments.relative_path) {
            Err(e) => Err(e),
            Ok(template_name) => match with_or_only(arguments) {
                Err(e) => Err(e),
                Ok((only, with)) => match include_options(scope, arguments.rest@, only, with) {
                    Err(e) => Err(e),
                    Ok((only, kwargs)) => Ok(
                        IncludeView { template_name, origin, engine, only: only is Some, kwargs },
                    ),
                },
            },
        },
    }
}

/// The name of a template to render in place of a tag.
fn parse_include_template_token(
    parser: &Parser<'_>,
    token: &IncludeTemplateToken,
    relative_path: &Result<Option<String>, LexerFault>,
) -> (r: Result<IncludeTemplateName<Integer, String>, ParseError<String>>)
    requires
        token.wf(parser.env().template),
    ensures
        result_view(r) == template_name_of(parser.scope(), *token, *relative_path),
{
    match &token.token_type {
        IncludeTemplateTokenType::Text => {
            let at = text_content_at(token.at);
            match relative_path {
                Err(e) => Err(ParseError::RelativePathError(*e)),
                Ok(Some(path)) => Ok(
                    IncludeTemplateName::Relative(RelativePath { at, path: path.clone() }),
                ),
                Ok(None) => Ok(IncludeTemplateName::Text(Text::new(at))),
            }
        },
        IncludeTemplateTokenType::Variable(variable) => Ok(
            IncludeTemplateName::Variable(parser.parse_variable(variable, token.at)?),
        ),
    }
}

/// Where `only` and `with` stand after the name of a template.
fn parse_with_or_only(arguments: &IncludeArguments) -> (r: Result<
    (Option<At>, Option<At>),
    ParseError<String>,
>)
    ensures
        match r {
            Ok(words) => with_or_only(*arguments) == Ok::<_, ParseError<Seq<char>>>(words),
            Err(e) => with_or_only(*arguments) == Err::<(Option<At>, Option<At>), _>(e@),
        },
{
    match &arguments.first {
        Err(e) => Err(ParseError::IncludeLexerError(*e)),
        Ok(IncludeWithToken::End) => Ok((None, None)),
        Ok(IncludeWithToken::With(at)) => Ok((None, Some(*at))),
        Ok(IncludeWithToken::Only(at)) => match &arguments.second {
            Err(e) => Err(ParseError::IncludeLexerError(*e)),
            Ok(IncludeWithToken::End) => Ok((Some(*at), None)),
            Ok(IncludeWithToken::Only(second_at)) => Err(
                ParseError::IncludeOnlyTwice { first_at: *at, second_at: *second_at },
            ),
            Ok(IncludeWithToken::With(with_at)) => Ok((Some(*at), Some(*with_at))),
        },
    }
}

/// The elements with keywords that follow `with`, and where `only` stands.
fn parse_include_kwargs(
    parser: &Parser<'_>,
    tokens: &Vec<Result<IncludeToken, LexerFault>>,
    first_only: Option<At>,
) -> (r: Result<(Option<At>, Vec<(At, TagElement<Integer>)>), ParseError<String>>)
    requires
        forall|i: int|
            0 <= i < tokens@.len() ==> match #[trigger] tokens@[i] {
                Ok(IncludeToken::Kwarg { kwarg_at, token }) => {
                    is_span(parser.env().template, kwarg_at) && token.wf(parser.env().template)
                },
                _ => true,
            },
    ensures
        match r {
            Ok((only, kwargs)) => include_kwargs(
                parser.scope(),
                tokens@,
                first_only,
                Seq::empty(),
            ) == Ok::<_, ParseError<Seq<char>>>((only, located_views(kwargs@))),
            Err(e) => include_kwargs(parser.scope(), tokens@, first_only, Seq::empty()) == Err::<
                (Option<At>, Seq<(At, TagElement<int>)>),
                _,
            >(e@),
        },
{
    let mut only = first_only;
    let mut kwargs: Vec<(At, TagElement<Integer>)> = Vec::new();
    let mut i: usize = 0;
    assert(tokens@.skip(0) =~= tokens@);
    assert(located_views(kwargs@) =~= Seq::<(At, TagElement<int>)>::empty());
    while i < tokens.len()
        invariant
            0 <= i <= tokens@.len(),
            forall|j: int|
                0 <= j < tokens@.len() ==> match #[trigger] tokens@[j] {
                    Ok(IncludeToken::Kwarg { kwarg_at, token }) => {
                        is_span(parser.env().template, kwarg_at) && token.wf(parser.env().template)
                    },
                    _ => true,
                },
            include_kwargs(parser.scope(), tokens@, first_only, Seq::empty()) == include_kwargs(
                parser.scope(),
                tokens@.skip(i as int),
                only,
                located_views(kwargs@),
            ),
        decreases tokens@.len() - i,
    {
        assert(tokens@.skip(i as int)[0] == tokens@[i as int]);
        assert(tokens@.skip(i as int).drop_first() =~= tokens@.skip(i + 1));
        match &tokens[i] {
            Err(e) => {
                return Err(ParseError::IncludeLexerError(*e));
            },
            Ok(IncludeToken::Only(at)) => match only {
                None => {
                    only = Some(*at);
                },
                Some(first_at) => {
                    return Err(ParseError::IncludeOnlyTwice { first_at, second_at: *at });
                },
            },
            Ok(IncludeToken::Kwarg { kwarg_at, token }) => {
                let element = match parser.parse_element(token) {
                    Ok(element) => element,
                    Err(e) => {
                        return Err(e);
                    },
                };
                let ghost before = located_views(kwargs@);
                kwargs.push((*kwarg_at, element));
                assert(located_views(kwargs@) =~= before.push((*kwarg_at, element@)));
            },
        }
        i += 1;
    }
    Ok((only, kwargs))
}

impl<'t> Parser<'t> {
    /// The template that a tag at a location is to be replaced by.
    pub fn parse_include(&self, at: At, arguments: &IncludeArguments) -> (r: Result<
        Include,
        ParseError<String>,
    >)
        requires
            arguments.wf(self.env().template),
        ensures
            result_view(r) == include_of(
                self.scope(),
                self.env().engine,
                self.env().origin,
                at,
                *arguments,
            ),
    {
        let token = match &arguments.template {
            Err(e) => {
                return Err(ParseError::IncludeLexerError(*e));
            },
            Ok(None) => {
                return Err(ParseError::MissingArgument { at });
            },
            Ok(Some(token)) => token,
        };
        let template_name = parse_include_template_token(self, token, &arguments.relative_path)?;
        let (first_only, with) = parse_with_or_only(arguments)?;
        let mut only = first_only;
        let mut kwargs: Vec<(At, TagElement<Integer>)> = Vec::new();
        assert(located_views(kwargs@) =~= Seq::<(At, TagElement<int>)>::empty());
        if let Some(with_at) = with {
            let (last_only, with_kwargs) = parse_include_kwargs(self, &arguments.rest, first_only)?;
            if with_kwargs.len() == 0 {
                return Err(ParseError::MissingKeywordArgument { at: with_at });
            }
            only = last_only;
            kwargs = with_kwargs;
        }
        Ok(
            Include {
                template_name,
                origin: self.origin_string(),
                engine: self.engine(),
                only: only.is_some(),
                kwargs,
            },
        )
    }
}

} // verus!
