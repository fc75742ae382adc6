//! Variables, literals and filters.
use vstd::prelude::*;
use vstd::string::*;
use crate::dict::option_view;
use crate::filters::{
    AddFilter, AddSlashesFilter, CapfirstFilter, CenterFilter, CutFilter, DateFilter,
    DefaultFilter, DefaultIfNoneFilter, DivisibleByFilter, EscapeFilter, EscapejsFilter,
    ExternalFilter, FilterType, ForceEscapeFilter, LastFilter, LengthFilter, LowerFilter,
    SafeFilter, SlugifyFilter, TitleFilter, UpperFilter, WordcountFilter, WordwrapFilter,
    YesnoFilter,
};
use crate::integer::{decimal, Integer};
use crate::lexer::tokens::{
    text_content, text_content_at, translated_text_content, translated_text_content_at,
    variable_wf, ArgumentToken, FilterToken, LexedVariable, TagElementKwargToken,
    TagElementToken, TagElementTokenType, VariableLexerError, VariableSource, VariableToken,
};
use crate::parse::errors::{result_view, ParseError};
use crate::parse::parser::{Parser, Scope};
use crate::parse::tree::{variable_element, Filter, TagElement};
use crate::text::{is_span, span, str_eq, At};
use crate::types::{
    variable_argument, Argument, ArgumentType, Either, Float, ForVariable, ForVariableName, Text,
    TranslatedText, Variable,
};
use crate::words::{char_lists, split, split_on, trim, trimmed_equals};

verus! {

/// What the last part of a `forloop` variable asks of the loop.
pub open spec fn for_variable_name(part: Seq<char>) -> Option<ForVariableName> {
    if part == "counter"@ {
        Some(ForVariableName::Counter)
    } else if part == "counter0"@ {
        Some(ForVariableName::Counter0)
    } else if part == "revcounter"@ {
        Some(ForVariableName::RevCounter)
    } else if part == "revcounter0"@ {
        Some(ForVariableName::RevCounter0)
    } else if part == "first"@ {
        Some(ForVariableName::First)
    } else if part == "last"@ {
        Some(ForVariableName::Last)
    } else if part == "parentloop"@ {
        Some(ForVariableName::Object)
    } else {
        None
    }
}

/// Whether the parts from one position up to another all ask for the loop around.
pub open spec fn all_parent_loops(parts: Seq<Seq<char>>, from: int, to: int) -> bool {
    forall|i: int| from <= i < to ==> trim(#[trigger] parts[i]) == "parentloop"@
}

/// What a variable means within some for loops: one that asks for the current loop, or for one
/// of the loops around it, is a `forloop` variable if there are as many loops as that.
pub open spec fn for_variable(text: Seq<char>, forloop_depth: int, at: At) -> Either<
    Variable,
    ForVariable,
> {
    let parts = split_on(text, '.');
    let plain = Either::Left(Variable { at });
    if forloop_depth == 0 || trim(parts[0]) != "forloop"@ {
        plain
    } else if parts.len() == 1 {
        Either::Right(ForVariable { variant: ForVariableName::Object, parent_count: 0, at })
    } else {
        match for_variable_name(trim(parts.last())) {
            None => plain,
            Some(variant) => {
                let parents = parts.len() - 2 + if variant is Object {
                    1int
                } else {
                    0int
                };
                if all_parent_loops(parts, 1, parts.len() - 1) && parents <= forloop_depth {
                    Either::Right(ForVariable { variant, parent_count: parents as usize, at })
                } else {
                    plain
                }
            },
        }
    }
}

/// What the last part of a `forloop` variable asks of the loop.
fn parse_for_variable_name(part: &Vec<char>) -> (r: Option<ForVariableName>)
    ensures
        r == for_variable_name(trim(part@)),
{
    if trimmed_equals(part, "counter") {
        Some(ForVariableName::Counter)
    } else if trimmed_equals(part, "counter0") {
        Some(ForVariableName::Counter0)
    } else if trimmed_equals(part, "revcounter") {
        Some(ForVariableName::RevCounter)
    } else if trimmed_equals(part, "revcounter0") {
        Some(ForVariableName::RevCounter0)
    } else if trimmed_equals(part, "first") {
        Some(ForVariableName::First)
    } else if trimmed_equals(part, "last") {
        Some(ForVariableName::Last)
    } else if trimmed_equals(part, "parentloop") {
        Some(ForVariableName::Object)
    } else {
        None
    }
}

/// What a number reads as: an integer, or else what is given.
pub open spec fn number(text: Seq<char>, float: Option<Float>, at: At) -> Result<
    TagElement<int>,
    ParseError<Seq<char>>,
> {
    match decimal(text) {
        Some(n) => Ok(TagElement::Int(n)),
        None => match float {
            Some(f) => Ok(TagElement::Float(f)),
            None => Err(ParseError::InvalidNumber { at }),
        },
    }
}

/// Reads a number: `float` is what it reads as where it is no integer.
pub fn parse_numeric(content: &str, float: Option<Float>, at: At) -> (r: Result<
    TagElement<Integer>,
    ParseError<String>,
>)
    ensures
        result_view(r) == number(content@, float, at),
{
    match Integer::parse(content) {
        Some(n) => Ok(TagElement::Int(n)),
        None => match float {
            Some(f) => Ok(TagElement::Float(f)),
            None => Err(ParseError::InvalidNumber { at }),
        },
    }
}

/// A filter that needs its argument.
pub open spec fn with_argument(
    at: At,
    right: Option<Argument<int>>,
    filter: spec_fn(Argument<int>) -> FilterType<int>,
) -> Result<FilterType<int>, ParseError<Seq<char>>> {
    match right {
        Some(argument) => Ok(filter(argument)),
        None => Err(ParseError::MissingArgument { at }),
    }
}

/// A filter that takes no argument.
pub open spec fn without_argument(
    name: Seq<char>,
    right: Option<Argument<int>>,
    filter: FilterType<int>,
) -> Result<FilterType<int>, ParseError<Seq<char>>> {
    match right {
        Some(argument) => Err(ParseError::UnexpectedArgument { filter: name, at: argument.at }),
        None => Ok(filter),
    }
}

/// The filter with a name, at a location, with or without an argument.
pub open spec fn filter_type(
    scope: Scope,
    name: Seq<char>,
    at: At,
    right: Option<Argument<int>>,
) -> Result<FilterType<int>, ParseError<Seq<char>>> {
    if name == "add"@ {
        with_argument(at, right, |argument| FilterType::Add(AddFilter { argument }))
    } else if name == "addslashes"@ {
        without_argument(name, right, FilterType::AddSlashes(AddSlashesFilter))
    } else if name == "capfirst"@ {
        without_argument(name, right, FilterType::Capfirst(CapfirstFilter))
    } else if name == "center"@ {
        with_argument(at, right, |argument| FilterType::Center(CenterFilter { argument }))
    } else if name == "cut"@ {
        with_argument(at, right, |argument| FilterType::Cut(CutFilter { argument }))
    } else if name == "default"@ {
        with_argument(at, right, |argument| FilterType::Default(DefaultFilter { argument, at }))
    } else if name == "default_if_none"@ {
        with_argument(
            at,
            right,
            |argument| FilterType::DefaultIfNone(DefaultIfNoneFilter { argument }),
        )
    } else if name == "divisibleby"@ {
        match right {
            Some(argument) if argument.argument_type == ArgumentType::Int(0int) => Err(
                ParseError::DivisibleByZero { at: argument.at },
            ),
            _ => with_argument(
                at,
                right,
                |argument| FilterType::DivisibleBy(DivisibleByFilter { at, argument }),
            ),
        }
    } else if name == "date"@ {
        Ok(FilterType::Date(DateFilter { argument: right, at }))
    } else if name == "escape"@ {
        without_argument(name, right, FilterType::Escape(EscapeFilter))
    } else if name == "escapejs"@ {
        without_argument(name, right, FilterType::Escapejs(EscapejsFilter))
    } else if name == "force_escape"@ {
        without_argument(name, right, FilterType::ForceEscape(ForceEscapeFilter))
    } else if name == "last"@ {
        without_argument(name, right, FilterType::Last(LastFilter { at }))
    } else if name == "lower"@ {
        without_argument(name, right, FilterType::Lower(LowerFilter))
    } else if name == "length"@ {
        without_argument(name, right, FilterType::Length(LengthFilter))
    } else if name == "safe"@ {
        without_argument(name, right, FilterType::Safe(SafeFilter))
    } else if name == "slugify"@ {
        without_argument(name, right, FilterType::Slugify(SlugifyFilter))
    } else if name == "title"@ {
        without_argument(name, right, FilterType::Title(TitleFilter))
    } else if name == "upper"@ {
        without_argument(name, right, FilterType::Upper(UpperFilter))
    } else if name == "wordcount"@ {
        without_argument(name, right, FilterType::Wordcount(WordcountFilter))
    } else if name == "wordwrap"@ {
        with_argument(at, right, |argument| FilterType::Wordwrap(WordwrapFilter { argument }))
    } else if name == "yesno"@ {
        Ok(FilterType::Yesno(YesnoFilter { at, argument: right }))
    } else if scope.external_filters.contains_key(name) {
        Ok(
            FilterType::External(
                ExternalFilter { filter: scope.external_filters[name], argument: right },
            ),
        )
    } else {
        Err(ParseError::InvalidFilter { at, filter: name })
    }
}

/// The filter at a location, applied to a value.
pub open spec fn filter_of(
    scope: Scope,
    at: At,
    all_at: At,
    left: TagElement<int>,
    right: Option<Argument<int>>,
) -> Result<Filter<int>, ParseError<Seq<char>>> {
    match filter_type(scope, span(scope.template, at), at, right) {
        Ok(filter) => Ok(Filter { at, all_at, left, filter }),
        Err(e) => Err(e),
    }
}

/// The error of a filter that got an argument and takes none.
fn unexpected_argument(filter: &str, right: Argument<Integer>) -> (r: ParseError<String>)
    ensures
        r@ == (ParseError::UnexpectedArgument { filter: filter@, at: right.at }),
{
    ParseError::UnexpectedArgument { filter: filter.to_owned(), at: right.at }
}

/// A filter that takes no argument.
fn expect_no_argument(
    name: &str,
    right: Option<Argument<Integer>>,
    filter: FilterType<Integer>,
) -> (r: Result<FilterType<Integer>, ParseError<String>>)
    ensures
        result_view(r) == without_argument(name@, option_view(right), filter@),
{
    match right {
        Some(right) => Err(unexpected_argument(name, right)),
        None => Ok(filter),
    }
}

impl Filter<Integer> {
    /// The filter whose name stands at `at`, applied to `left` with the argument `right`.
    pub fn new(
        parser: &Parser<'_>,
        at: At,
        all_at: At,
        left: TagElement<Integer>,
        right: Option<Argument<Integer>>,
    ) -> (r: Result<Self, ParseError<String>>)
        requires
            is_span(parser.env().template, at),
        ensures
            result_view(r) == filter_of(parser.scope(), at, all_at, left@, option_view(right)),
    {
        let filter = filter_type_at(parser, at, right)?;
        Ok(Filter { at, all_at, left, filter })
    }
}

/// The filter whose name stands at `at`, with the argument `right`.
fn filter_type_at(parser: &Parser<'_>, at: At, right: Option<Argument<Integer>>) -> (r: Result<
    FilterType<Integer>,
    ParseError<String>,
>)
    requires
        is_span(parser.env().template, at),
    ensures
        result_view(r) == filter_type(
            parser.scope(),
            span(parser.env().template, at),
            at,
            option_view(right),
        ),
{
    let name = parser.content(at);
    if str_eq(name, "add") {
        match right {
            Some(argument) => Ok(FilterType::Add(AddFilter { argument })),
            None => Err(ParseError::MissingArgument { at }),
        }
    } else if str_eq(name, "addslashes") {
        expect_no_argument(name, right, FilterType::AddSlashes(AddSlashesFilter))
    } else if str_eq(name, "capfirst") {
        expect_no_argument(name, right, FilterType::Capfirst(CapfirstFilter))
    } else if str_eq(name, "center") {
        match right {
            Some(argument) => Ok(FilterType::Center(CenterFilter { argument })),
            None => Err(ParseError::MissingArgument { at }),
        }
    } else if str_eq(name, "cut") {
        match right {
            Some(argument) => Ok(FilterType::Cut(CutFilter { argument })),
            None => Err(ParseError::MissingArgument { at }),
        }
    } else if str_eq(name, "default") {
        match right {
            Some(argument) => Ok(FilterType::Default(DefaultFilter { argument, at })),
            None => Err(ParseError::MissingArgument { at }),
        }
    } else if str_eq(name, "default_if_none") {
        match right {
            Some(argument) => Ok(FilterType::DefaultIfNone(DefaultIfNoneFilter { argument })),
            None => Err(ParseError::MissingArgument { at }),
        }
    } else if str_eq(name, "divisibleby") {
        match right {
            Some(argument) => {
                if let ArgumentType::Int(n) = &argument.argument_type {
                    if n.is_zero() {
                        return Err(ParseError::DivisibleByZero { at: argument.at });
                    }
                }
                Ok(FilterType::DivisibleBy(DivisibleByFilter { at, argument }))
            },
            None => Err(ParseError::MissingArgument { at }),
        }
    } else if str_eq(name, "date") {
        Ok(FilterType::Date(DateFilter { argument: right, at }))
    } else if str_eq(name, "escape") {
        expect_no_argument(name, right, FilterType::Escape(EscapeFilter))
    } else if str_eq(name, "escapejs") {
        expect_no_argument(name, right, FilterType::Escapejs(EscapejsFilter))
    } else if str_eq(name, "force_escape") {
        expect_no_argument(name, right, FilterType::ForceEscape(ForceEscapeFilter))
    } else if str_eq(name, "last") {
        expect_no_argument(name, right, FilterType::Last(LastFilter { at }))
    } else if str_eq(name, "lower") {
        expect_no_argument(name, right, FilterType::Lower(LowerFilter))
    } else if str_eq(name, "length") {
        expect_no_argument(name, right, FilterType::Length(LengthFilter))
    } else if str_eq(name, "safe") {
        expect_no_argument(name, right, FilterType::Safe(SafeFilter))
    } else if str_eq(name, "slugify") {
        expect_no_argument(name, right, FilterType::Slugify(SlugifyFilter))
    } else if str_eq(name, "title") {
        expect_no_argument(name, right, FilterType::Title(TitleFilter))
    } else if str_eq(name, "upper") {
        expect_no_argument(name, right, FilterType::Upper(UpperFilter))
    } else if str_eq(name, "wordcount") {
        expect_no_argument(name, right, FilterType::Wordcount(WordcountFilter))
    } else if str_eq(name, "wordwrap") {
        match right {
            Some(argument) => Ok(FilterType::Wordwrap(WordwrapFilter { argument })),
            None => Err(ParseError::MissingArgument { at }),
        }
    } else if str_eq(name, "yesno") {
        Ok(FilterType::Yesno(YesnoFilter { at, argument: right }))
    } else {
        match parser.external_filter(name) {
            Some(filter) => Ok(
                FilterType::External(ExternalFilter { filter, argument: right }),
            ),
            None => Err(ParseError::InvalidFilter { at, filter: name.to_owned() }),
        }
    }
}

/// The argument of a filter.
pub open spec fn argument_of(scope: Scope, token: ArgumentToken) -> Result<
    Argument<int>,
    ParseError<Seq<char>>,
> {
    match token {
        ArgumentToken::Variable(at) => Ok(
            Argument {
                at,
                argument_type: variable_argument(
                    for_variable(span(scope.template, at), scope.forloop_depth, at),
                ),
            },
        ),
        ArgumentToken::Text(at) => Ok(
            Argument { at, argument_type: ArgumentType::Text(Text { at: text_content(at) }) },
        ),
        ArgumentToken::TranslatedText(at) => Ok(
            Argument {
                at,
                argument_type: ArgumentType::TranslatedText(
                    TranslatedText { at: translated_text_content(at) },
                ),
            },
        ),
        ArgumentToken::Numeric { at, float } => match decimal(span(scope.template, at)) {
            Some(n) => Ok(Argument { at, argument_type: ArgumentType::Int(n) }),
            None => match float {
                Some(f) => Ok(Argument { at, argument_type: ArgumentType::Float(f) }),
                None => Err(ParseError::InvalidNumber { at }),
            },
        },
    }
}

/// A filter applied to a value that starts at `start`.
pub open spec fn apply_filter(
    scope: Scope,
    start: usize,
    left: TagElement<int>,
    filter: Result<FilterToken, VariableLexerError>,
) -> Result<TagElement<int>, ParseError<Seq<char>>> {
    match filter {
        Err(e) => Err(ParseError::VariableError(e)),
        Ok(token) => {
            let argument = match token.argument {
                None => Ok(None),
                Some(argument) => match argument_of(scope, argument) {
                    Ok(argument) => Ok(Some(argument)),
                    Err(e) => Err(e),
                },
            };
            let all_at = (start, (token.at.0 - start + token.at.1) as usize);
            match argument {
                Err(e) => Err(e),
                Ok(right) => match filter_of(scope, token.at, all_at, left, right) {
                    Ok(filter) => Ok(TagElement::Filter(Box::new(filter))),
                    Err(e) => Err(e),
                },
            }
        },
    }
}

/// Filters applied to a value in turn.
pub open spec fn apply_filters(
    scope: Scope,
    start: usize,
    left: TagElement<int>,
    filters: Seq<Result<FilterToken, VariableLexerError>>,
) -> Result<TagElement<int>, ParseError<Seq<char>>>
    decreases filters.len(),
{
    if filters.len() == 0 {
        Ok(left)
    } else {
        match apply_filter(scope, start, left, filters[0]) {
            Ok(element) => apply_filters(scope, start, element, filters.drop_first()),
            Err(e) => Err(e),
        }
    }
}

/// What a variable starts with.
pub open spec fn variable_start(scope: Scope, lexed: LexedVariable) -> TagElement<int> {
    match lexed.token {
        VariableToken::Variable => variable_element(
            for_variable(span(scope.template, lexed.at), scope.forloop_depth, lexed.at),
        ),
        VariableToken::Int(n) => TagElement::Int(n@),
        VariableToken::Float(f) => TagElement::Float(f),
    }
}

/// The value of a variable with its filters, found at a location.
pub open spec fn variable_of(scope: Scope, variable: VariableSource, at: At) -> Result<
    TagElement<int>,
    ParseError<Seq<char>>,
> {
    match variable {
        Err(e) => Err(ParseError::VariableError(e)),
        Ok(None) => Err(ParseError::EmptyVariable { at }),
        Ok(Some(lexed)) => apply_filters(
            scope,
            lexed.at.0,
            variable_start(scope, lexed),
            lexed.filters@,
        ),
    }
}

/// The value of an element at a location.
pub open spec fn element_of(scope: Scope, at: At, token_type: TagElementTokenType) -> Result<
    TagElement<int>,
    ParseError<Seq<char>>,
> {
    let content_at = token_type.content_of(at);
    match token_type {
        TagElementTokenType::Numeric(float) => number(span(scope.template, content_at), float, at),
        TagElementTokenType::Text => Ok(TagElement::Text(Text { at: content_at })),
        TagElementTokenType::TranslatedText => Ok(
            TagElement::TranslatedText(Text { at: content_at }),
        ),
        TagElementTokenType::Variable(variable) => variable_of(scope, variable, content_at),
    }
}

impl<'t> Parser<'t> {
    /// What the variable at a location means within the for loops that are open.
    pub fn parse_for_variable(&self, at: At) -> (r: Either<Variable, ForVariable>)
        requires
            is_span(self.env().template, at),
        ensures
            r == for_variable(
                span(self.env().template, at),
                self.state().forloop_depth,
                at,
            ),
    {
        let parts = split(self.content(at), '.');
        let ghost views = char_lists(parts@);
        let depth = self.forloop_depth();
        assert(views[0] == parts@[0]@);
        if depth == 0 || !trimmed_equals(&parts[0], "forloop") {
            return Either::Left(Variable::new(at));
        }
        let len = parts.len();
        if len == 1 {
            return Either::Right(
                ForVariable { variant: ForVariableName::Object, parent_count: 0, at },
            );
        }
        assert(views.last() == parts@[len - 1]@);
        let variant = match parse_for_variable_name(&parts[len - 1]) {
            Some(variant) => variant,
            None => {
                return Either::Left(Variable::new(at));
            },
        };
        let mut i: usize = 1;
        while i < len - 1
            invariant
                1 <= i <= len - 1,
                len == parts@.len(),
                views == char_lists(parts@),
                all_parent_loops(views, 1, i as int),
                views == split_on(span(self.env().template, at), '.'),
                depth == self.state().forloop_depth,
                depth != 0,
                len >= 2,
                trim(views[0]) == "forloop"@,
                for_variable_name(trim(views.last())) == Some(variant),
            decreases len - i,
        {
            assert(views[i as int] == parts@[i as int]@);
            if !trimmed_equals(&parts[i], "parentloop") {
                return Either::Left(Variable::new(at));
            }
            i += 1;
        }
        let mut parent_count: usize = len - 2;
        if let ForVariableName::Object = variant {
            parent_count += 1;
        }
        if parent_count > depth {
            return Either::Left(Variable::new(at));
        }
        Either::Right(ForVariable { variant, parent_count, at })
    }

    /// The argument of a filter.
    pub fn parse_argument(&self, token: ArgumentToken) -> (r: Result<
        Argument<Integer>,
        ParseError<String>,
    >)
        requires
            token.wf(self.env().template),
        ensures
            result_view(r) == argument_of(self.scope(), token),
    {
        match token {
            ArgumentToken::Variable(at) => Ok(
                Argument { at, argument_type: ArgumentType::from(self.parse_for_variable(at)) },
            ),
            ArgumentToken::Text(at) => Ok(
                Argument { at, argument_type: ArgumentType::Text(Text::new(text_content_at(at))) },
            ),
            ArgumentToken::TranslatedText(at) => Ok(
                Argument {
                    at,
                    argument_type: ArgumentType::TranslatedText(
                        TranslatedText::new(translated_text_content_at(at)),
                    ),
                },
            ),
            ArgumentToken::Numeric { at, float } => match Integer::parse(self.content(at)) {
                Some(n) => Ok(Argument { at, argument_type: ArgumentType::Int(n) }),
                None => match float {
                    Some(f) => Ok(Argument { at, argument_type: ArgumentType::Float(f) }),
                    None => Err(ParseError::InvalidNumber { at }),
                },
            },
        }
    }

    /// A filter applied to a value that starts at `start`.
    fn parse_filter(
        &self,
        start: usize,
        left: TagElement<Integer>,
        filter: Result<FilterToken, VariableLexerError>,
    ) -> (r: Result<TagElement<Integer>, ParseError<String>>)
        requires
            filter matches Ok(token) ==> token.wf(self.env().template) && start <= token.at.0,
        ensures
            result_view(r) == apply_filter(self.scope(), start, left@, filter),
    {
        let token = match filter {
            Ok(token) => token,
            Err(e) => {
                return Err(ParseError::VariableError(e));
            },
        };
        let argument = match token.argument {
            None => None,
            Some(argument) => Some(self.parse_argument(argument)?),
        };
        let all_at = (start, token.at.0 - start + token.at.1);
        let filter = Filter::new(self, token.at, all_at, left, argument)?;
        Ok(TagElement::Filter(Box::new(filter)))
    }

    /// The value of a variable with its filters, found at a location.
    pub fn parse_variable(&self, variable: &VariableSource, at: At) -> (r: Result<
        TagElement<Integer>,
        ParseError<String>,
    >)
        requires
            variable_wf(*variable, self.env().template),
        ensures
            result_view(r) == variable_of(self.scope(), *variable, at),
    {
        let lexed = match variable {
            Err(e) => {
                return Err(ParseError::VariableError(*e));
            },
            Ok(None) => {
                return Err(ParseError::EmptyVariable { at });
            },
            Ok(Some(lexed)) => lexed,
        };
        let start = lexed.at.0;
        let mut var = match &lexed.token {
            VariableToken::Variable => TagElement::from(self.parse_for_variable(lexed.at)),
            VariableToken::Int(n) => TagElement::Int(n.duplicate()),
            VariableToken::Float(f) => TagElement::Float(*f),
        };
        let ghost first = var@;
        assert(first == variable_start(self.scope(), *lexed));
        let mut i: usize = 0;
        assert(lexed.filters@.skip(0) =~= lexed.filters@);
        while i < lexed.filters.len()
            invariant
                0 <= i <= lexed.filters@.len(),
                start == lexed.at.0,
                lexed.wf(self.env().template),
                variable_of(self.scope(), *variable, at) == apply_filters(
                    self.scope(),
                    start,
                    first,
                    lexed.filters@,
                ),
                apply_filters(self.scope(), start, first, lexed.filters@) == apply_filters(
                    self.scope(),
                    start,
                    var@,
                    lexed.filters@.skip(i as int),
                ),
            decreases lexed.filters@.len() - i,
        {
            assert(lexed.filters@.skip(i as int)[0] == lexed.filters@[i as int]);
            assert(lexed.filters@.skip(i as int).drop_first() =~= lexed.filters@.skip(i + 1));
            match self.parse_filter(start, var, lexed.filters[i]) {
                Ok(element) => {
                    var = element;
                },
                Err(e) => {
                    return Err(e);
                },
            }
            i += 1;
        }
        Ok(var)
    }

    /// The value of an element at a location.
    pub(crate) fn parse_element_at(&self, at: At, token_type: &TagElementTokenType) -> (r: Result<
        TagElement<Integer>,
        ParseError<String>,
    >)
        requires
            token_type.wf(at, self.env().template),
        ensures
            result_view(r) == element_of(self.scope(), at, *token_type),
    {
        let content_at = token_type.content_at(at);
        let content = self.content(content_at);
        match token_type {
            TagElementTokenType::Numeric(float) => parse_numeric(content, *float, at),
            TagElementTokenType::Text => Ok(TagElement::Text(Text::new(content_at))),
            TagElementTokenType::TranslatedText => Ok(
                TagElement::TranslatedText(Text::new(content_at)),
            ),
            TagElementTokenType::Variable(variable) => self.parse_variable(variable, content_at),
        }
    }

    /// The value of an element.
    pub fn parse_element(&self, token: &TagElementToken) -> (r: Result<
        TagElement<Integer>,
        ParseError<String>,
    >)
        requires
            token.wf(self.env().template),
        ensures
            result_view(r) == element_of(self.scope(), token.at, token.token_type),
    {
        self.parse_element_at(token.at, &token.token_type)
    }

    /// The value of an element that may have a keyword.
    pub fn parse_kwarg_element(&self, token: &TagElementKwargToken) -> (r: Result<
        TagElement<Integer>,
        ParseError<String>,
    >)
        requires
            token.wf(self.env().template),
        ensures
            result_view(r) == element_of(self.scope(), token.at, token.token_type),
    {
        self.parse_element_at(token.at, &token.token_type)
    }
}

} // verus!
