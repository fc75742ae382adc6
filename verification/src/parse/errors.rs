//! What can be wrong with a template.
use vstd::prelude::*;
use vstd::std_specs::convert::FromSpecImpl;
use crate::lexer::tag::TagLexerError;
use crate::lexer::tokens::{ForLexerInError, LexerError, LexerFault, VariableLexerError};
use crate::text::At;
use crate::types::PyObject;

verus! {

#[derive(Clone, Copy, Debug, PartialEq, Eq)]
pub enum ForParseError {
    /// Expected another variable when unpacking in for loop, after this variable.
    MissingVariable { at: At },
    /// Expected a variable name before the 'in' keyword.
    MissingVariableBeforeIn { at: At },
    /// Expected at least one variable name in for loop.
    MissingVariableNames { at: At },
}

/// What is wrong with a template. `S` stands for text.
#[derive(Debug, PartialEq, Eq)]
pub enum ParseError<S> {
    /// Empty variable tag.
    EmptyVariable { at: At },
    /// Expected an argument.
    MissingArgument { at: At },
    /// Expected two or more arguments.
    MissingCycleArguments { at: At },
    /// The named cycle does not exist. Define it earlier using the 'as' form.
    UnknownNamedCycle { name: S, at: At },
    /// Only the 'silent' flag is allowed after the name of a cycle.
    InvalidCycleFlag { flag: S, at: At },
    AutoescapeError(LexerFault),
    BlockError(TagLexerError),
    LexerError(LexerError),
    ForLexerError(LexerFault),
    ForLexerInError(ForLexerInError),
    ForParseError(ForParseError),
    IncludeLexerError(LexerFault),
    /// A literal that cannot be iterated over.
    NotIterable { literal: S, at: At },
    RelativePathError(LexerFault),
    TagElementKwargLexerError(LexerFault),
    VariableError(VariableLexerError),
    /// The 'only' option was specified more than once. Remove the second 'only'.
    IncludeOnlyTwice { first_at: At, second_at: At },
    /// The filter does not exist.
    InvalidFilter { filter: S, at: At },
    /// A token of a condition that is not expected in this position.
    InvalidIfPosition { token: S, at: At },
    /// Invalid divisibility check: cannot divide by zero.
    DivisibleByZero { at: At },
    /// Invalid numeric literal.
    InvalidNumber { at: At },
    /// Missing boolean expression.
    MissingBooleanExpression { at: At },
    /// A tag that is not closed, and what would close it.
    MissingEndTag { start: S, expected: S, at: At },
    /// What is no valid tag or filter in a tag library.
    MissingFilterTag { tag: S, library: S, tag_at: At, library_at: At },
    /// Expected a keyword argument after this.
    MissingKeywordArgument { at: At },
    /// What is not a registered tag library, and what is.
    MissingTagLibrary { library: S, at: At, help: S },
    /// Cannot mix positional and keyword arguments.
    MixedArgsKwargs { at: At },
    /// The view name of a URL must be a string or variable, not a number.
    NumericUrlName { at: At },
    /// A tag that must have a first argument of 'content'.
    RequiresContent { name: S, at: At },
    /// A tag that takes the context, so it must have a first argument of 'context'.
    RequiresContext { name: S, at: At },
    /// A tag that takes the context, so it must have a first argument of 'context' and a second
    /// argument of 'content'.
    RequiresContextAndContent { name: S, at: At },
    /// A tag that did not receive values for some of its arguments.
    MissingArguments { tag_name: S, missing: S, at: At },
    /// A tag that received multiple values for a keyword argument.
    DuplicateKeywordArgument { tag_name: S, kwarg_name: S, first_at: At, second_at: At },
    /// Unexpected positional argument after a keyword argument.
    PositionalAfterKeyword { at: At, after: At },
    /// Unexpected positional argument.
    TooManyPositionalArguments { at: At },
    /// Unexpected keyword argument.
    UnexpectedKeywordArgument { at: At },
    /// A filter that does not take an argument.
    UnexpectedArgument { filter: S, at: At },
    /// Unexpected end of expression, after this.
    UnexpectedEndExpression { at: At },
    /// An end tag where none is expected.
    UnexpectedEndTag { unexpected: S, at: At },
    /// An unused expression in an if tag.
    UnusedExpression { expression: S, at: At },
    /// A URL takes at least one argument, a URL pattern name.
    UrlTagNoArguments { at: At },
    /// An end tag where another one is expected.
    WrongEndTag { unexpected: S, expected: S, at: At, start_at: At },
    /// Incorrect format for a tag.
    InvalidTagFormat { tag: S, at: At },
    /// Invalid variable name.
    InvalidVariableName { at: At },
    LoremError(LexerFault),
    NowError(LexerFault),
    TemplateTagError(LexerFault),
    /// Expected a variable name after 'as'.
    MissingVariableAfterAs { at: At },
    /// Unexpected tokens after an 'as' binding. Remove the extra tokens.
    UnexpectedTokensAfterAsVariable { var_name: S, at: At },
}

impl View for ParseError<String> {
    type V = ParseError<Seq<char>>;

    open spec fn view(&self) -> ParseError<Seq<char>> {
        match *self {
            ParseError::EmptyVariable { at } => ParseError::EmptyVariable { at },
            ParseError::MissingArgument { at } => ParseError::MissingArgument { at },
            ParseError::MissingCycleArguments { at } => ParseError::MissingCycleArguments { at },
            ParseError::UnknownNamedCycle { name, at } => ParseError::UnknownNamedCycle {
                name: name@,
                at,
            },
            ParseError::InvalidCycleFlag { flag, at } => ParseError::InvalidCycleFlag {
                flag: flag@,
                at,
            },
            ParseError::AutoescapeError(e) => ParseError::AutoescapeError(e),
            ParseError::BlockError(e) => ParseError::BlockError(e),
            ParseError::LexerError(e) => ParseError::LexerError(e),
            ParseError::ForLexerError(e) => ParseError::ForLexerError(e),
            ParseError::ForLexerInError(e) => ParseError::ForLexerInError(e),
            ParseError::ForParseError(e) => ParseError::ForParseError(e),
            ParseError::IncludeLexerError(e) => ParseError::IncludeLexerError(e),
            ParseError::NotIterable { literal, at } => ParseError::NotIterable {
                literal: literal@,
                at,
            },
            ParseError::RelativePathError(e) => ParseError::RelativePathError(e),
            ParseError::TagElementKwargLexerError(e) => ParseError::TagElementKwargLexerError(e),
            ParseError::VariableError(e) => ParseError::VariableError(e),
            ParseError::IncludeOnlyTwice { first_at, second_at } => ParseError::IncludeOnlyTwice {
                first_at,
                second_at,
            },
            ParseError::InvalidFilter { filter, at } => ParseError::InvalidFilter {
                filter: filter@,
                at,
            },
            ParseError::InvalidIfPosition { token, at } => ParseError::InvalidIfPosition {
                token: token@,
                at,
            },
            ParseError::DivisibleByZero { at } => ParseError::DivisibleByZero { at },
            ParseError::InvalidNumber { at } => ParseError::InvalidNumber { at },
            ParseError::MissingBooleanExpression { at } => ParseError::MissingBooleanExpression {
                at,
            },
            ParseError::MissingEndTag { start, expected, at } => ParseError::MissingEndTag {
                start: start@,
                expected: expected@,
                at,
            },
            ParseError::MissingFilterTag { tag, library, tag_at, library_at } =>
                ParseError::MissingFilterTag { tag: tag@, library: library@, tag_at, library_at },
            ParseError::MissingKeywordArgument { at } => ParseError::MissingKeywordArgument { at },
            ParseError::MissingTagLibrary { library, at, help } => ParseError::MissingTagLibrary {
                library: library@,
                at,
                help: help@,
            },
            ParseError::MixedArgsKwargs { at } => ParseError::MixedArgsKwargs { at },
            ParseError::NumericUrlName { at } => ParseError::NumericUrlName { at },
            ParseError::RequiresContent { name, at } => ParseError::RequiresContent {
                name: name@,
                at,
            },
            ParseError::RequiresContext { name, at } => ParseError::RequiresContext {
                name: name@,
                at,
            },
            ParseError::RequiresContextAndContent { name, at } =>
                ParseError::RequiresContextAndContent { name: name@, at },
            ParseError::MissingArguments { tag_name, missing, at } => ParseError::MissingArguments {
                tag_name: tag_name@,
                missing: missing@,
                at,
            },
            ParseError::DuplicateKeywordArgument { tag_name, kwarg_name, first_at, second_at } =>
                ParseError::DuplicateKeywordArgument {
                tag_name: tag_name@,
                kwarg_name: kwarg_name@,
                first_at,
                second_at,
            },
            ParseError::PositionalAfterKeyword { at, after } => ParseError::PositionalAfterKeyword {
                at,
                after,
            },
            ParseError::TooManyPositionalArguments { at } =>
                ParseError::TooManyPositionalArguments { at },
            ParseError::UnexpectedKeywordArgument { at } => ParseError::UnexpectedKeywordArgument {
                at,
            },
            ParseError::UnexpectedArgument { filter, at } => ParseError::UnexpectedArgument {
                filter: filter@,
                at,
            },
            ParseError::UnexpectedEndExpression { at } => ParseError::UnexpectedEndExpression { at },
            ParseError::UnexpectedEndTag { unexpected, at } => ParseError::UnexpectedEndTag {
                unexpected: unexpected@,
                at,
            },
            ParseError::UnusedExpression { expression, at } => ParseError::UnusedExpression {
                expression: expression@,
                at,
            },
            ParseError::UrlTagNoArguments { at } => ParseError::UrlTagNoArguments { at },
            ParseError::WrongEndTag { unexpected, expected, at, start_at } =>
                ParseError::WrongEndTag {
                unexpected: unexpected@,
                expected: expected@,
                at,
                start_at,
            },
            ParseError::InvalidTagFormat { tag, at } => ParseError::InvalidTagFormat {
                tag: tag@,
                at,
            },
            ParseError::InvalidVariableName { at } => ParseError::InvalidVariableName { at },
            ParseError::LoremError(e) => ParseError::LoremError(e),
            ParseError::NowError(e) => ParseError::NowError(e),
            ParseError::TemplateTagError(e) => ParseError::TemplateTagError(e),
            ParseError::MissingVariableAfterAs { at } => ParseError::MissingVariableAfterAs { at },
            ParseError::UnexpectedTokensAfterAsVariable { var_name, at } =>
                ParseError::UnexpectedTokensAfterAsVariable { var_name: var_name@, at },
        }
    }
}

/// What the parser has no support for. `S` stands for text.
#[derive(Debug, PartialEq, Eq)]
pub enum Unsupported<S> {
    /// A tag that is neither built in nor loaded from a library.
    Tag { name: S },
    /// A tag of a library that is not made from a function.
    FullyCustomTag { name: S },
    /// A tag of a library that renders another template.
    InclusionTag { name: S },
    /// A tag of a library whose function holds fewer values than such a function does.
    Closure { name: S },
}

/// Why a template could not be parsed. `S` stands for text.
#[derive(Debug, PartialEq, Eq)]
pub enum PyParseError<S> {
    /// Python raised an error.
    PyErr(PyObject),
    ParseError(ParseError<S>),
    Unsupported(Unsupported<S>),
}

impl View for Unsupported<String> {
    type V = Unsupported<Seq<char>>;

    open spec fn view(&self) -> Unsupported<Seq<char>> {
        match *self {
            Unsupported::Tag { name } => Unsupported::Tag { name: name@ },
            Unsupported::FullyCustomTag { name } => Unsupported::FullyCustomTag { name: name@ },
            Unsupported::InclusionTag { name } => Unsupported::InclusionTag { name: name@ },
            Unsupported::Closure { name } => Unsupported::Closure { name: name@ },
        }
    }
}

impl View for PyParseError<String> {
    type V = PyParseError<Seq<char>>;

    open spec fn view(&self) -> PyParseError<Seq<char>> {
        match *self {
            PyParseError::PyErr(e) => PyParseError::PyErr(e),
            PyParseError::ParseError(e) => PyParseError::ParseError(e@),
            PyParseError::Unsupported(e) => PyParseError::Unsupported(e@),
        }
    }
}

impl From<ParseError<String>> for PyParseError<String> {
    fn from(error: ParseError<String>) -> (r: Self) {
        PyParseError::ParseError(error)
    }
}

impl FromSpecImpl<ParseError<String>> for PyParseError<String> {
    open spec fn obeys_from_spec() -> bool {
        true
    }

    open spec fn from_spec(error: ParseError<String>) -> Self {
        PyParseError::ParseError(error)
    }
}

impl PyParseError<String> {
    /// What is wrong with the template, unless that is not what the error is about.
    pub fn try_into_parse_error(self) -> (r: Result<ParseError<String>, Self>)
        ensures
            r == (match self {
                PyParseError::ParseError(error) => Ok(error),
                other => Err(other),
            }),
    {
        match self {
            PyParseError::ParseError(error) => Ok(error),
            other => Err(other),
        }
    }

    /// What is wrong with the template.
    pub fn unwrap_parse_error(self) -> (r: ParseError<String>)
        requires
            self is ParseError,
        ensures
            self == PyParseError::ParseError(r),
    {
        match self {
            PyParseError::ParseError(error) => error,
            _ => vstd::pervasive::unreached(),
        }
    }
}

/// The view of the outcome of parsing something.
pub open spec fn result_view<T: View>(r: Result<T, ParseError<String>>) -> Result<
    T::V,
    ParseError<Seq<char>>,
> {
    match r {
        Ok(x) => Ok(x@),
        Err(e) => Err(e@),
    }
}

/// The view of the outcome of parsing something where Python may raise an error.
pub open spec fn py_result_view<T: View>(r: Result<T, PyParseError<String>>) -> Result<
    T::V,
    PyParseError<Seq<char>>,
> {
    match r {
        Ok(x) => Ok(x@),
        Err(e) => Err(e@),
    }
}

/// What is wrong with a template is taken out of an error just if this is what the error is about;
/// any other error stays what it is.
pub proof fn law_template_errors_are_taken_out(
    error: PyParseError<String>,
    taken: Result<ParseError<String>, PyParseError<String>>,
)
    requires
        call_ensures(PyParseError::<String>::try_into_parse_error, (error,), taken),
    ensures
        taken matches Ok(own) ==> error == PyParseError::ParseError(own),
        taken matches Err(other) ==> other == error && !(error is ParseError),
{
}

} // verus!
