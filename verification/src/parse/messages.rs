//! What is shown of what can be wrong with a template.
use vstd::prelude::*;
use vstd::string::*;
use crate::lexer::tag::TagLexerError;
use crate::parse::errors::{ForParseError, ParseError};
use crate::text::At;

verus! {

/// Puts a text between two others.
fn phrase(before: &str, text: &String, after: &str) -> (r: String)
    ensures
        r@ == before@ + text@ + after@,
{
    let mut r = before.to_owned();
    r.append(text.as_str());
    r.append(after);
    r
}

/// Puts two texts between three others.
fn double_phrase(before: &str, first: &String, between: &str, second: &String, after: &str) -> (r:
    String)
    ensures
        r@ == before@ + first@ + between@ + second@ + after@,
{
    let mut r = phrase(before, first, between);
    r.append(second.as_str());
    r.append(after);
    r
}

/// What is said of a place in the source.
#[derive(Clone, Copy, Debug, PartialEq, Eq)]
pub struct Label {
    pub at: At,
    pub text: &'static str,
}

impl View for Label {
    type V = (At, Seq<char>);

    open spec fn view(&self) -> (At, Seq<char>) {
        (self.at, self.text@)
    }
}

fn label(at: At, text: &'static str) -> (r: Label)
    ensures
        r@ == (at, text@),
{
    Label { at, text }
}

/// What is said of some places in the source.
pub open spec fn label_views(labels: Seq<Label>) -> Seq<(At, Seq<char>)> {
    labels.map_values(|label: Label| label@)
}

fn one_label(at: At, text: &'static str) -> (r: Vec<Label>)
    ensures
        label_views(r@) == seq![(at, text@)],
{
    let labels = vec![label(at, text)];
    assert(label_views(labels@) =~= seq![(at, text@)]);
    labels
}

fn two_labels(first_at: At, first: &'static str, second_at: At, second: &'static str) -> (r: Vec<
    Label,
>)
    ensures
        label_views(r@) == seq![(first_at, first@), (second_at, second@)],
{
    let labels = vec![label(first_at, first), label(second_at, second)];
    assert(label_views(labels@) =~= seq![(first_at, first@), (second_at, second@)]);
    labels
}

impl TagLexerError {
    /// What is said of the error.
    pub open spec fn text(self) -> Seq<char> {
        match self {
            TagLexerError::InvalidTagName { .. } => "Invalid block tag name"@,
            TagLexerError::EmptyTag { .. } => "Empty block tag"@,
        }
    }

    /// What is said of the place where the error is.
    pub open spec fn place(self) -> (At, Seq<char>) {
        match self {
            TagLexerError::InvalidTagName { at } => (at, "here"@),
            TagLexerError::EmptyTag { at } => (at, "here"@),
        }
    }

    /// What is said of the error.
    pub fn message(&self) -> (r: String)
        ensures
            r@ == self.text(),
    {
        match self {
            TagLexerError::InvalidTagName { .. } => "Invalid block tag name".to_owned(),
            TagLexerError::EmptyTag { .. } => "Empty block tag".to_owned(),
        }
    }

    /// What is said of the place where the error is.
    pub fn labels(&self) -> (r: Vec<Label>)
        ensures
            label_views(r@) == seq![self.place()],
    {
        match self {
            TagLexerError::InvalidTagName { at } => one_label(*at, "here"),
            TagLexerError::EmptyTag { at } => one_label(*at, "here"),
        }
    }
}

impl ForParseError {
    /// What is said of the error.
    pub open spec fn text(self) -> Seq<char> {
        match self {
            ForParseError::MissingVariable { .. } => "Expected another variable when unpacking in for loop:"@,
            ForParseError::MissingVariableBeforeIn { .. } => "Expected a variable name before the 'in' keyword:"@,
            ForParseError::MissingVariableNames { .. } => "Expected at least one variable name in for loop:"@,
        }
    }

    /// What is said of the place where the error is.
    pub open spec fn place(self) -> (At, Seq<char>) {
        match self {
            ForParseError::MissingVariable { at } => (at, "after this variable"@),
            ForParseError::MissingVariableBeforeIn { at } => (at, "before this keyword"@),
            ForParseError::MissingVariableNames { at } => (at, "in this tag"@),
        }
    }

    /// What is said of the error.
    pub fn message(&self) -> (r: String)
        ensures
            r@ == self.text(),
    {
        match self {
            ForParseError::MissingVariable { .. } => "Expected another variable when unpacking in for loop:".to_owned(),
            ForParseError::MissingVariableBeforeIn { .. } => "Expected a variable name before the 'in' keyword:".to_owned(),
            ForParseError::MissingVariableNames { .. } => "Expected at least one variable name in for loop:".to_owned(),
        }
    }

    /// What is said of the place where the error is.
    pub fn labels(&self) -> (r: Vec<Label>)
        ensures
            label_views(r@) == seq![self.place()],
    {
        match self {
            ForParseError::MissingVariable { at } => one_label(*at, "after this variable"),
            ForParseError::MissingVariableBeforeIn { at } => one_label(*at, "before this keyword"),
            ForParseError::MissingVariableNames { at } => one_label(*at, "in this tag"),
        }
    }
}

/// What is said of an error. The lexers of arguments have texts of their own for the errors that
/// they find.
pub open spec fn message_of(error: ParseError<Seq<char>>) -> Option<Seq<char>> {
    match error {
        ParseError::BlockError(e) => Some(e.text()),
        ParseError::ForParseError(e) => Some(e.text()),
        ParseError::EmptyVariable { .. } => Some("Empty variable tag"@),
        ParseError::MissingArgument { .. } => Some("Expected an argument"@),
        ParseError::MissingCycleArguments { .. } => Some("Expected two or more arguments"@),
        ParseError::UnknownNamedCycle { name, .. } => Some(
            "Named cycle '"@ + name + "' does not exist"@,
        ),
        ParseError::InvalidCycleFlag { flag, .. } => Some(
            "Only 'silent' flag is allowed after cycle's name, not '"@ + flag + "'."@,
        ),
        ParseError::NotIterable { literal, .. } => Some(""@ + literal + " is not iterable"@),
        ParseError::IncludeOnlyTwice { .. } => Some(
            "The 'only' option was specified more than once."@,
        ),
        ParseError::InvalidFilter { filter, .. } => Some("Invalid filter: '"@ + filter + "'"@),
        ParseError::InvalidIfPosition { token, .. } => Some(
            "Not expecting '"@ + token + "' in this position"@,
        ),
        ParseError::DivisibleByZero { .. } => Some(
            "Invalid divisibility check: cannot divide by zero"@,
        ),
        ParseError::InvalidNumber { .. } => Some("Invalid numeric literal"@),
        ParseError::MissingBooleanExpression { .. } => Some("Missing boolean expression"@),
        ParseError::MissingEndTag { start, expected, .. } => Some(
            "Unclosed '"@ + start + "' tag. Looking for one of: "@ + expected + ""@,
        ),
        ParseError::MissingFilterTag { tag, library, .. } => Some(
            "'"@ + tag + "' is not a valid tag or filter in tag library '"@ + library + "'"@,
        ),
        ParseError::MissingKeywordArgument { .. } => Some("Expected a keyword argument"@),
        ParseError::MissingTagLibrary { library, .. } => Some(
            "'"@ + library + "' is not a registered tag library."@,
        ),
        ParseError::MixedArgsKwargs { .. } => Some("Cannot mix positional and keyword arguments"@),
        ParseError::NumericUrlName { .. } => Some(
            "'url' view name must be a string or variable, not a number"@,
        ),
        ParseError::RequiresContent { name, .. } => Some(
            "'"@ + name + "' must have a first argument of 'content'"@,
        ),
        ParseError::RequiresContext { name, .. } => Some(
            "'"@ + name + "' is decorated with takes_context=True so it must have a first argument of 'context'"@,
        ),
        ParseError::RequiresContextAndContent { name, .. } => Some(
            "'"@ + name + "' is decorated with takes_context=True so it must have a first argument of 'context' and a second argument of 'content'"@,
        ),
        ParseError::MissingArguments { tag_name, missing, .. } => Some(
            "'"@ + tag_name + "' did not receive value(s) for the argument(s): "@ + missing + ""@,
        ),
        ParseError::DuplicateKeywordArgument { tag_name, kwarg_name, .. } => Some(
            "'"@ + tag_name + "' received multiple values for keyword argument '"@ + kwarg_name + "'"@,
        ),
        ParseError::PositionalAfterKeyword { .. } => Some(
            "Unexpected positional argument after keyword argument"@,
        ),
        ParseError::TooManyPositionalArguments { .. } => Some("Unexpected positional argument"@),
        ParseError::UnexpectedKeywordArgument { .. } => Some("Unexpected keyword argument"@),
        ParseError::UnexpectedArgument { filter, .. } => Some(
            ""@ + filter + " filter does not take an argument"@,
        ),
        ParseError::UnexpectedEndExpression { .. } => Some("Unexpected end of expression"@),
        ParseError::UnexpectedEndTag { unexpected, .. } => Some(
            "Unexpected tag "@ + unexpected + ""@,
        ),
        ParseError::UnusedExpression { expression, .. } => Some(
            "Unused expression '"@ + expression + "' in if tag"@,
        ),
        ParseError::UrlTagNoArguments { .. } => Some(
            "'url' takes at least one argument, a URL pattern name"@,
        ),
        ParseError::WrongEndTag { unexpected, expected, .. } => Some(
            "Unexpected tag "@ + unexpected + ", expected "@ + expected + ""@,
        ),
        ParseError::InvalidTagFormat { tag, .. } => Some(
            "Incorrect format for '"@ + tag + "' tag"@,
        ),
        ParseError::InvalidVariableName { .. } => Some("Invalid variable name"@),
        ParseError::MissingVariableAfterAs { .. } => Some("Expected a variable name after 'as'"@),
        ParseError::UnexpectedTokensAfterAsVariable { var_name, .. } => Some(
            "Unexpected tokens after 'as "@ + var_name + "'"@,
        ),
        ParseError::AutoescapeError(_)
        | ParseError::LexerError(_)
        | ParseError::ForLexerError(_)
        | ParseError::ForLexerInError(_)
        | ParseError::IncludeLexerError(_)
        | ParseError::RelativePathError(_)
        | ParseError::TagElementKwargLexerError(_)
        | ParseError::VariableError(_)
        | ParseError::LoremError(_)
        | ParseError::NowError(_)
        | ParseError::TemplateTagError(_) => None,
    }
}

/// What is said of the places that an error speaks of.
pub open spec fn labels_of(error: ParseError<Seq<char>>) -> Seq<(At, Seq<char>)> {
    match error {
        ParseError::BlockError(e) => seq![e.place()],
        ParseError::ForParseError(e) => seq![e.place()],
        ParseError::EmptyVariable { at } => seq![(at, "here"@)],
        ParseError::MissingArgument { at } => seq![(at, "here"@)],
        ParseError::MissingCycleArguments { at } => seq![(at, "expected at least two arguments"@)],
        ParseError::UnknownNamedCycle { at, .. } => seq![(at, "not defined"@)],
        ParseError::InvalidCycleFlag { at, .. } => seq![(at, "invalid flag"@)],
        ParseError::NotIterable { at, .. } => seq![(at, "here"@)],
        ParseError::IncludeOnlyTwice { first_at, second_at } => seq![
            (first_at, "first here"@),
            (second_at, "second here"@),
        ],
        ParseError::InvalidFilter { at, .. } => seq![(at, "here"@)],
        ParseError::InvalidIfPosition { at, .. } => seq![(at, "here"@)],
        ParseError::DivisibleByZero { at } => seq![(at, "here"@)],
        ParseError::InvalidNumber { at } => seq![(at, "here"@)],
        ParseError::MissingBooleanExpression { at } => seq![(at, "here"@)],
        ParseError::MissingEndTag { at, .. } => seq![(at, "started here"@)],
        ParseError::MissingFilterTag { tag_at, library_at, .. } => seq![
            (tag_at, "tag or filter"@),
            (library_at, "library"@),
        ],
        ParseError::MissingKeywordArgument { at } => seq![(at, "after this"@)],
        ParseError::MissingTagLibrary { at, .. } => seq![(at, "here"@)],
        ParseError::MixedArgsKwargs { at } => seq![(at, "here"@)],
        ParseError::NumericUrlName { at } => seq![(at, "here"@)],
        ParseError::RequiresContent { at, .. } => seq![(at, "loaded here"@)],
        ParseError::RequiresContext { at, .. } => seq![(at, "loaded here"@)],
        ParseError::RequiresContextAndContent { at, .. } => seq![(at, "loaded here"@)],
        ParseError::MissingArguments { at, .. } => seq![(at, "here"@)],
        ParseError::DuplicateKeywordArgument { first_at, second_at, .. } => seq![
            (first_at, "first"@),
            (second_at, "second"@),
        ],
        ParseError::PositionalAfterKeyword { at, after } => seq![
            (at, "this positional argument"@),
            (after, "after this keyword argument"@),
        ],
        ParseError::TooManyPositionalArguments { at } => seq![(at, "here"@)],
        ParseError::UnexpectedKeywordArgument { at } => seq![(at, "here"@)],
        ParseError::UnexpectedArgument { at, .. } => seq![(at, "unexpected argument"@)],
        ParseError::UnexpectedEndExpression { at } => seq![(at, "after this"@)],
        ParseError::UnexpectedEndTag { at, .. } => seq![(at, "unexpected tag"@)],
        ParseError::UnusedExpression { at, .. } => seq![(at, "here"@)],
        ParseError::UrlTagNoArguments { at } => seq![(at, "here"@)],
        ParseError::WrongEndTag { at, start_at, .. } => seq![
            (at, "unexpected tag"@),
            (start_at, "start tag"@),
        ],
        ParseError::InvalidTagFormat { at, .. } => seq![(at, "here"@)],
        ParseError::InvalidVariableName { at } => seq![(at, "here"@)],
        ParseError::MissingVariableAfterAs { at } => seq![(at, "expected a variable name here"@)],
        ParseError::UnexpectedTokensAfterAsVariable { at, .. } => seq![
            (at, "unexpected tokens here"@),
        ],
        ParseError::AutoescapeError(_)
        | ParseError::LexerError(_)
        | ParseError::ForLexerError(_)
        | ParseError::ForLexerInError(_)
        | ParseError::IncludeLexerError(_)
        | ParseError::RelativePathError(_)
        | ParseError::TagElementKwargLexerError(_)
        | ParseError::VariableError(_)
        | ParseError::LoremError(_)
        | ParseError::NowError(_)
        | ParseError::TemplateTagError(_) => Seq::empty(),
    }
}

/// What is said to help with an error.
pub open spec fn help_of(error: ParseError<Seq<char>>) -> Option<Seq<char>> {
    match error {
        ParseError::UnknownNamedCycle { .. } => Some(
            "Define the named cycle earlier using the 'as' form."@,
        ),
        ParseError::IncludeOnlyTwice { .. } => Some("Remove the second 'only'"@),
        ParseError::MissingVariableAfterAs { .. } => Some(
            "Provide a name to store the date string, e.g. 'as my_var'"@,
        ),
        ParseError::UnexpectedTokensAfterAsVariable { .. } => Some("Remove the extra tokens."@),
        ParseError::MissingTagLibrary { help, .. } => Some(help),
        _ => None,
    }
}

impl ParseError<String> {
    /// What is said of the error, unless the lexer that found it has a text of its own.
    pub fn message(&self) -> (r: Option<String>)
        ensures
            match r {
                Some(text) => message_of(self@) == Some(text@),
                None => message_of(self@) is None,
            },
    {
        let text = match self {
            ParseError::BlockError(e) => e.message(),
            ParseError::ForParseError(e) => e.message(),
            ParseError::EmptyVariable { .. } => "Empty variable tag".to_owned(),
            ParseError::MissingArgument { .. } => "Expected an argument".to_owned(),
            ParseError::MissingCycleArguments { .. } => "Expected two or more arguments".to_owned(),
            ParseError::UnknownNamedCycle { name, .. } => phrase(
                "Named cycle '",
                name,
                "' does not exist",
            ),
            ParseError::InvalidCycleFlag { flag, .. } => phrase(
                "Only 'silent' flag is allowed after cycle's name, not '",
                flag,
                "'.",
            ),
            ParseError::NotIterable { literal, .. } => phrase("", literal, " is not iterable"),
            ParseError::IncludeOnlyTwice { .. } => "The 'only' option was specified more than once.".to_owned(),
            ParseError::InvalidFilter { filter, .. } => phrase("Invalid filter: '", filter, "'"),
            ParseError::InvalidIfPosition { token, .. } => phrase(
                "Not expecting '",
                token,
                "' in this position",
            ),
            ParseError::DivisibleByZero { .. } => "Invalid divisibility check: cannot divide by zero".to_owned(),
            ParseError::InvalidNumber { .. } => "Invalid numeric literal".to_owned(),
            ParseError::MissingBooleanExpression { .. } => "Missing boolean expression".to_owned(),
            ParseError::MissingEndTag { start, expected, .. } => double_phrase(
                "Unclosed '",
                start,
                "' tag. Looking for one of: ",
                expected,
                "",
            ),
            ParseError::MissingFilterTag { tag, library, .. } => double_phrase(
                "'",
                tag,
                "' is not a valid tag or filter in tag library '",
                library,
                "'",
            ),
            ParseError::MissingKeywordArgument { .. } => "Expected a keyword argument".to_owned(),
            ParseError::MissingTagLibrary { library, .. } => phrase(
                "'",
                library,
                "' is not a registered tag library.",
            ),
            ParseError::MixedArgsKwargs { .. } => "Cannot mix positional and keyword arguments".to_owned(),
            ParseError::NumericUrlName { .. } => "'url' view name must be a string or variable, not a number".to_owned(),
            ParseError::RequiresContent { name, .. } => phrase(
                "'",
                name,
                "' must have a first argument of 'content'",
            ),
            ParseError::RequiresContext { name, .. } => phrase(
                "'",
                name,
                "' is decorated with takes_context=True so it must have a first argument of 'context'",
            ),
            ParseError::RequiresContextAndContent { name, .. } => phrase(
                "'",
                name,
                "' is decorated with takes_context=True so it must have a first argument of 'context' and a second argument of 'content'",
            ),
            ParseError::MissingArguments { tag_name, missing, .. } => double_phrase(
                "'",
                tag_name,
                "' did not receive value(s) for the argument(s): ",
                missing,
                "",
            ),
            ParseError::DuplicateKeywordArgument { tag_name, kwarg_name, .. } => double_phrase(
                "'",
                tag_name,
                "' received multiple values for keyword argument '",
                kwarg_name,
                "'",
            ),
            ParseError::PositionalAfterKeyword { .. } => "Unexpected positional argument after keyword argument".to_owned(),
            ParseError::TooManyPositionalArguments { .. } => "Unexpected positional argument".to_owned(),
            ParseError::UnexpectedKeywordArgument { .. } => "Unexpected keyword argument".to_owned(),
            ParseError::UnexpectedArgument { filter, .. } => phrase(
                "",
                filter,
                " filter does not take an argument",
            ),
            ParseError::UnexpectedEndExpression { .. } => "Unexpected end of expression".to_owned(),
            ParseError::UnexpectedEndTag { unexpected, .. } => phrase(
                "Unexpected tag ",
                unexpected,
                "",
            ),
            ParseError::UnusedExpression { expression, .. } => phrase(
                "Unused expression '",
                expression,
                "' in if tag",
            ),
            ParseError::UrlTagNoArguments { .. } => "'url' takes at least one argument, a URL pattern name".to_owned(),
            ParseError::WrongEndTag { unexpected, expected, .. } => double_phrase(
                "Unexpected tag ",
                unexpected,
                ", expected ",
                expected,
                "",
            ),
            ParseError::InvalidTagFormat { tag, .. } => phrase(
                "Incorrect format for '",
                tag,
                "' tag",
            ),
            ParseError::InvalidVariableName { .. } => "Invalid variable name".to_owned(),
            ParseError::MissingVariableAfterAs { .. } => "Expected a variable name after 'as'".to_owned(),
            ParseError::UnexpectedTokensAfterAsVariable { var_name, .. } => phrase(
                "Unexpected tokens after 'as ",
                var_name,
                "'",
            ),
            ParseError::AutoescapeError(_)
            | ParseError::LexerError(_)
            | ParseError::ForLexerError(_)
            | ParseError::ForLexerInError(_)
            | ParseError::IncludeLexerError(_)
            | ParseError::RelativePathError(_)
            | ParseError::TagElementKwargLexerError(_)
            | ParseError::VariableError(_)
            | ParseError::LoremError(_)
            | ParseError::NowError(_)
            | ParseError::TemplateTagError(_) => {
                return None;
            },
        };
        Some(text)
    }

    /// What is said of the places that the error speaks of.
    pub fn labels(&self) -> (r: Vec<Label>)
        ensures
            label_views(r@) == labels_of(self@),
    {
        match self {
            ParseError::BlockError(e) => e.labels(),
            ParseError::ForParseError(e) => e.labels(),
            ParseError::EmptyVariable { at } => one_label(*at, "here"),
            ParseError::MissingArgument { at } => one_label(*at, "here"),
            ParseError::MissingCycleArguments { at } => one_label(
                *at,
                "expected at least two arguments",
            ),
            ParseError::UnknownNamedCycle { at, .. } => one_label(*at, "not defined"),
            ParseError::InvalidCycleFlag { at, .. } => one_label(*at, "invalid flag"),
            ParseError::NotIterable { at, .. } => one_label(*at, "here"),
            ParseError::IncludeOnlyTwice { first_at, second_at } => two_labels(
                *first_at,
                "first here",
                *second_at,
                "second here",
            ),
            ParseError::InvalidFilter { at, .. } => one_label(*at, "here"),
            ParseError::InvalidIfPosition { at, .. } => one_label(*at, "here"),
            ParseError::DivisibleByZero { at } => one_label(*at, "here"),
            ParseError::InvalidNumber { at } => one_label(*at, "here"),
            ParseError::MissingBooleanExpression { at } => one_label(*at, "here"),
            ParseError::MissingEndTag { at, .. } => one_label(*at, "started here"),
            ParseError::MissingFilterTag { tag_at, library_at, .. } => two_labels(
                *tag_at,
                "tag or filter",
                *library_at,
                "library",
            ),
            ParseError::MissingKeywordArgument { at } => one_label(*at, "after this"),
            ParseError::MissingTagLibrary { at, .. } => one_label(*at, "here"),
            ParseError::MixedArgsKwargs { at } => one_label(*at, "here"),
            ParseError::NumericUrlName { at } => one_label(*at, "here"),
            ParseError::RequiresContent { at, .. } => one_label(*at, "loaded here"),
            ParseError::RequiresContext { at, .. } => one_label(*at, "loaded here"),
            ParseError::RequiresContextAndContent { at, .. } => one_label(*at, "loaded here"),
            ParseError::MissingArguments { at, .. } => one_label(*at, "here"),
            ParseError::DuplicateKeywordArgument { first_at, second_at, .. } => two_labels(
                *first_at,
                "first",
                *second_at,
                "second",
            ),
            ParseError::PositionalAfterKeyword { at, after } => two_labels(
                *at,
                "this positional argument",
                *after,
                "after this keyword argument",
            ),
            ParseError::TooManyPositionalArguments { at } => one_label(*at, "here"),
            ParseError::UnexpectedKeywordArgument { at } => one_label(*at, "here"),
            ParseError::UnexpectedArgument { at, .. } => one_label(*at, "unexpected argument"),
            ParseError::UnexpectedEndExpression { at } => one_label(*at, "after this"),
            ParseError::UnexpectedEndTag { at, .. } => one_label(*at, "unexpected tag"),
            ParseError::UnusedExpression { at, .. } => one_label(*at, "here"),
            ParseError::UrlTagNoArguments { at } => one_label(*at, "here"),
            ParseError::WrongEndTag { at, start_at, .. } => two_labels(
                *at,
                "unexpected tag",
                *start_at,
                "start tag",
            ),
            ParseError::InvalidTagFormat { at, .. } => one_label(*at, "here"),
            ParseError::InvalidVariableName { at } => one_label(*at, "here"),
            ParseError::MissingVariableAfterAs { at } => one_label(
                *at,
                "expected a variable name here",
            ),
            ParseError::UnexpectedTokensAfterAsVariable { at, .. } => one_label(
                *at,
                "unexpected tokens here",
            ),
            ParseError::AutoescapeError(_)
            | ParseError::LexerError(_)
            | ParseError::ForLexerError(_)
            | ParseError::ForLexerInError(_)
            | ParseError::IncludeLexerError(_)
            | ParseError::RelativePathError(_)
            | ParseError::TagElementKwargLexerError(_)
            | ParseError::VariableError(_)
            | ParseError::LoremError(_)
            | ParseError::NowError(_)
            | ParseError::TemplateTagError(_) => {
                let labels: Vec<Label> = Vec::new();
                assert(label_views(labels@) =~= Seq::empty());
                labels
            },
        }
    }

    /// What is said to help with the error.
    pub fn help(&self) -> (r: Option<String>)
        ensures
            match r {
                Some(text) => help_of(self@) == Some(text@),
                None => help_of(self@) is None,
            },
    {
        match self {
            ParseError::UnknownNamedCycle { .. } => Some(
                "Define the named cycle earlier using the 'as' form.".to_owned(),
            ),
            ParseError::IncludeOnlyTwice { .. } => Some("Remove the second 'only'".to_owned()),
            ParseError::MissingVariableAfterAs { .. } => Some(
                "Provide a name to store the date string, e.g. 'as my_var'".to_owned(),
            ),
            ParseError::UnexpectedTokensAfterAsVariable { .. } => Some(
                "Remove the extra tokens.".to_owned(),
            ),
            ParseError::MissingTagLibrary { help, .. } => Some(help.clone()),
            _ => None,
        }
    }
}

/// The places that an error speaks of: where what is wrong stands, and then what it is held
/// against.
pub open spec fn places_of(error: ParseError<Seq<char>>) -> Seq<At> {
    match error {
        ParseError::BlockError(TagLexerError::InvalidTagName { at }) => seq![at],
        ParseError::BlockError(TagLexerError::EmptyTag { at }) => seq![at],
        ParseError::ForParseError(ForParseError::MissingVariable { at }) => seq![at],
        ParseError::ForParseError(ForParseError::MissingVariableBeforeIn { at }) => seq![at],
        ParseError::ForParseError(ForParseError::MissingVariableNames { at }) => seq![at],
        ParseError::IncludeOnlyTwice { first_at, second_at } => seq![first_at, second_at],
        ParseError::MissingFilterTag { tag_at, library_at, .. } => seq![tag_at, library_at],
        ParseError::DuplicateKeywordArgument { first_at, second_at, .. } => seq![
            first_at,
            second_at,
        ],
        ParseError::PositionalAfterKeyword { at, after } => seq![at, after],
        ParseError::WrongEndTag { at, start_at, .. } => seq![at, start_at],
        ParseError::EmptyVariable { at } => seq![at],
        ParseError::MissingArgument { at } => seq![at],
        ParseError::MissingCycleArguments { at } => seq![at],
        ParseError::UnknownNamedCycle { at, .. } => seq![at],
        ParseError::InvalidCycleFlag { at, .. } => seq![at],
        ParseError::NotIterable { at, .. } => seq![at],
        ParseError::InvalidFilter { at, .. } => seq![at],
        ParseError::InvalidIfPosition { at, .. } => seq![at],
        ParseError::DivisibleByZero { at } => seq![at],
        ParseError::InvalidNumber { at } => seq![at],
        ParseError::MissingBooleanExpression { at } => seq![at],
        ParseError::MissingEndTag { at, .. } => seq![at],
        ParseError::MissingKeywordArgument { at } => seq![at],
        ParseError::MissingTagLibrary { at, .. } => seq![at],
        ParseError::MixedArgsKwargs { at } => seq![at],
        ParseError::NumericUrlName { at } => seq![at],
        ParseError::RequiresContent { at, .. } => seq![at],
        ParseError::RequiresContext { at, .. } => seq![at],
        ParseError::RequiresContextAndContent { at, .. } => seq![at],
        ParseError::MissingArguments { at, .. } => seq![at],
        ParseError::TooManyPositionalArguments { at } => seq![at],
        ParseError::UnexpectedKeywordArgument { at } => seq![at],
        ParseError::UnexpectedArgument { at, .. } => seq![at],
        ParseError::UnexpectedEndExpression { at } => seq![at],
        ParseError::UnexpectedEndTag { at, .. } => seq![at],
        ParseError::UnusedExpression { at, .. } => seq![at],
        ParseError::UrlTagNoArguments { at } => seq![at],
        ParseError::InvalidTagFormat { at, .. } => seq![at],
        ParseError::InvalidVariableName { at } => seq![at],
        ParseError::MissingVariableAfterAs { at } => seq![at],
        ParseError::UnexpectedTokensAfterAsVariable { at, .. } => seq![at],
        _ => Seq::empty(),
    }
}

/// Each place that an error speaks of has a label, in order, and nothing else has.
pub proof fn law_labels_stand_at_their_places(error: ParseError<Seq<char>>)
    ensures
        labels_of(error).len() == places_of(error).len(),
        forall|i: int|
            0 <= i < labels_of(error).len() ==> (#[trigger] labels_of(error)[i]).0
                == places_of(error)[i],
{
}

/// The names that an error holds, in the order in which they are said.
pub open spec fn names_in(error: ParseError<Seq<char>>) -> Seq<Seq<char>> {
    match error {
        ParseError::UnknownNamedCycle { name, .. } => seq![name],
        ParseError::InvalidCycleFlag { flag, .. } => seq![flag],
        ParseError::NotIterable { literal, .. } => seq![literal],
        ParseError::InvalidFilter { filter, .. } => seq![filter],
        ParseError::InvalidIfPosition { token, .. } => seq![token],
        ParseError::MissingEndTag { start, expected, .. } => seq![start, expected],
        ParseError::MissingFilterTag { tag, library, .. } => seq![tag, library],
        ParseError::MissingTagLibrary { library, .. } => seq![library],
        ParseError::RequiresContent { name, .. } => seq![name],
        ParseError::RequiresContext { name, .. } => seq![name],
        ParseError::RequiresContextAndContent { name, .. } => seq![name],
        ParseError::MissingArguments { tag_name, missing, .. } => seq![tag_name, missing],
        ParseError::DuplicateKeywordArgument { tag_name, kwarg_name, .. } => seq![
            tag_name,
            kwarg_name,
        ],
        ParseError::UnexpectedArgument { filter, .. } => seq![filter],
        ParseError::UnexpectedEndTag { unexpected, .. } => seq![unexpected],
        ParseError::UnusedExpression { expression, .. } => seq![expression],
        ParseError::WrongEndTag { unexpected, expected, .. } => seq![unexpected, expected],
        ParseError::InvalidTagFormat { tag, .. } => seq![tag],
        ParseError::UnexpectedTokensAfterAsVariable { var_name, .. } => seq![var_name],
        _ => Seq::empty(),
    }
}

/// A text is made of words of its own and of some names, in order.
pub open spec fn says_in_order(text: Seq<char>, names: Seq<Seq<char>>) -> bool {
    if names.len() == 1 {
        exists|a: Seq<char>, b: Seq<char>| text == #[trigger] (a + names[0] + b)
    } else if names.len() == 2 {
        exists|a: Seq<char>, b: Seq<char>, c: Seq<char>|
            text == #[trigger] (a + names[0] + b + names[1] + c)
    } else {
        true
    }
}

proof fn lemma_says_one(a: Seq<char>, name: Seq<char>, b: Seq<char>)
    ensures
        says_in_order(a + name + b, seq![name]),
{
    let names = seq![name];
    assert(a + name + b == a + names[0] + b);
}

proof fn lemma_says_two(
    a: Seq<char>,
    first: Seq<char>,
    b: Seq<char>,
    second: Seq<char>,
    c: Seq<char>,
)
    ensures
        says_in_order(a + first + b + second + c, seq![first, second]),
{
    let names = seq![first, second];
    assert(a + first + b + second + c == a + names[0] + b + names[1] + c);
}

/// What is said of an error says the names that it holds, in order.
pub proof fn law_messages_say_the_names(error: ParseError<Seq<char>>)
    ensures
        message_of(error) matches Some(text) ==> says_in_order(text, names_in(error)),
{
    match error {
        ParseError::UnknownNamedCycle { name, .. } => {
            lemma_says_one("Named cycle '"@, name, "' does not exist"@);
        },
        ParseError::InvalidCycleFlag { flag, .. } => {
            lemma_says_one("Only 'silent' flag is allowed after cycle's name, not '"@, flag, "'."@);
        },
        ParseError::NotIterable { literal, .. } => {
            lemma_says_one(""@, literal, " is not iterable"@);
        },
        ParseError::InvalidFilter { filter, .. } => {
            lemma_says_one("Invalid filter: '"@, filter, "'"@);
        },
        ParseError::InvalidIfPosition { token, .. } => {
            lemma_says_one("Not expecting '"@, token, "' in this position"@);
        },
        ParseError::MissingEndTag { start, expected, .. } => {
            lemma_says_two("Unclosed '"@, start, "' tag. Looking for one of: "@, expected, ""@);
        },
        ParseError::MissingFilterTag { tag, library, .. } => {
            lemma_says_two("'"@, tag, "' is not a valid tag or filter in tag library '"@, library, "'"@);
        },
        ParseError::MissingTagLibrary { library, .. } => {
            lemma_says_one("'"@, library, "' is not a registered tag library."@);
        },
        ParseError::RequiresContent { name, .. } => {
            lemma_says_one("'"@, name, "' must have a first argument of 'content'"@);
        },
        ParseError::RequiresContext { name, .. } => {
            lemma_says_one("'"@, name, "' is decorated with takes_context=True so it must have a first argument of 'context'"@);
        },
        ParseError::RequiresContextAndContent { name, .. } => {
            lemma_says_one("'"@, name, "' is decorated with takes_context=True so it must have a first argument of 'context' and a second argument of 'content'"@);
        },
        ParseError::MissingArguments { tag_name, missing, .. } => {
            lemma_says_two("'"@, tag_name, "' did not receive value(s) for the argument(s): "@, missing, ""@);
        },
        ParseError::DuplicateKeywordArgument { tag_name, kwarg_name, .. } => {
            lemma_says_two("'"@, tag_name, "' received multiple values for keyword argument '"@, kwarg_name, "'"@);
        },
        ParseError::UnexpectedArgument { filter, .. } => {
            lemma_says_one(""@, filter, " filter does not take an argument"@);
        },
        ParseError::UnexpectedEndTag { unexpected, .. } => {
            lemma_says_one("Unexpected tag "@, unexpected, ""@);
        },
        ParseError::UnusedExpression { expression, .. } => {
            lemma_says_one("Unused expression '"@, expression, "' in if tag"@);
        },
        ParseError::WrongEndTag { unexpected, expected, .. } => {
            lemma_says_two("Unexpected tag "@, unexpected, ", expected "@, expected, ""@);
        },
        ParseError::InvalidTagFormat { tag, .. } => {
            lemma_says_one("Incorrect format for '"@, tag, "' tag"@);
        },
        ParseError::UnexpectedTokensAfterAsVariable { var_name, .. } => {
            lemma_says_one("Unexpected tokens after 'as "@, var_name, "'"@);
        },
        _ => {},
    }
}

} // verus!
