//! The tokens of a template, and of the arguments of its tags.
use vstd::prelude::*;
use crate::integer::Integer;
use crate::lexer::tag::{
    classes_of, law_tag_lies_in_template, lex_tag, tag_of, Tag, TagLexerError,
};
use crate::text::{is_span, lemma_span_bytes, span, str_eq, At, TemplateString};
use crate::types::Float;
use crate::{END_TAG_LEN, START_TAG_LEN};

verus! {

/// What a lexer reports of source text that it cannot read.
#[derive(Clone, Copy, Debug, PartialEq, Eq, Structural)]
pub struct LexerFault {
    pub id: u64,
}

#[derive(Clone, Copy, Debug, PartialEq, Eq)]
pub enum LexerError {
    /// Expected a valid variable name.
    InvalidVariableName { at: At },
    Other(LexerFault),
}

#[derive(Clone, Copy, Debug, PartialEq, Eq)]
pub enum VariableLexerError {
    LexerError(LexerError),
    Other(LexerFault),
}

#[derive(Clone, Copy, Debug, PartialEq, Eq)]
pub enum ForLexerInError {
    /// Unexpected whitespace between the variables of a for loop.
    MissingComma { at: At },
    Other(LexerFault),
}

/// The location of what stands between the quotes of a string literal.
pub open spec fn text_content(at: At) -> At {
    ((at.0 + 1) as usize, (at.1 - 2) as usize)
}

/// The location of what stands between the quotes of a string literal to be translated.
pub open spec fn translated_text_content(at: At) -> At {
    ((at.0 + 3) as usize, (at.1 - 5) as usize)
}

/// The location of a string literal without its quotes.
pub fn text_content_at(at: At) -> (r: At)
    requires
        at.0 + 1 <= usize::MAX,
        at.1 >= 2,
    ensures
        r == text_content(at),
{
    (at.0 + 1, at.1 - 2)
}

/// The location of a string literal to be translated, without its quotes and `_(` and `)`.
pub fn translated_text_content_at(at: At) -> (r: At)
    requires
        at.0 + 3 <= usize::MAX,
        at.1 >= 5,
    ensures
        r == translated_text_content(at),
{
    (at.0 + 3, at.1 - 5)
}

/// From the start of one location to the end of a later one.
pub open spec fn all_between(first: At, last: At) -> At {
    (first.0, (last.0 - first.0 + last.1) as usize)
}

/// The location from the start of `first` to the end of `last`.
pub fn get_all_at(first: At, last: At) -> (r: At)
    requires
        first.0 <= last.0,
        last.0 + last.1 <= usize::MAX,
    ensures
        r == all_between(first, last),
{
    (first.0, last.0 - first.0 + last.1)
}

/// What a variable starts with.
#[derive(Debug)]
pub enum VariableToken {
    Variable,
    Int(Integer),
    Float(Float),
}

/// The argument of a filter; of a number, what it reads as where it is no integer.
#[derive(Clone, Copy, Debug)]
pub enum ArgumentToken {
    Numeric { at: At, float: Option<Float> },
    Text(At),
    TranslatedText(At),
    Variable(At),
}

impl ArgumentToken {
    pub open spec fn location(self) -> At {
        match self {
            ArgumentToken::Numeric { at, .. } => at,
            ArgumentToken::Text(at) => at,
            ArgumentToken::TranslatedText(at) => at,
            ArgumentToken::Variable(at) => at,
        }
    }

    pub open spec fn wf(self, template: Seq<char>) -> bool {
        &&& is_span(template, self.location())
        &&& self is Text ==> self.location().1 >= 2
        &&& self is TranslatedText ==> self.location().1 >= 5
    }
}

/// A filter and its argument.
#[derive(Clone, Copy, Debug)]
pub struct FilterToken {
    pub at: At,
    pub argument: Option<ArgumentToken>,
}

impl FilterToken {
    pub open spec fn wf(self, template: Seq<char>) -> bool {
        &&& is_span(template, self.at)
        &&& match self.argument {
            Some(argument) => argument.wf(template),
            None => true,
        }
    }
}

/// A variable and the filters to apply to it.
#[derive(Debug)]
pub struct LexedVariable {
    pub token: VariableToken,
    pub at: At,
    pub filters: Vec<Result<FilterToken, VariableLexerError>>,
}

impl LexedVariable {
    pub open spec fn wf(self, template: Seq<char>) -> bool {
        &&& is_span(template, self.at)
        &&& forall|i: int|
            0 <= i < self.filters@.len() ==> match #[trigger] self.filters@[i] {
                Ok(filter) => filter.wf(template) && self.at.0 <= filter.at.0,
                Err(_) => true,
            }
    }
}

/// What is found where a variable is expected: nothing, a variable, or something else.
pub type VariableSource = Result<Option<LexedVariable>, VariableLexerError>;

pub open spec fn variable_wf(variable: VariableSource, template: Seq<char>) -> bool {
    variable matches Ok(Some(lexed)) ==> lexed.wf(template)
}

/// The kind of an element; of a number, what it reads as where it is no integer, and of a
/// variable, what it consists of.
#[derive(Debug)]
pub enum TagElementTokenType {
    Numeric(Option<Float>),
    Text,
    TranslatedText,
    Variable(VariableSource),
}

impl TagElementTokenType {
    /// The location of the content of an element at a location.
    pub open spec fn content_of(self, at: At) -> At {
        match self {
            TagElementTokenType::Numeric(_) => at,
            TagElementTokenType::Text => text_content(at),
            TagElementTokenType::TranslatedText => translated_text_content(at),
            TagElementTokenType::Variable(_) => at,
        }
    }

    pub open spec fn wf(self, at: At, template: Seq<char>) -> bool {
        &&& is_span(template, at)
        &&& is_span(template, self.content_of(at))
        &&& self is Text ==> at.1 >= 2
        &&& self is TranslatedText ==> at.1 >= 5
        &&& match self {
            TagElementTokenType::Variable(variable) => variable_wf(variable, template),
            _ => true,
        }
    }

    /// The location of the content of an element.
    pub fn content_at(&self, at: At) -> (r: At)
        requires
            self is Text ==> at.0 + 1 <= usize::MAX && at.1 >= 2,
            self is TranslatedText ==> at.0 + 3 <= usize::MAX && at.1 >= 5,
        ensures
            r == self.content_of(at),
    {
        match self {
            TagElementTokenType::Numeric(_) => at,
            TagElementTokenType::Text => text_content_at(at),
            TagElementTokenType::TranslatedText => translated_text_content_at(at),
            TagElementTokenType::Variable(_) => at,
        }
    }
}

/// A number, a string literal or a variable.
#[derive(Debug)]
pub struct TagElementToken {
    pub at: At,
    pub token_type: TagElementTokenType,
}

impl TagElementToken {
    pub open spec fn wf(self, template: Seq<char>) -> bool {
        self.token_type.wf(self.at, template)
    }
}

/// An element, with the location of the keyword before it if it has one.
#[derive(Debug)]
pub struct TagElementKwargToken {
    pub at: At,
    pub token_type: TagElementTokenType,
    pub kwarg: Option<At>,
}

impl TagElementKwargToken {
    pub open spec fn wf(self, template: Seq<char>) -> bool {
        &&& self.token_type.wf(self.at, template)
        &&& match self.kwarg {
            Some(name_at) => {
                &&& is_span(template, name_at)
                &&& name_at.1 + 1 + self.at.1 <= usize::MAX
            },
            None => true,
        }
    }
}

#[derive(Clone, Copy, Debug, PartialEq, Eq, Structural)]
pub enum IfConditionOperator {
    And,
    Or,
    In,
    NotIn,
    Is,
    IsNot,
    Equal,
    NotEqual,
    GreaterThan,
    LessThan,
    GreaterThanEqual,
    LessThanEqual,
}

#[derive(Debug)]
pub enum IfConditionTokenType {
    Atom(TagElementTokenType),
    Operator(IfConditionOperator),
    Not,
}

#[derive(Debug)]
pub struct IfConditionToken {
    pub at: At,
    pub token_type: IfConditionTokenType,
}

impl IfConditionToken {
    /// The location of the content of the token.
    pub open spec fn content_location(self) -> At {
        match self.token_type {
            IfConditionTokenType::Atom(atom) => atom.content_of(self.at),
            _ => self.at,
        }
    }

    pub open spec fn wf(self, template: Seq<char>) -> bool {
        &&& is_span(template, self.at)
        &&& match self.token_type {
            IfConditionTokenType::Atom(atom) => atom.wf(self.at, template),
            _ => true,
        }
    }

    /// The location of the content of the token.
    pub fn content_at(&self) -> (r: At)
        requires
            self.token_type matches IfConditionTokenType::Atom(atom) ==> {
                &&& atom is Text ==> self.at.0 + 1 <= usize::MAX && self.at.1 >= 2
                &&& atom is TranslatedText ==> self.at.0 + 3 <= usize::MAX && self.at.1 >= 5
            },
        ensures
            r == self.content_location(),
    {
        match &self.token_type {
            IfConditionTokenType::Atom(atom) => atom.content_at(self.at),
            _ => self.at,
        }
    }
}

pub type IfConditionTokens = Vec<Result<IfConditionToken, LexerError>>;

/// One of the names that a for loop binds.
#[derive(Clone, Copy, Debug)]
pub struct ForVariableNameToken {
    pub at: At,
}

/// What a for loop iterates over.
#[derive(Debug)]
pub struct ForExpressionToken {
    pub at: At,
    pub token_type: TagElementTokenType,
}

/// The arguments of a for loop, in the order in which they are read.
#[derive(Debug)]
pub struct ForArguments {
    pub variable_names: Vec<Result<ForVariableNameToken, LexerFault>>,
    pub in_keyword: Result<(), ForLexerInError>,
    pub expression: Result<ForExpressionToken, LexerFault>,
    pub reversed: Result<bool, LexerFault>,
}

impl ForArguments {
    pub open spec fn wf(self, template: Seq<char>) -> bool {
        &&& forall|i: int|
            0 <= i < self.variable_names@.len() ==> match #[trigger] self.variable_names@[i] {
                Ok(token) => is_span(template, token.at),
                Err(_) => true,
            }
        &&& forall|i: int, j: int|
            0 <= i < j < self.variable_names@.len() && self.variable_names@[i] is Ok
                && self.variable_names@[j] is Ok ==> (
            #[trigger] self.variable_names@[i])->Ok_0.at.0 <= (
            #[trigger] self.variable_names@[j])->Ok_0.at.0
        &&& match self.expression {
            Ok(token) => token.token_type.wf(token.at, template),
            Err(_) => true,
        }
    }
}

/// The template that an inclusion names.
#[derive(Debug)]
pub enum IncludeTemplateTokenType {
    Text,
    Variable(VariableSource),
}

#[derive(Debug)]
pub struct IncludeTemplateToken {
    pub at: At,
    pub token_type: IncludeTemplateTokenType,
}

impl IncludeTemplateToken {
    /// The location of the content of the token.
    pub open spec fn content_location(self) -> At {
        match self.token_type {
            IncludeTemplateTokenType::Text => text_content(self.at),
            IncludeTemplateTokenType::Variable(_) => self.at,
        }
    }

    pub open spec fn wf(self, template: Seq<char>) -> bool {
        &&& is_span(template, self.at)
        &&& is_span(template, self.content_location())
        &&& match self.token_type {
            IncludeTemplateTokenType::Text => self.at.1 >= 2,
            IncludeTemplateTokenType::Variable(variable) => variable_wf(variable, template),
        }
    }
}

#[derive(Clone, Copy, Debug, PartialEq, Eq)]
pub enum IncludeWithToken {
    End,
    Only(At),
    With(At),
}

#[derive(Debug)]
pub enum IncludeToken {
    Only(At),
    Kwarg { kwarg_at: At, token: TagElementToken },
}

/// The arguments of an inclusion, in the order in which they are read.
///
/// `relative_path` is the path that the name of the template stands for, if it is a string
/// literal that is relative to the template at hand.
#[derive(Debug)]
pub struct IncludeArguments {
    pub template: Result<Option<IncludeTemplateToken>, LexerFault>,
    pub relative_path: Result<Option<String>, LexerFault>,
    pub first: Result<IncludeWithToken, LexerFault>,
    pub second: Result<IncludeWithToken, LexerFault>,
    pub rest: Vec<Result<IncludeToken, LexerFault>>,
}

impl IncludeArguments {
    pub open spec fn wf(self, template: Seq<char>) -> bool {
        &&& self.template matches Ok(Some(token)) ==> token.wf(template)
        &&& forall|i: int|
            0 <= i < self.rest@.len() ==> match #[trigger] self.rest@[i] {
                Ok(IncludeToken::Kwarg { kwarg_at, token }) => {
                    is_span(template, kwarg_at) && token.wf(template)
                },
                _ => true,
            }
    }
}

/// The name of a library, of a tag or filter in one, or the word `from`.
#[derive(Clone, Copy, Debug)]
pub struct LoadToken {
    pub at: At,
}

#[derive(Clone, Copy, Debug, PartialEq, Eq, Structural)]
pub enum LoremMethod {
    Words,
    Paragraphs,
    Blocks,
}

#[derive(Debug)]
pub enum LoremTokenType {
    Count(TagElementToken),
    Method(LoremMethod),
    Random,
}

/// An argument of placeholder text, with what it consists of when read as a variable.
#[derive(Debug)]
pub struct LoremToken {
    pub at: At,
    pub token_type: LoremTokenType,
    pub variable: VariableSource,
}

pub type LoremTokens = Vec<Result<LoremToken, LexerFault>>;

/// The arguments of placeholder text are well-formed: their order is a count, a method, and the
/// word `random`, and what follows that is an error.
pub open spec fn lorem_wf(tokens: Seq<Result<LoremToken, LexerFault>>, template: Seq<char>) -> bool {
    &&& forall|i: int|
        0 <= i < tokens.len() ==> match #[trigger] tokens[i] {
            Ok(token) => {
                &&& is_span(template, token.at)
                &&& variable_wf(token.variable, template)
                &&& match token.token_type {
                    LoremTokenType::Count(count) => count.wf(template),
                    _ => true,
                }
            },
            Err(_) => true,
        }
    &&& tokens.len() >= 2 && tokens[0] is Ok && tokens[1] is Ok ==> {
        &&& !(tokens[1]->Ok_0.token_type is Count)
        &&& tokens.len() >= 3 && tokens[2] is Ok ==> {
            &&& tokens[1]->Ok_0.token_type is Method
            &&& tokens[2]->Ok_0.token_type is Random
            &&& tokens.len() >= 4 ==> tokens[3] is Err
        }
    }
}

/// The arguments of the current date, in the order in which they are read.
#[derive(Debug)]
pub struct NowArguments {
    pub format: Result<At, LexerFault>,
    pub variable: Result<Option<At>, LexerFault>,
    pub extra: Result<(), LexerFault>,
}

#[derive(Clone, Copy, Debug, PartialEq, Eq, Structural)]
pub enum TemplateTag {
    OpenBlock,
    CloseBlock,
    OpenVariable,
    CloseVariable,
    OpenBrace,
    CloseBrace,
    OpenComment,
    CloseComment,
}

#[derive(Clone, Copy, Debug, PartialEq, Eq, Structural)]
pub enum AutoescapeEnabled {
    On,
    Off,
}

pub type ElementTokens = Vec<Result<TagElementToken, LexerError>>;

pub type KwargTokens = Vec<Result<TagElementKwargToken, LexerFault>>;

/// The arguments of a tag.
#[derive(Debug)]
pub enum Arguments {
    Empty,
    Autoescape(Result<AutoescapeEnabled, LexerFault>),
    Elements(ElementTokens),
    For(ForArguments),
    If(IfConditionTokens),
    Include(IncludeArguments),
    Kwargs(KwargTokens),
    Load(Vec<LoadToken>),
    Lorem(LoremTokens),
    Now(NowArguments),
    TemplateTag(Result<TemplateTag, LexerFault>),
}

impl Arguments {
    pub open spec fn wf(self, template: Seq<char>) -> bool {
        match self {
            Arguments::Elements(tokens) => elements_wf(tokens@, template),
            Arguments::For(arguments) => arguments.wf(template),
            Arguments::If(tokens) => if_tokens_wf(tokens@, template),
            Arguments::Include(arguments) => arguments.wf(template),
            Arguments::Kwargs(tokens) => kwargs_wf(tokens@, template),
            Arguments::Load(tokens) => load_wf(tokens@, template),
            Arguments::Lorem(tokens) => lorem_wf(tokens@, template),
            Arguments::Now(arguments) => {
                &&& arguments.format matches Ok(at) ==> is_span(template, at)
                &&& arguments.variable matches Ok(Some(at)) ==> is_span(template, at)
            },
            _ => true,
        }
    }
}

/// The tokens of elements are well-formed.
pub open spec fn elements_wf(
    tokens: Seq<Result<TagElementToken, LexerError>>,
    template: Seq<char>,
) -> bool {
    forall|i: int|
        0 <= i < tokens.len() ==> match #[trigger] tokens[i] {
            Ok(token) => token.wf(template),
            Err(_) => true,
        }
}

/// The tokens of a load tag lie in the template.
pub open spec fn load_wf(tokens: Seq<LoadToken>, template: Seq<char>) -> bool {
    forall|i: int| 0 <= i < tokens.len() ==> is_span(template, (#[trigger] tokens[i]).at)
}

/// The tokens of a condition are well-formed.
pub open spec fn if_tokens_wf(
    tokens: Seq<Result<IfConditionToken, LexerError>>,
    template: Seq<char>,
) -> bool {
    forall|i: int|
        0 <= i < tokens.len() ==> match #[trigger] tokens[i] {
            Ok(token) => token.wf(template),
            Err(_) => true,
        }
}

/// The tokens of elements with keywords are well-formed, and in the order of the source.
pub open spec fn kwargs_wf(
    tokens: Seq<Result<TagElementKwargToken, LexerFault>>,
    template: Seq<char>,
) -> bool {
    &&& forall|i: int|
        0 <= i < tokens.len() ==> match #[trigger] tokens[i] {
            Ok(token) => token.wf(template),
            Err(_) => true,
        }
    &&& forall|i: int, j: int|
        0 <= i < j < tokens.len() && tokens[i] is Ok && tokens[j] is Ok ==> (
        #[trigger] tokens[i])->Ok_0.at.0 <= (#[trigger] tokens[j])->Ok_0.at.0
}

/// The lexers of arguments.
#[derive(Clone, Copy, Debug, PartialEq, Eq, Structural)]
pub enum ArgumentLexer {
    /// What follows the name of the tag is not read.
    Unread,
    Autoescape,
    Elements,
    For,
    If,
    Include,
    Kwargs,
    Load,
    Lorem,
    Now,
    TemplateTag,
}

/// The lexer that reads the arguments of the tag with a name. Tags that a library defines have
/// their arguments read as elements with keywords.
pub open spec fn argument_lexer(name: Seq<char>) -> ArgumentLexer {
    if name == "url"@ || name == "firstof"@ {
        ArgumentLexer::Kwargs
    } else if name == "csrf_token"@ {
        ArgumentLexer::Unread
    } else if name == "load"@ {
        ArgumentLexer::Load
    } else if name == "autoescape"@ {
        ArgumentLexer::Autoescape
    } else if name == "endautoescape"@ || name == "endverbatim"@ {
        ArgumentLexer::Unread
    } else if name == "if"@ || name == "elif"@ {
        ArgumentLexer::If
    } else if name == "else"@ || name == "endif"@ {
        ArgumentLexer::Unread
    } else if name == "for"@ {
        ArgumentLexer::For
    } else if name == "empty"@ || name == "endfor"@ {
        ArgumentLexer::Unread
    } else if name == "include"@ {
        ArgumentLexer::Include
    } else if name == "lorem"@ {
        ArgumentLexer::Lorem
    } else if name == "comment"@ {
        ArgumentLexer::Unread
    } else if name == "now"@ {
        ArgumentLexer::Now
    } else if name == "templatetag"@ {
        ArgumentLexer::TemplateTag
    } else if name == "cycle"@ {
        ArgumentLexer::Elements
    } else {
        ArgumentLexer::Kwargs
    }
}

/// Which lexer reads the arguments of the tag with a name.
pub fn argument_lexer_of(name: &str) -> (r: ArgumentLexer)
    ensures
        r == argument_lexer(name@),
{
    if str_eq(name, "url") || str_eq(name, "firstof") {
        ArgumentLexer::Kwargs
    } else if str_eq(name, "csrf_token") {
        ArgumentLexer::Unread
    } else if str_eq(name, "load") {
        ArgumentLexer::Load
    } else if str_eq(name, "autoescape") {
        ArgumentLexer::Autoescape
    } else if str_eq(name, "endautoescape") || str_eq(name, "endverbatim") {
        ArgumentLexer::Unread
    } else if str_eq(name, "if") || str_eq(name, "elif") {
        ArgumentLexer::If
    } else if str_eq(name, "else") || str_eq(name, "endif") {
        ArgumentLexer::Unread
    } else if str_eq(name, "for") {
        ArgumentLexer::For
    } else if str_eq(name, "empty") || str_eq(name, "endfor") {
        ArgumentLexer::Unread
    } else if str_eq(name, "include") {
        ArgumentLexer::Include
    } else if str_eq(name, "lorem") {
        ArgumentLexer::Lorem
    } else if str_eq(name, "comment") {
        ArgumentLexer::Unread
    } else if str_eq(name, "now") {
        ArgumentLexer::Now
    } else if str_eq(name, "templatetag") {
        ArgumentLexer::TemplateTag
    } else if str_eq(name, "cycle") {
        ArgumentLexer::Elements
    } else {
        ArgumentLexer::Kwargs
    }
}

impl Arguments {
    /// Whether a lexer gives arguments of this kind.
    pub open spec fn come_from(self, lexer: ArgumentLexer) -> bool {
        match lexer {
            ArgumentLexer::Unread => true,
            ArgumentLexer::Autoescape => self is Autoescape,
            ArgumentLexer::Elements => self is Elements,
            ArgumentLexer::For => self is For,
            ArgumentLexer::If => self is If,
            ArgumentLexer::Include => self is Include,
            ArgumentLexer::Kwargs => self is Kwargs,
            ArgumentLexer::Load => self is Load,
            ArgumentLexer::Lorem => self is Lorem,
            ArgumentLexer::Now => self is Now,
            ArgumentLexer::TemplateTag => self is TemplateTag,
        }
    }

    /// Whether a lexer gives arguments of this kind.
    pub fn comes_from(&self, lexer: ArgumentLexer) -> (r: bool)
        ensures
            r == self.come_from(lexer),
    {
        match (lexer, self) {
            (ArgumentLexer::Unread, _) => true,
            (ArgumentLexer::Autoescape, Arguments::Autoescape(_)) => true,
            (ArgumentLexer::Elements, Arguments::Elements(_)) => true,
            (ArgumentLexer::For, Arguments::For(_)) => true,
            (ArgumentLexer::If, Arguments::If(_)) => true,
            (ArgumentLexer::Include, Arguments::Include(_)) => true,
            (ArgumentLexer::Kwargs, Arguments::Kwargs(_)) => true,
            (ArgumentLexer::Load, Arguments::Load(_)) => true,
            (ArgumentLexer::Lorem, Arguments::Lorem(_)) => true,
            (ArgumentLexer::Now, Arguments::Now(_)) => true,
            (ArgumentLexer::TemplateTag, Arguments::TemplateTag(_)) => true,
            _ => false,
        }
    }
}

/// The location of what stands between the delimiters of a tag.
pub open spec fn tag_content(at: At) -> At {
    ((at.0 + START_TAG_LEN) as usize, (at.1 - START_TAG_LEN - END_TAG_LEN) as usize)
}

/// The location of a tag has room for the delimiters.
pub open spec fn is_delimited(template: Seq<char>, at: At) -> bool {
    &&& is_span(template, at)
    &&& at.1 >= START_TAG_LEN + END_TAG_LEN
    &&& is_span(template, tag_content(at))
}

/// The tag that stands at a location.
pub open spec fn source_tag(template: Seq<char>, at: At) -> Result<Tag, TagLexerError> {
    let content = tag_content(at);
    tag_of(classes_of(span(template, content)), content.0 as nat)
}

/// The tag that stands at a location, which lies in the template.
pub fn lex_tag_at(template: TemplateString<'_>, at: At) -> (r: Result<Tag, TagLexerError>)
    requires
        is_delimited(template@, at),
    ensures
        r == source_tag(template@, at),
        r matches Ok(tag) ==> is_span(template@, tag.at) && is_span(template@, tag.parts.at),
{
    let content_at: At = (at.0 + START_TAG_LEN, at.1 - START_TAG_LEN - END_TAG_LEN);
    let content = template.content(content_at);
    proof {
        lemma_span_bytes(template@, content_at);
    }
    let tag = lex_tag(content, content_at.0);
    if tag.is_ok() {
        proof {
            law_tag_lies_in_template(template@, content_at);
        }
    }
    tag
}

impl Arguments {
    /// The arguments are those of the tag at a location, if its name can be read.
    pub open spec fn belong_to(self, template: Seq<char>, at: At) -> bool {
        source_tag(template, at) matches Ok(tag) ==> {
            &&& self.wf(template)
            &&& self.come_from(argument_lexer(span(template, tag.at)))
        }
    }
}

/// The kind of a piece; of a variable, what it consists of, and of a tag, its arguments.
#[derive(Debug)]
pub enum TokenType {
    Text,
    Comment,
    Variable(VariableSource),
    Tag(Arguments),
}

/// A piece of a template.
#[derive(Debug)]
pub struct Token {
    pub at: At,
    pub token_type: TokenType,
}

impl Token {
    pub open spec fn wf(self, template: Seq<char>) -> bool {
        &&& is_span(template, self.at)
        &&& match self.token_type {
            TokenType::Text => true,
            TokenType::Comment => true,
            TokenType::Variable(variable) => variable_wf(variable, template),
            TokenType::Tag(arguments) => {
                is_delimited(template, self.at) && arguments.belong_to(template, self.at)
            },
        }
    }
}

/// The tokens of a template are well-formed.
pub open spec fn tokens_wf(tokens: Seq<Token>, template: Seq<char>) -> bool {
    forall|i: int| 0 <= i < tokens.len() ==> (#[trigger] tokens[i]).wf(template)
}

/// The tags whose arguments a lexer of their own reads, by the lexer.
pub open spec fn read_by(lexer: ArgumentLexer) -> Seq<Seq<char>> {
    match lexer {
        ArgumentLexer::Autoescape => seq!["autoescape"@],
        ArgumentLexer::Elements => seq!["cycle"@],
        ArgumentLexer::For => seq!["for"@],
        ArgumentLexer::If => seq!["if"@, "elif"@],
        ArgumentLexer::Include => seq!["include"@],
        ArgumentLexer::Load => seq!["load"@],
        ArgumentLexer::Lorem => seq!["lorem"@],
        ArgumentLexer::Now => seq!["now"@],
        ArgumentLexer::TemplateTag => seq!["templatetag"@],
        ArgumentLexer::Unread => seq![
            "csrf_token"@,
            "comment"@,
            "else"@,
            "empty"@,
            "endif"@,
            "endfor"@,
            "endautoescape"@,
            "endverbatim"@,
        ],
        ArgumentLexer::Kwargs => Seq::empty(),
    }
}

/// The arguments of a tag are read by the lexer of this tag, and by that for elements with keywords
/// where it has none of its own.
pub proof fn law_arguments_are_read_by_their_lexer(name: Seq<char>, lexer: ArgumentLexer)
    ensures
        read_by(lexer).contains(name) ==> argument_lexer(name) == lexer,
        !(lexer is Kwargs) && argument_lexer(name) == lexer ==> read_by(lexer).contains(name),
{
    reveal_strlit("url");
    assert("url"@.len() == 3 && "url"@[0] == 'u');
    reveal_strlit("firstof");
    assert("firstof"@.len() == 7 && "firstof"@[0] == 'f');
    reveal_strlit("csrf_token");
    assert("csrf_token"@.len() == 10 && "csrf_token"@[0] == 'c');
    reveal_strlit("load");
    assert("load"@.len() == 4 && "load"@[0] == 'l');
    reveal_strlit("autoescape");
    assert("autoescape"@.len() == 10 && "autoescape"@[0] == 'a');
    reveal_strlit("endautoescape");
    assert("endautoescape"@.len() == 13 && "endautoescape"@[0] == 'e');
    reveal_strlit("endverbatim");
    assert("endverbatim"@.len() == 11 && "endverbatim"@[0] == 'e');
    reveal_strlit("if");
    assert("if"@.len() == 2 && "if"@[0] == 'i');
    reveal_strlit("elif");
    assert("elif"@.len() == 4 && "elif"@[0] == 'e');
    reveal_strlit("else");
    assert("else"@.len() == 4 && "else"@[0] == 'e');
    reveal_strlit("endif");
    assert("endif"@.len() == 5 && "endif"@[0] == 'e');
    reveal_strlit("for");
    assert("for"@.len() == 3 && "for"@[0] == 'f');
    reveal_strlit("empty");
    assert("empty"@.len() == 5 && "empty"@[0] == 'e');
    reveal_strlit("endfor");
    assert("endfor"@.len() == 6 && "endfor"@[0] == 'e');
    reveal_strlit("include");
    assert("include"@.len() == 7 && "include"@[0] == 'i');
    reveal_strlit("lorem");
    assert("lorem"@.len() == 5 && "lorem"@[0] == 'l');
    reveal_strlit("comment");
    assert("comment"@.len() == 7 && "comment"@[0] == 'c');
    reveal_strlit("now");
    assert("now"@.len() == 3 && "now"@[0] == 'n');
    reveal_strlit("templatetag");
    assert("templatetag"@.len() == 11 && "templatetag"@[0] == 't');
    reveal_strlit("cycle");
    assert("cycle"@.len() == 5 && "cycle"@[0] == 'c');
    assert("elif"@[2] == 'i' && "else"@[2] == 's' && "endif"@[1] == 'n' && "empty"@[1] == 'm');
    if read_by(lexer).contains(name) {
        let i = choose|i: int| 0 <= i < read_by(lexer).len() && read_by(lexer)[i] == name;
        assert(read_by(lexer)[i] == name);
    }
    if !(lexer is Kwargs) && argument_lexer(name) == lexer {
        let all = read_by(lexer);
        assert(all[0] == all[0]);
        if lexer is If {
            assert(all[1] == "elif"@);
        }
        if lexer is Unread {
            assert(all[1] == "comment"@ && all[2] == "else"@ && all[3] == "empty"@ && all[4]
                == "endif"@ && all[5] == "endfor"@ && all[6] == "endautoescape"@ && all[7]
                == "endverbatim"@);
        }
    }
}

/// What stands between the delimiters of a tag leaves out two bytes at either end.
pub proof fn law_delimiters_are_left_out(template: Seq<char>, at: At)
    requires
        is_delimited(template, at),
    ensures
        tag_content(at).0 == at.0 + 2,
        tag_content(at).0 + tag_content(at).1 + 2 == at.0 + at.1,
{
}

} // verus!
