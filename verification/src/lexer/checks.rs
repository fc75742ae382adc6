//! Whether tokens fit a template.
use vstd::prelude::*;
use crate::lexer::tokens::{
    argument_lexer_of, elements_wf, if_tokens_wf, is_delimited, kwargs_wf, lex_tag_at, load_wf,
    lorem_wf, text_content, tokens_wf, variable_wf, ArgumentToken, Arguments, ElementTokens,
    FilterToken, ForArguments, ForVariableNameToken, IfConditionToken, IfConditionTokenType,
    IfConditionTokens, IncludeArguments, IncludeTemplateToken, IncludeTemplateTokenType,
    IncludeToken, KwargTokens, LexedVariable, LexerFault, LoadToken, LoremToken, LoremTokenType,
    LoremTokens, TagElementKwargToken, TagElementToken, TagElementTokenType, Token, TokenType,
    VariableSource,
};
use crate::text::{is_span, At, TemplateString};
use crate::{END_TAG_LEN, START_TAG_LEN};

verus! {

/// Whether a location lies in a template.
fn lies(template: TemplateString<'_>, at: At) -> (r: bool)
    ensures
        r == is_span(template@, at),
{
    template.get(at).is_some()
}

/// Whether what stands between the quotes of a text lies in a template.
fn text_lies(template: TemplateString<'_>, at: At) -> (r: bool)
    requires
        is_span(template@, at),
        at.1 >= 2,
    ensures
        r == is_span(template@, text_content(at)),
{
    lies(template, (at.0 + 1, at.1 - 2))
}

impl ArgumentToken {
    /// Whether the argument fits a template.
    pub fn fits(&self, template: TemplateString<'_>) -> (r: bool)
        ensures
            r == self.wf(template@),
    {
        match self {
            ArgumentToken::Numeric { at, .. } => lies(template, *at),
            ArgumentToken::Text(at) => lies(template, *at) && at.1 >= 2,
            ArgumentToken::TranslatedText(at) => lies(template, *at) && at.1 >= 5,
            ArgumentToken::Variable(at) => lies(template, *at),
        }
    }
}

impl FilterToken {
    /// Whether the filter fits a template.
    pub fn fits(&self, template: TemplateString<'_>) -> (r: bool)
        ensures
            r == self.wf(template@),
    {
        lies(template, self.at) && match &self.argument {
            Some(argument) => argument.fits(template),
            None => true,
        }
    }
}

impl LexedVariable {
    /// Whether the variable and its filters fit a template.
    pub fn fits(&self, template: TemplateString<'_>) -> (r: bool)
        ensures
            r == self.wf(template@),
    {
        if !lies(template, self.at) {
            return false;
        }
        let mut i: usize = 0;
        while i < self.filters.len()
            invariant
                0 <= i <= self.filters@.len(),
                is_span(template@, self.at),
                forall|j: int|
                    0 <= j < i ==> match #[trigger] self.filters@[j] {
                        Ok(filter) => filter.wf(template@) && self.at.0 <= filter.at.0,
                        Err(_) => true,
                    },
            decreases self.filters@.len() - i,
        {
            if let Ok(filter) = &self.filters[i] {
                if !filter.fits(template) || filter.at.0 < self.at.0 {
                    assert(self.filters@[i as int] is Ok);
                    return false;
                }
            }
            i += 1;
        }
        true
    }
}

/// Whether what is found where a variable is expected fits a template.
fn variable_fits(variable: &VariableSource, template: TemplateString<'_>) -> (r: bool)
    ensures
        r == variable_wf(*variable, template@),
{
    match variable {
        Ok(Some(lexed)) => lexed.fits(template),
        _ => true,
    }
}

impl TagElementTokenType {
    /// Whether an element at a location fits a template.
    pub fn fits(&self, at: At, template: TemplateString<'_>) -> (r: bool)
        ensures
            r == self.wf(at, template@),
    {
        if !lies(template, at) {
            return false;
        }
        match self {
            TagElementTokenType::Numeric(_) => true,
            TagElementTokenType::Text => at.1 >= 2 && text_lies(template, at),
            TagElementTokenType::TranslatedText => at.1 >= 5 && lies(
                template,
                (at.0 + 3, at.1 - 5),
            ),
            TagElementTokenType::Variable(variable) => variable_fits(variable, template),
        }
    }
}

impl TagElementToken {
    /// Whether the element fits a template.
    pub fn fits(&self, template: TemplateString<'_>) -> (r: bool)
        ensures
            r == self.wf(template@),
    {
        self.token_type.fits(self.at, template)
    }
}

impl TagElementKwargToken {
    /// Whether the element and its keyword fit a template.
    pub fn fits(&self, template: TemplateString<'_>) -> (r: bool)
        ensures
            r == self.wf(template@),
    {
        self.token_type.fits(self.at, template) && match self.kwarg {
            Some(name_at) => lies(template, name_at) && name_at.1 <= usize::MAX - 1 && name_at.1 + 1
                <= usize::MAX - self.at.1,
            None => true,
        }
    }
}

impl IfConditionToken {
    /// Whether a part of a condition fits a template.
    pub fn fits(&self, template: TemplateString<'_>) -> (r: bool)
        ensures
            r == self.wf(template@),
    {
        lies(template, self.at) && match &self.token_type {
            IfConditionTokenType::Atom(atom) => atom.fits(self.at, template),
            _ => true,
        }
    }
}

impl IncludeTemplateToken {
    /// Whether the name of a template fits a template.
    pub fn fits(&self, template: TemplateString<'_>) -> (r: bool)
        ensures
            r == self.wf(template@),
    {
        lies(template, self.at) && match &self.token_type {
            IncludeTemplateTokenType::Text => self.at.1 >= 2 && text_lies(template, self.at),
            IncludeTemplateTokenType::Variable(variable) => variable_fits(variable, template),
        }
    }
}

/// Whether elements fit a template.
fn elements_fit(tokens: &ElementTokens, template: TemplateString<'_>) -> (r: bool)
    ensures
        r == elements_wf(tokens@, template@),
{
    let mut i: usize = 0;
    while i < tokens.len()
        invariant
            0 <= i <= tokens@.len(),
            forall|j: int|
                0 <= j < i ==> match #[trigger] tokens@[j] {
                    Ok(token) => token.wf(template@),
                    Err(_) => true,
                },
        decreases tokens@.len() - i,
    {
        if let Ok(token) = &tokens[i] {
            if !token.fits(template) {
                assert(tokens@[i as int] is Ok);
                return false;
            }
        }
        i += 1;
    }
    true
}

/// Whether the parts of a condition fit a template.
fn if_tokens_fit(tokens: &IfConditionTokens, template: TemplateString<'_>) -> (r: bool)
    ensures
        r == if_tokens_wf(tokens@, template@),
{
    let mut i: usize = 0;
    while i < tokens.len()
        invariant
            0 <= i <= tokens@.len(),
            forall|j: int|
                0 <= j < i ==> match #[trigger] tokens@[j] {
                    Ok(token) => token.wf(template@),
                    Err(_) => true,
                },
        decreases tokens@.len() - i,
    {
        if let Ok(token) = &tokens[i] {
            if !token.fits(template) {
                assert(tokens@[i as int] is Ok);
                return false;
            }
        }
        i += 1;
    }
    true
}

/// Whether elements with keywords fit a template, in the order of the source.
fn kwargs_fit(tokens: &KwargTokens, template: TemplateString<'_>) -> (r: bool)
    ensures
        r == kwargs_wf(tokens@, template@),
{
    let mut last: usize = 0;
    let ghost mut holder: int = -1;
    let mut i: usize = 0;
    while i < tokens.len()
        invariant
            0 <= i <= tokens@.len(),
            -1 <= holder < i,
            holder == -1 ==> last == 0,
            holder >= 0 ==> tokens@[holder] is Ok && tokens@[holder]->Ok_0.at.0 == last,
            forall|j: int|
                0 <= j < i ==> match #[trigger] tokens@[j] {
                    Ok(token) => token.wf(template@) && token.at.0 <= last,
                    Err(_) => true,
                },
            forall|j: int, k: int|
                0 <= j < k < i && tokens@[j] is Ok && tokens@[k] is Ok ==> (
                #[trigger] tokens@[j])->Ok_0.at.0 <= (#[trigger] tokens@[k])->Ok_0.at.0,
        decreases tokens@.len() - i,
    {
        if let Ok(token) = &tokens[i] {
            assert(tokens@[i as int] is Ok);
            if !token.fits(template) {
                return false;
            }
            if token.at.0 < last {
                assert(tokens@[holder]->Ok_0.at.0 > tokens@[i as int]->Ok_0.at.0);
                return false;
            }
            last = token.at.0;
            proof {
                holder = i as int;
            }
        }
        i += 1;
    }
    true
}

/// Whether the names of a for loop lie in a template, in the order of the source.
fn names_fit(
    names: &Vec<Result<ForVariableNameToken, LexerFault>>,
    template: TemplateString<'_>,
) -> (r: bool)
    ensures
        r == {
            &&& forall|i: int|
                0 <= i < names@.len() ==> match #[trigger] names@[i] {
                    Ok(token) => is_span(template@, token.at),
                    Err(_) => true,
                }
            &&& forall|i: int, j: int|
                0 <= i < j < names@.len() && names@[i] is Ok && names@[j] is Ok ==> (
                #[trigger] names@[i])->Ok_0.at.0 <= (#[trigger] names@[j])->Ok_0.at.0
        },
{
    let mut last: usize = 0;
    let ghost mut holder: int = -1;
    let mut i: usize = 0;
    while i < names.len()
        invariant
            0 <= i <= names@.len(),
            -1 <= holder < i,
            holder == -1 ==> last == 0,
            holder >= 0 ==> names@[holder] is Ok && names@[holder]->Ok_0.at.0 == last,
            forall|j: int|
                0 <= j < i ==> match #[trigger] names@[j] {
                    Ok(token) => is_span(template@, token.at) && token.at.0 <= last,
                    Err(_) => true,
                },
            forall|j: int, k: int|
                0 <= j < k < i && names@[j] is Ok && names@[k] is Ok ==> (
                #[trigger] names@[j])->Ok_0.at.0 <= (#[trigger] names@[k])->Ok_0.at.0,
        decreases names@.len() - i,
    {
        if let Ok(token) = &names[i] {
            assert(names@[i as int] is Ok);
            if !lies(template, token.at) {
                return false;
            }
            if token.at.0 < last {
                assert(names@[holder]->Ok_0.at.0 > names@[i as int]->Ok_0.at.0);
                return false;
            }
            last = token.at.0;
            proof {
                holder = i as int;
            }
        }
        i += 1;
    }
    true
}

impl ForArguments {
    /// Whether the arguments of a for loop fit a template.
    pub fn fit(&self, template: TemplateString<'_>) -> (r: bool)
        ensures
            r == self.wf(template@),
    {
        names_fit(&self.variable_names, template) && match &self.expression {
            Ok(token) => token.token_type.fits(token.at, template),
            Err(_) => true,
        }
    }
}

impl IncludeArguments {
    /// Whether the arguments of an inclusion fit a template.
    pub fn fit(&self, template: TemplateString<'_>) -> (r: bool)
        ensures
            r == self.wf(template@),
    {
        if let Ok(Some(token)) = &self.template {
            if !token.fits(template) {
                return false;
            }
        }
        let mut i: usize = 0;
        while i < self.rest.len()
            invariant
                0 <= i <= self.rest@.len(),
                self.template matches Ok(Some(token)) ==> token.wf(template@),
                forall|j: int|
                    0 <= j < i ==> match #[trigger] self.rest@[j] {
                        Ok(IncludeToken::Kwarg { kwarg_at, token }) => {
                            is_span(template@, kwarg_at) && token.wf(template@)
                        },
                        _ => true,
                    },
            decreases self.rest@.len() - i,
        {
            if let Ok(IncludeToken::Kwarg { kwarg_at, token }) = &self.rest[i] {
                if !lies(template, *kwarg_at) || !token.fits(template) {
                    assert(self.rest@[i as int] is Ok);
                    return false;
                }
            }
            i += 1;
        }
        true
    }
}

/// Whether the words of a load tag lie in a template.
fn load_fits(tokens: &Vec<LoadToken>, template: TemplateString<'_>) -> (r: bool)
    ensures
        r == load_wf(tokens@, template@),
{
    let mut i: usize = 0;
    while i < tokens.len()
        invariant
            0 <= i <= tokens@.len(),
            forall|j: int| 0 <= j < i ==> is_span(template@, (#[trigger] tokens@[j]).at),
        decreases tokens@.len() - i,
    {
        if !lies(template, tokens[i].at) {
            return false;
        }
        i += 1;
    }
    true
}

impl LoremToken {
    /// Whether an argument of placeholder text fits a template.
    pub fn fits(&self, template: TemplateString<'_>) -> (r: bool)
        ensures
            r == {
                &&& is_span(template@, self.at)
                &&& variable_wf(self.variable, template@)
                &&& match self.token_type {
                    LoremTokenType::Count(count) => count.wf(template@),
                    _ => true,
                }
            },
    {
        lies(template, self.at) && variable_fits(&self.variable, template)
            && match &self.token_type {
            LoremTokenType::Count(count) => count.fits(template),
            _ => true,
        }
    }

    fn is_count(&self) -> (r: bool)
        ensures
            r == (self.token_type is Count),
    {
        match &self.token_type {
            LoremTokenType::Count(_) => true,
            _ => false,
        }
    }

    fn is_method(&self) -> (r: bool)
        ensures
            r == (self.token_type is Method),
    {
        match &self.token_type {
            LoremTokenType::Method(_) => true,
            _ => false,
        }
    }

    fn is_random(&self) -> (r: bool)
        ensures
            r == (self.token_type is Random),
    {
        match &self.token_type {
            LoremTokenType::Random => true,
            _ => false,
        }
    }
}

/// Whether the arguments of placeholder text fit a template, in their order.
fn lorem_fits(tokens: &LoremTokens, template: TemplateString<'_>) -> (r: bool)
    ensures
        r == lorem_wf(tokens@, template@),
{
    let mut i: usize = 0;
    while i < tokens.len()
        invariant
            0 <= i <= tokens@.len(),
            forall|j: int|
                0 <= j < i ==> match #[trigger] tokens@[j] {
                    Ok(token) => {
                        &&& is_span(template@, token.at)
                        &&& variable_wf(token.variable, template@)
                        &&& match token.token_type {
                            LoremTokenType::Count(count) => count.wf(template@),
                            _ => true,
                        }
                    },
                    Err(_) => true,
                },
        decreases tokens@.len() - i,
    {
        if let Ok(token) = &tokens[i] {
            if !token.fits(template) {
                assert(tokens@[i as int] is Ok);
                return false;
            }
        }
        i += 1;
    }
    if tokens.len() < 2 || tokens[0].is_err() {
        return true;
    }
    match &tokens[1] {
        Err(_) => true,
        Ok(second) => {
            if second.is_count() {
                return false;
            }
            if tokens.len() < 3 {
                return true;
            }
            match &tokens[2] {
                Err(_) => true,
                Ok(third) => second.is_method() && third.is_random() && (tokens.len() < 4
                    || tokens[3].is_err()),
            }
        },
    }
}

impl Arguments {
    /// Whether the arguments fit a template.
    pub fn fit(&self, template: TemplateString<'_>) -> (r: bool)
        ensures
            r == self.wf(template@),
    {
        match self {
            Arguments::Elements(tokens) => elements_fit(tokens, template),
            Arguments::For(arguments) => arguments.fit(template),
            Arguments::If(tokens) => if_tokens_fit(tokens, template),
            Arguments::Include(arguments) => arguments.fit(template),
            Arguments::Kwargs(tokens) => kwargs_fit(tokens, template),
            Arguments::Load(tokens) => load_fits(tokens, template),
            Arguments::Lorem(tokens) => lorem_fits(tokens, template),
            Arguments::Now(arguments) => {
                let format_fits = match arguments.format {
                    Ok(at) => lies(template, at),
                    Err(_) => true,
                };
                let variable_fits = match arguments.variable {
                    Ok(Some(at)) => lies(template, at),
                    _ => true,
                };
                format_fits && variable_fits
            },
            _ => true,
        }
    }
}

impl Arguments {
    /// Whether the arguments are those of the tag at a location.
    pub fn belongs_to(&self, template: TemplateString<'_>, at: At) -> (r: bool)
        requires
            is_delimited(template@, at),
        ensures
            r == self.belong_to(template@, at),
    {
        match lex_tag_at(template, at) {
            Err(_) => true,
            Ok(tag) => self.fit(template) && self.comes_from(
                argument_lexer_of(tag.content(template)),
            ),
        }
    }
}

impl Token {
    /// Whether the token fits a template.
    pub fn fits(&self, template: TemplateString<'_>) -> (r: bool)
        ensures
            r == self.wf(template@),
    {
        if !lies(template, self.at) {
            return false;
        }
        match &self.token_type {
            TokenType::Text => true,
            TokenType::Comment => true,
            TokenType::Variable(variable) => variable_fits(variable, template),
            TokenType::Tag(arguments) => {
                let at = self.at;
                if at.1 < START_TAG_LEN + END_TAG_LEN {
                    return false;
                }
                lies(template, (at.0 + START_TAG_LEN, at.1 - START_TAG_LEN - END_TAG_LEN))
                    && arguments.belongs_to(template, at)
            },
        }
    }
}

/// Whether tokens fit a template.
pub fn tokens_fit(tokens: &Vec<Token>, template: TemplateString<'_>) -> (r: bool)
    ensures
        r == tokens_wf(tokens@, template@),
{
    let mut i: usize = 0;
    while i < tokens.len()
        invariant
            0 <= i <= tokens@.len(),
            forall|j: int| 0 <= j < i ==> (#[trigger] tokens@[j]).wf(template@),
        decreases tokens@.len() - i,
    {
        if !tokens[i].fits(template) {
            return false;
        }
        i += 1;
    }
    true
}

} // verus!
