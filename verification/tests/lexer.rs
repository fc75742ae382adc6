//! Reading the names of tags, and tokens that fit their template.
use django_templates::lexer::checks::tokens_fit;
use django_templates::lexer::tag::{lex_tag, TagLexerError, TagParts};
use django_templates::lexer::tokens::{
    Arguments, LexedVariable, LexerFault, LoadToken, LoremMethod, LoremToken, LoremTokenType,
    NowArguments, TagElementKwargToken, TagElementToken, TagElementTokenType, Token, TokenType,
    VariableSource, VariableToken,
};
use django_templates::text::TemplateString;
use django_templates::{END_TAG_LEN, START_TAG_LEN};

fn trim_tag(template: &str) -> &str {
    &template[START_TAG_LEN..(template.len() - END_TAG_LEN)]
}

#[test]
fn test_lex_empty() {
    let template = "{%  %}";
    let error = lex_tag(trim_tag(template), START_TAG_LEN).unwrap_err();
    assert_eq!(error, TagLexerError::EmptyTag { at: (0, 6) });
}

#[test]
fn test_lex_tag() {
    let template = "{% csrftoken %}";
    let tag = lex_tag(trim_tag(template), START_TAG_LEN).unwrap();
    assert_eq!(tag.at, (3, 9));
    assert_eq!(tag.content(TemplateString(template)), "csrftoken");
    assert_eq!(tag.parts, TagParts { at: (12, 0) });
}

#[test]
fn test_lex_invalid_tag() {
    let template = "{% url'foo' %}";
    let error = lex_tag(trim_tag(template), START_TAG_LEN).unwrap_err();
    assert_eq!(error, TagLexerError::InvalidTagName { at: (3, 8) });
}

#[test]
fn test_lex_invalid_tag_rest() {
    let template = "{% url'foo' bar %}";
    let error = lex_tag(trim_tag(template), START_TAG_LEN).unwrap_err();
    assert_eq!(error, TagLexerError::InvalidTagName { at: (3, 8) });
}

#[test]
fn test_lex_tag_rest() {
    let template = "{% url name arg %}";
    let tag = lex_tag(trim_tag(template), START_TAG_LEN).unwrap();
    assert_eq!(tag.at, (3, 3));
    assert_eq!(tag.content(TemplateString(template)), "url");
    assert_eq!(tag.parts, TagParts { at: (7, 8) });
}

#[test]
fn test_template_content_impl() {
    let template = "{% url name arg %}";
    let template_string = TemplateString("{% url name arg %}");
    let tag = lex_tag(trim_tag(template), START_TAG_LEN).unwrap();
    assert_eq!(tag.content(TemplateString(template)), "url");
    assert_eq!(template_string.content(tag.at), tag.content(template_string));
    assert_eq!(tag.parts.content(template_string), "name arg");
    assert_eq!(
        template_string.content(tag.parts.at),
        tag.parts.content(template_string)
    );
}

#[test]
fn whitespace_is_trimmed_by_bytes() {
    let template = "{%\u{3000}n\u{e4}me\u{a0} caf\u{e9} \t%}";
    let template_string = TemplateString(template);
    let tag = lex_tag(trim_tag(template), START_TAG_LEN).unwrap();
    assert_eq!(tag.content(template_string), "n\u{e4}me");
    assert_eq!(tag.parts.content(template_string), "caf\u{e9}");
    assert_eq!(tag.at, (5, 5));
}

#[test]
fn names_hold_no_punctuation() {
    let error = lex_tag(" a-b c", 10).unwrap_err();
    assert_eq!(error, TagLexerError::InvalidTagName { at: (11, 3) });
    assert_eq!(error.message(), "Invalid block tag name");
    assert_eq!(error.labels()[0].at, (11, 3));
    assert_eq!(error.labels()[0].text, "here");
    let error = lex_tag("", 2).unwrap_err();
    assert_eq!(error, TagLexerError::EmptyTag { at: (0, 4) });
    assert_eq!(error.message(), "Empty block tag");
}

fn variable(at: (usize, usize)) -> VariableSource {
    Ok(Some(LexedVariable { token: VariableToken::Variable, at, filters: vec![] }))
}

#[test]
fn names_and_parts_are_trimmed() {
    let template = TemplateString("{%\t\u{2003} now\u{a0} 'Y' \u{3000}%}");
    let content = &template.0[START_TAG_LEN..template.0.len() - END_TAG_LEN];
    let tag = lex_tag(content, START_TAG_LEN).unwrap();
    assert_eq!(tag.content(template), "now");
    assert_eq!(tag.parts.content(template), "'Y'");
    let template = TemplateString("{% else\u{2029}%}");
    let content = &template.0[START_TAG_LEN..template.0.len() - END_TAG_LEN];
    let tag = lex_tag(content, START_TAG_LEN).unwrap();
    assert_eq!(tag.content(template), "else");
    assert_eq!(tag.parts.content(template), "");
}

#[test]
fn tokens_fit_their_template() {
    let template = TemplateString("{{ a }}{% now 'Y' %}");
    let shown = |at: (usize, usize)| Token { at: (0, 7), token_type: TokenType::Variable(variable(at)) };
    let now = |format: (usize, usize)| {
        let arguments =
            Arguments::Now(NowArguments { format: Ok(format), variable: Ok(None), extra: Ok(()) });
        Token { at: (7, 13), token_type: TokenType::Tag(arguments) }
    };
    assert!(tokens_fit(&vec![shown((3, 1)), now((14, 3))], template));
    assert!(tokens_fit(&vec![], template));
    assert!(!tokens_fit(&vec![shown((20, 1))], template));
    let text = |at: (usize, usize)| Token { at, token_type: TokenType::Text };
    assert!(text((0, 20)).fits(template));
    assert!(!text((0, 21)).fits(template));
    assert!(!text((usize::MAX, 1)).fits(template));
    let tag = |arguments| Token { at: (7, 13), token_type: TokenType::Tag(arguments) };
    assert!(!tag(Arguments::Empty).fits(template));
    assert!(!tag(Arguments::Kwargs(vec![])).fits(template));
    let load = Arguments::Load(vec![LoadToken { at: (3, 1) }, LoadToken { at: (21, 1) }]);
    assert!(!load.fit(template));
}

#[test]
fn elements_with_keywords_fit_in_order() {
    let template = TemplateString("{% url 'name' key=3 %}");
    let element = |at: (usize, usize), token_type: TagElementTokenType, kwarg| {
        Ok(TagElementKwargToken { at, token_type, kwarg })
    };
    let name = || element((7, 6), TagElementTokenType::Text, None);
    let three = || element((18, 1), TagElementTokenType::Numeric(None), Some((14, 3)));
    assert!(Arguments::Kwargs(vec![name(), three()]).fit(template));
    assert!(!Arguments::Kwargs(vec![three(), name()]).fit(template));
    let fault = Err(LexerFault { id: 1 });
    assert!(Arguments::Kwargs(vec![name(), fault, three()]).fit(template));
    let short = element((7, 1), TagElementTokenType::Text, None);
    assert!(!Arguments::Kwargs(vec![short]).fit(template));
}

#[test]
fn placeholder_arguments_fit_in_order() {
    let template = TemplateString("{% lorem 3 w random %}");
    let token = |at: (usize, usize), token_type: LoremTokenType| {
        Ok(LoremToken { at, token_type, variable: variable(at) })
    };
    let count = || {
        let count = TagElementToken { at: (9, 1), token_type: TagElementTokenType::Numeric(None) };
        token((9, 1), LoremTokenType::Count(count))
    };
    let method = || token((11, 1), LoremTokenType::Method(LoremMethod::Words));
    let random = || token((13, 6), LoremTokenType::Random);
    assert!(Arguments::Lorem(vec![count(), method(), random()]).fit(template));
    assert!(Arguments::Lorem(vec![method(), random()]).fit(template));
    assert!(!Arguments::Lorem(vec![method(), count()]).fit(template));
    assert!(!Arguments::Lorem(vec![count(), random(), method()]).fit(template));
}
