//! Parsing templates.
use django_templates::dict::Dict;
use django_templates::filters::{DefaultFilter, ExternalFilter, FilterType, LowerFilter};
use django_templates::integer::Integer;
use django_templates::lexer::checks::tokens_fit;
use django_templates::lexer::tag::TagLexerError;
use django_templates::lexer::tokens::{
    ArgumentToken, Arguments, FilterToken, KwargTokens, LexedVariable, LexerError, LexerFault,
    TagElementKwargToken, TagElementTokenType, Token, TokenType, VariableLexerError,
    VariableSource, VariableToken,
};
use django_templates::parse::errors::{ParseError, PyParseError};
use django_templates::parse::parser::Parser;
use django_templates::parse::tree::{
    Filter, Include, IncludeTemplateName, SimpleBlockTag, SimpleTag, Tag, TagElement, TokenTree,
    Url,
};
use django_templates::text::{At, TemplateString};
use django_templates::types::{
    Argument, ArgumentType, Float, PyObject, Text, TranslatedText, Variable,
};

const NONE: PyObject = PyObject { id: 1 };

fn float(value: f64) -> Float {
    Float { bits: value.to_bits() }
}

fn integer(text: &str) -> Integer {
    Integer::parse(text).unwrap()
}

fn parse(template: &str, tokens: Vec<Token>) -> Result<Vec<TokenTree>, PyParseError<String>> {
    let libraries = Dict::new();
    let mut parser = Parser::new(
        TemplateString(template),
        &tokens,
        PyObject { id: 0 },
        &libraries,
        None,
        0,
    );
    parser.parse()
}

fn parse_with_filters(template: &str, tokens: Vec<Token>, filters: &[&str]) -> Vec<TokenTree> {
    let libraries = Dict::new();
    let mut external_filters = Dict::new();
    for filter in filters {
        external_filters.insert(filter.to_string(), NONE);
    }
    let mut parser = Parser::new_with_filters(
        TemplateString(template),
        &tokens,
        PyObject { id: 0 },
        &libraries,
        external_filters,
    );
    parser.parse().unwrap()
}

fn parse_error(template: &str, tokens: Vec<Token>) -> ParseError<String> {
    parse(template, tokens).unwrap_err().unwrap_parse_error()
}

fn filter(at: At, argument: Option<ArgumentToken>) -> Result<FilterToken, VariableLexerError> {
    Ok(FilterToken { at, argument })
}

/// A variable with filters.
fn variable(at: At, filters: Vec<Result<FilterToken, VariableLexerError>>) -> VariableSource {
    Ok(Some(LexedVariable { token: VariableToken::Variable, at, filters }))
}

/// The only token of a template that is a variable.
fn variable_token(template: &str, source: VariableSource) -> Vec<Token> {
    vec![Token { at: (0, template.len()), token_type: TokenType::Variable(source) }]
}

/// The only token of a template that is a tag which takes elements with keywords.
fn tag_token(template: &str, elements: KwargTokens) -> Vec<Token> {
    let at = (0, template.len());
    let tokens = vec![Token { at, token_type: TokenType::Tag(Arguments::Kwargs(elements)) }];
    assert!(tokens_fit(&tokens, TemplateString(template)));
    tokens
}

fn element(
    at: At,
    token_type: TagElementTokenType,
) -> Result<TagElementKwargToken, LexerFault> {
    Ok(TagElementKwargToken { at, token_type, kwarg: None })
}

fn keyword_element(
    kwarg: At,
    at: At,
    token_type: TagElementTokenType,
) -> Result<TagElementKwargToken, LexerFault> {
    Ok(TagElementKwargToken { at, token_type, kwarg: Some(kwarg) })
}

fn name(at: At) -> TagElementTokenType {
    TagElementTokenType::Variable(variable(at, vec![]))
}

fn external(node: &TokenTree) -> PyObject {
    match node {
        TokenTree::Filter(filter) => match &filter.filter {
            FilterType::External(filter) => filter.filter,
            _ => panic!("no external filter"),
        },
        _ => panic!("no filter"),
    }
}

fn external_filter(argument: Option<Argument<Integer>>) -> FilterType<Integer> {
    FilterType::External(ExternalFilter { filter: NONE, argument })
}

fn bar(all_at: At, argument: Option<Argument<Integer>>) -> TokenTree {
    TokenTree::Filter(Box::new(Filter {
        at: (7, 3),
        all_at,
        left: TagElement::Variable(Variable { at: (3, 3) }),
        filter: external_filter(argument),
    }))
}

#[test]
fn test_empty_template() {
    let nodes = parse("", vec![]).unwrap();
    assert_eq!(nodes, vec![]);
}

#[test]
fn test_text() {
    let template = "Some text";
    let tokens = vec![Token { at: (0, 9), token_type: TokenType::Text }];
    let nodes = parse(template, tokens).unwrap();
    let text = Text::new((0, template.len()));
    assert_eq!(nodes, vec![TokenTree::Text(text)]);
    assert_eq!(TemplateString(template).content(text.at), template);
}

#[test]
fn test_comment() {
    let template = "{# A comment #}";
    let tokens = vec![Token { at: (0, template.len()), token_type: TokenType::Comment }];
    let nodes = parse(template, tokens).unwrap();
    assert_eq!(nodes, vec![]);
}

#[test]
fn test_empty_variable() {
    let template = "{{ }}";
    let error = parse_error(template, variable_token(template, Ok(None)));
    assert_eq!(error, ParseError::EmptyVariable { at: (0, 5) });
}

#[test]
fn test_variable() {
    let template = "{{ foo }}";
    let nodes = parse(template, variable_token(template, variable((3, 3), vec![]))).unwrap();
    let variable = Variable { at: (3, 3) };
    assert_eq!(nodes, vec![TokenTree::Variable(variable)]);
    assert_eq!(variable.parts(TemplateString(template)), vec![("foo", (3, 3))]);
}

#[test]
fn test_variable_attribute() {
    let template = "{{ foo.bar.baz }}";
    let nodes = parse(template, variable_token(template, variable((3, 11), vec![]))).unwrap();
    let variable = Variable { at: (3, 11) };
    assert_eq!(nodes, vec![TokenTree::Variable(variable)]);
    assert_eq!(
        variable.parts(TemplateString(template)),
        vec![("foo", (3, 3)), ("bar", (7, 3)), ("baz", (11, 3))]
    );
}

#[test]
fn test_filter() {
    let template = "{{ foo|bar }}";
    let tokens = variable_token(template, variable((3, 3), vec![filter((7, 3), None)]));
    let nodes = parse_with_filters(template, tokens, &["bar"]);
    assert_eq!(nodes.len(), 1);
    assert_eq!(external(&nodes[0]), NONE);
    assert_eq!(nodes, vec![bar((3, 7), None)]);
    let foo = Variable { at: (3, 3) };
    assert_eq!(foo.parts(TemplateString(template)), vec![("foo", (3, 3))]);
}

#[test]
fn test_unknown_filter() {
    let template = "{{ foo|bar }}";
    let tokens = variable_token(template, variable((3, 3), vec![filter((7, 3), None)]));
    assert_eq!(
        parse_error(template, tokens),
        ParseError::InvalidFilter { filter: "bar".to_string(), at: (7, 3) }
    );
}

#[test]
fn test_filter_multiple() {
    let template = "{{ foo|bar|baz }}";
    let filters = vec![filter((7, 3), None), filter((11, 3), None)];
    let tokens = variable_token(template, variable((3, 3), filters));
    let nodes = parse_with_filters(template, tokens, &["bar", "baz"]);
    assert_eq!(nodes.len(), 1);
    let foo = TagElement::Variable(Variable { at: (3, 3) });
    let bar = TagElement::Filter(Box::new(Filter {
        at: (7, 3),
        all_at: (3, 7),
        left: foo,
        filter: external_filter(None),
    }));
    assert_eq!(external(&nodes[0]), NONE);
    let baz = TokenTree::Filter(Box::new(Filter {
        at: (11, 3),
        all_at: (3, 11),
        left: bar,
        filter: external_filter(None),
    }));
    assert_eq!(nodes, vec![baz]);
}

fn bar_with_argument(template: &str, argument: ArgumentToken) -> Vec<TokenTree> {
    let tokens = variable_token(template, variable((3, 3), vec![filter((7, 3), Some(argument))]));
    let nodes = parse_with_filters(template, tokens, &["bar"]);
    assert_eq!(nodes.len(), 1);
    assert_eq!(external(&nodes[0]), NONE);
    nodes
}

#[test]
fn test_filter_argument() {
    let template = "{{ foo|bar:baz }}";
    let nodes = bar_with_argument(template, ArgumentToken::Variable((11, 3)));
    let baz = Variable { at: (11, 3) };
    let argument = Argument { at: (11, 3), argument_type: ArgumentType::Variable(baz) };
    assert_eq!(nodes, vec![bar((3, 7), Some(argument))]);
    assert_eq!(baz.parts(TemplateString(template)), vec![("baz", (11, 3))]);
}

#[test]
fn test_filter_argument_text() {
    let template = "{{ foo|bar:'baz' }}";
    let nodes = bar_with_argument(template, ArgumentToken::Text((11, 5)));
    let baz = Text::new((12, 3));
    let argument = Argument { at: (11, 5), argument_type: ArgumentType::Text(baz) };
    assert_eq!(nodes, vec![bar((3, 7), Some(argument))]);
    assert_eq!(TemplateString(template).content(baz.at), "baz");
}

#[test]
fn test_filter_argument_translated_text() {
    let template = "{{ foo|bar:_('baz') }}";
    let nodes = bar_with_argument(template, ArgumentToken::TranslatedText((11, 8)));
    let baz = TranslatedText::new((14, 3));
    let argument = Argument { at: (11, 8), argument_type: ArgumentType::TranslatedText(baz) };
    assert_eq!(nodes, vec![bar((3, 7), Some(argument))]);
    assert_eq!(TemplateString(template).content(baz.at), "baz");
}

#[test]
fn test_filter_argument_float() {
    let template = "{{ foo|bar:5.2e3 }}";
    let number = ArgumentToken::Numeric { at: (11, 5), float: Some(float(5.2e3)) };
    let nodes = bar_with_argument(template, number);
    let argument = Argument { at: (11, 5), argument_type: ArgumentType::Float(float(5.2e3)) };
    assert_eq!(nodes, vec![bar((3, 7), Some(argument))]);
}

#[test]
fn test_filter_argument_int() {
    let template = "{{ foo|bar:99 }}";
    let number = ArgumentToken::Numeric { at: (11, 2), float: Some(float(99.0)) };
    let nodes = bar_with_argument(template, number);
    let argument = Argument { at: (11, 2), argument_type: ArgumentType::Int(Integer::from_u8(99)) };
    assert_eq!(nodes, vec![bar((3, 7), Some(argument))]);
}

#[test]
fn test_filter_argument_bigint() {
    let template = "{{ foo|bar:99999999999999999 }}";
    let number = ArgumentToken::Numeric { at: (11, 17), float: Some(float(99999999999999999.0)) };
    let nodes = bar_with_argument(template, number);
    let argument =
        Argument { at: (11, 17), argument_type: ArgumentType::Int(integer("99999999999999999")) };
    assert_eq!(nodes, vec![bar((3, 7), Some(argument))]);
}

#[test]
fn test_filter_argument_invalid_number() {
    let template = "{{ foo|bar:9.9.9 }}";
    let number = ArgumentToken::Numeric { at: (11, 5), float: None };
    let tokens = variable_token(template, variable((3, 3), vec![filter((7, 3), Some(number))]));
    assert_eq!(parse_error(template, tokens), ParseError::InvalidNumber { at: (11, 5) });
}

#[test]
fn test_filter_parse_addslashes() {
    let template = "{{ foo|addslashes }}";
    let tokens = variable_token(template, variable((3, 3), vec![filter((7, 10), None)]));
    assert_eq!(parse(template, tokens).unwrap().len(), 1);

    let template = "{{ foo|addslashes:invalid }}";
    let argument = ArgumentToken::Variable((18, 7));
    let tokens = variable_token(template, variable((3, 3), vec![filter((7, 10), Some(argument))]));
    let error = parse_error(template, tokens);
    assert!(error.message().unwrap().contains("addslashes filter does not take an argument"));
}

#[test]
fn test_filter_default() {
    let template = "{{ foo|default:baz }}";
    let argument = ArgumentToken::Variable((15, 3));
    let tokens = variable_token(template, variable((3, 3), vec![filter((7, 7), Some(argument))]));
    let nodes = parse(template, tokens).unwrap();
    let foo = TagElement::Variable(Variable { at: (3, 3) });
    let baz = Variable { at: (15, 3) };
    let bar = TokenTree::Filter(Box::new(Filter {
        at: (7, 7),
        all_at: (3, 11),
        left: foo,
        filter: FilterType::Default(DefaultFilter {
            argument: Argument { at: (15, 3), argument_type: ArgumentType::Variable(baz) },
            at: (7, 7),
        }),
    }));
    assert_eq!(nodes, vec![bar]);
    assert_eq!(baz.parts(TemplateString(template)), vec![("baz", (15, 3))]);
}

#[test]
fn test_filter_default_missing_argument() {
    let template = "{{ foo|default|baz }}";
    let filters = vec![filter((7, 7), None), filter((15, 3), None)];
    let tokens = variable_token(template, variable((3, 3), filters));
    assert_eq!(parse_error(template, tokens), ParseError::MissingArgument { at: (7, 7) });
}

#[test]
fn test_filter_lower_unexpected_argument() {
    let template = "{{ foo|lower:baz }}";
    let argument = ArgumentToken::Variable((13, 3));
    let tokens = variable_token(template, variable((3, 3), vec![filter((7, 5), Some(argument))]));
    assert_eq!(
        parse_error(template, tokens),
        ParseError::UnexpectedArgument { filter: "lower".to_string(), at: (13, 3) }
    );
}

#[test]
fn test_variable_lexer_error() {
    let template = "{{ _foo }}";
    let error = VariableLexerError::LexerError(LexerError::InvalidVariableName { at: (3, 4) });
    let tokens = variable_token(template, Err(error));
    assert_eq!(parse_error(template, tokens), ParseError::VariableError(error));
}

#[test]
fn test_parse_empty_tag() {
    let template = "{%  %}";
    assert_eq!(
        parse_error(template, tag_token(template, vec![])),
        ParseError::BlockError(TagLexerError::EmptyTag { at: (0, 6) })
    );
}

#[test]
fn test_block_error() {
    let template = "{% url'foo' %}";
    assert_eq!(
        parse_error(template, tag_token(template, vec![])),
        ParseError::BlockError(TagLexerError::InvalidTagName { at: (3, 8) })
    );
}

fn url(
    at: At,
    view_name: TagElement<Integer>,
    args: Vec<TagElement<Integer>>,
    kwargs: Vec<(String, TagElement<Integer>)>,
    asvar: Option<&str>,
) -> Vec<TokenTree> {
    let asvar = asvar.map(|name| name.to_string());
    vec![TokenTree::Tag(Tag::Url(Url { at, view_name, args, kwargs, asvar }))]
}

#[test]
fn test_parse_url_tag() {
    let template = "{% url 'some-url-name' %}";
    let tokens = tag_token(template, vec![element((7, 15), TagElementTokenType::Text)]);
    let nodes = parse(template, tokens).unwrap();
    let view_name = TagElement::Text(Text { at: (8, 13) });
    assert_eq!(nodes, url((0, 25), view_name, vec![], vec![], None));
}

#[test]
fn test_parse_url_tag_view_name_translated() {
    let template = "{% url _('some-url-name') %}";
    let tokens = tag_token(template, vec![element((7, 18), TagElementTokenType::TranslatedText)]);
    let nodes = parse(template, tokens).unwrap();
    let view_name = TagElement::TranslatedText(Text { at: (10, 13) });
    assert_eq!(nodes, url((0, 28), view_name, vec![], vec![], None));
}

#[test]
fn test_parse_url_tag_view_name_variable() {
    let template = "{% url some_view_name %}";
    let tokens = tag_token(template, vec![element((7, 14), name((7, 14)))]);
    let nodes = parse(template, tokens).unwrap();
    let view_name = TagElement::Variable(Variable { at: (7, 14) });
    assert_eq!(nodes, url((0, 24), view_name, vec![], vec![], None));
}

#[test]
fn test_parse_url_tag_view_name_filter() {
    let template = "{% url some_view_name|default:'home' %}";
    let source =
        variable((7, 14), vec![filter((22, 7), Some(ArgumentToken::Text((30, 6))))]);
    let tokens = tag_token(template, vec![element((7, 29), TagElementTokenType::Variable(source))]);
    let nodes = parse(template, tokens).unwrap();
    let some_view_name = TagElement::Variable(Variable { at: (7, 14) });
    let home = Text { at: (31, 4) };
    let default = Box::new(Filter {
        at: (22, 7),
        all_at: (7, 22),
        left: some_view_name,
        filter: FilterType::Default(DefaultFilter {
            argument: Argument { at: (30, 6), argument_type: ArgumentType::Text(home) },
            at: (22, 7),
        }),
    });
    assert_eq!(nodes, url((0, 39), TagElement::Filter(default), vec![], vec![], None));
}

#[test]
fn test_parse_url_no_arguments() {
    let template = "{% url %}";
    let error = parse_error(template, tag_token(template, vec![]));
    assert_eq!(error, ParseError::UrlTagNoArguments { at: (0, 9) });
}

#[test]
fn test_parse_url_view_name_integer() {
    let template = "{% url 64 %}";
    let number = TagElementTokenType::Numeric(Some(float(64.0)));
    let nodes = parse(template, tag_token(template, vec![element((7, 2), number)])).unwrap();
    let view_name = TagElement::Int(Integer::from_u8(64));
    assert_eq!(nodes, url((0, 12), view_name, vec![], vec![], None));
}

#[test]
fn test_parse_url_tag_arguments() {
    let template = "{% url some_view_name 'foo' bar|default:'home' 64 5.7 _(\"spam\") %}";
    let source = variable((28, 3), vec![filter((32, 7), Some(ArgumentToken::Text((40, 6))))]);
    let tokens = tag_token(
        template,
        vec![
            element((7, 14), name((7, 14))),
            element((22, 5), TagElementTokenType::Text),
            element((28, 18), TagElementTokenType::Variable(source)),
            element((47, 2), TagElementTokenType::Numeric(Some(float(64.0)))),
            element((50, 3), TagElementTokenType::Numeric(Some(float(5.7)))),
            element((54, 9), TagElementTokenType::TranslatedText),
        ],
    );
    let nodes = parse(template, tokens).unwrap();
    let view_name = TagElement::Variable(Variable { at: (7, 14) });
    let args = vec![
        TagElement::Text(Text { at: (23, 3) }),
        TagElement::Filter(Box::new(Filter {
            at: (32, 7),
            all_at: (28, 11),
            left: TagElement::Variable(Variable { at: (28, 3) }),
            filter: FilterType::Default(DefaultFilter {
                argument: Argument {
                    at: (40, 6),
                    argument_type: ArgumentType::Text(Text { at: (41, 4) }),
                },
                at: (32, 7),
            }),
        })),
        TagElement::Int(Integer::from_u8(64)),
        TagElement::Float(float(5.7)),
        TagElement::TranslatedText(Text { at: (57, 4) }),
    ];
    assert_eq!(nodes, url((0, 66), view_name, args, vec![], None));
}

#[test]
fn test_parse_url_tag_kwargs() {
    let template = "{% url some_view_name foo='foo' extra=-64 %}";
    let number = TagElementTokenType::Numeric(Some(float(-64.0)));
    let tokens = tag_token(
        template,
        vec![
            element((7, 14), name((7, 14))),
            keyword_element((22, 3), (26, 5), TagElementTokenType::Text),
            keyword_element((32, 5), (38, 3), number),
        ],
    );
    let nodes = parse(template, tokens).unwrap();
    let view_name = TagElement::Variable(Variable { at: (7, 14) });
    let kwargs = vec![
        ("foo".to_string(), TagElement::Text(Text { at: (27, 3) })),
        ("extra".to_string(), TagElement::Int(integer("-64"))),
    ];
    assert_eq!(nodes, url((0, 44), view_name, vec![], kwargs, None));
}

#[test]
fn test_parse_url_tag_arguments_as_variable() {
    let template = "{% url some_view_name 'foo' as some_url %}";
    let tokens = tag_token(
        template,
        vec![
            element((7, 14), name((7, 14))),
            element((22, 5), TagElementTokenType::Text),
            element((28, 2), name((28, 2))),
            element((31, 8), name((31, 8))),
        ],
    );
    let nodes = parse(template, tokens).unwrap();
    let view_name = TagElement::Variable(Variable { at: (7, 14) });
    let args = vec![TagElement::Text(Text { at: (23, 3) })];
    assert_eq!(nodes, url((0, 42), view_name, args, vec![], Some("some_url")));
}

#[test]
fn test_parse_url_tag_kwargs_as_variable() {
    let template = "{% url some_view_name foo='foo' as some_url %}";
    let tokens = tag_token(
        template,
        vec![
            element((7, 14), name((7, 14))),
            keyword_element((22, 3), (26, 5), TagElementTokenType::Text),
            element((32, 2), name((32, 2))),
            element((35, 8), name((35, 8))),
        ],
    );
    let nodes = parse(template, tokens).unwrap();
    let view_name = TagElement::Variable(Variable { at: (7, 14) });
    let kwargs = vec![("foo".to_string(), TagElement::Text(Text { at: (27, 3) }))];
    assert_eq!(nodes, url((0, 46), view_name, vec![], kwargs, Some("some_url")));
}

#[test]
fn test_parse_url_tag_arguments_last_variables() {
    let template = "{% url some_view_name 'foo' arg arg2 %}";
    let tokens = tag_token(
        template,
        vec![
            element((7, 14), name((7, 14))),
            element((22, 5), TagElementTokenType::Text),
            element((28, 3), name((28, 3))),
            element((32, 4), name((32, 4))),
        ],
    );
    let nodes = parse(template, tokens).unwrap();
    let view_name = TagElement::Variable(Variable { at: (7, 14) });
    let args = vec![
        TagElement::Text(Text { at: (23, 3) }),
        TagElement::Variable(Variable { at: (28, 3) }),
        TagElement::Variable(Variable { at: (32, 4) }),
    ];
    assert_eq!(nodes, url((0, 39), view_name, args, vec![], None));
}

#[test]
fn test_parse_url_tag_mixed_args_kwargs() {
    let template = "{% url some_view_name 'foo' arg name=arg2 %}";
    let tokens = tag_token(
        template,
        vec![
            element((7, 14), name((7, 14))),
            element((22, 5), TagElementTokenType::Text),
            element((28, 3), name((28, 3))),
            keyword_element((32, 4), (37, 4), name((37, 4))),
        ],
    );
    let error = parse_error(template, tokens);
    assert_eq!(error, ParseError::MixedArgsKwargs { at: (0, template.len()) });
}

#[test]
fn test_parse_url_tag_invalid_number() {
    let template = "{% url foo 9.9.9 %}";
    let tokens = tag_token(
        template,
        vec![
            element((7, 3), name((7, 3))),
            element((11, 5), TagElementTokenType::Numeric(None)),
        ],
    );
    assert_eq!(parse_error(template, tokens), ParseError::InvalidNumber { at: (11, 5) });
}

#[test]
fn test_filter_type_partial_eq() {
    assert_eq!(
        FilterType::<Integer>::Lower(LowerFilter),
        FilterType::Lower(LowerFilter)
    );
    assert_ne!(
        FilterType::<Integer>::External(ExternalFilter { filter: PyObject { id: 1 }, argument: None }),
        FilterType::External(ExternalFilter { filter: PyObject { id: 2 }, argument: None })
    );
    assert_ne!(
        FilterType::<Integer>::Lower(LowerFilter),
        FilterType::Default(DefaultFilter {
            argument: Argument { at: (0, 3), argument_type: ArgumentType::Float(float(1.0)) },
            at: (0, 7),
        })
    );
}

#[test]
fn test_simple_tag_partial_eq() {
    let func = PyObject { id: 5 };
    let tag = |func: PyObject| SimpleTag {
        func,
        at: (0, 1),
        takes_context: true,
        args: Vec::new(),
        kwargs: Vec::new(),
        target_var: Some("foo".to_string()),
    };
    assert_eq!(tag(func), tag(func));
    assert_ne!(tag(func), tag(PyObject { id: 6 }));
}

#[test]
fn test_simple_block_tag_partial_eq() {
    let func = PyObject { id: 5 };
    let tag = |func: PyObject| SimpleBlockTag {
        func,
        at: (0, 1),
        takes_context: true,
        args: Vec::new(),
        kwargs: Vec::new(),
        nodes: Vec::new(),
        target_var: Some("foo".to_string()),
    };
    assert_eq!(tag(func), tag(func));
    assert_ne!(tag(func), tag(PyObject { id: 6 }));
}

#[test]
fn test_include_tag_partial_eq() {
    let engine = PyObject { id: 5 };
    let tag = |engine: PyObject| Include {
        template_name: IncludeTemplateName::Variable(TagElement::Float(float(1.1))),
        origin: None,
        only: false,
        kwargs: Vec::new(),
        engine,
    };
    assert_eq!(tag(engine), tag(engine));
    assert_ne!(tag(engine), tag(PyObject { id: 6 }));
}
