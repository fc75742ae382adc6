//! Parsing tags, and tags around other nodes.
use django_templates::dict::Dict;
use django_templates::filters::FilterType;
use django_templates::integer::Integer;
use django_templates::lexer::checks::tokens_fit;
use django_templates::lexer::tag::TagLexerError;
use django_templates::lexer::tokens::{
    Arguments, AutoescapeEnabled, FilterToken, ForArguments, ForExpressionToken, ForLexerInError,
    ForVariableNameToken, IfConditionOperator, IfConditionToken, IfConditionTokenType,
    IncludeArguments, IncludeTemplateToken, IncludeTemplateTokenType, IncludeToken,
    IncludeWithToken, LexedVariable, LexerError, LexerFault, LoadToken, LoremMethod, LoremToken,
    LoremTokenType, NowArguments, TagElementKwargToken, TagElementToken, TagElementTokenType,
    TemplateTag, Token, TokenType, VariableSource, VariableToken,
};
use django_templates::parse::errors::{ForParseError, ParseError, PyParseError, Unsupported};
use django_templates::parse::library::{Closure, ClosureValue, Library, TagSource};
use django_templates::parse::parser::Parser;
use django_templates::parse::tree::{
    Comment, CsrfToken, Cycle, CycleId, FirstOf, For, ForIterable, ForNames, IfCondition, Include,
    IncludeTemplateName, Lorem, NamedCycle, Now, RelativePath, SilentNamedCycle, SimpleBlockTag,
    SimpleCycle, SimpleTag, Tag, TagElement, TokenTree,
};
use django_templates::text::{At, TemplateString};
use django_templates::types::{Float, ForVariable, ForVariableName, PyObject, Text, Variable};

const ENGINE: PyObject = PyObject { id: 100 };

/// Where a piece of a template lies, from a position on.
fn find(template: &str, from: usize, piece: &str) -> At {
    (from + template[from..].find(piece).unwrap(), piece.len())
}

/// Where the first occurrence of a piece of a template lies.
fn at(template: &str, piece: &str) -> At {
    find(template, 0, piece)
}

fn source(at: At) -> VariableSource {
    Ok(Some(LexedVariable { token: VariableToken::Variable, at, filters: vec![] }))
}

fn name(at: At) -> TagElementTokenType {
    TagElementTokenType::Variable(source(at))
}

fn var(at: At) -> TagElement<Integer> {
    TagElement::Variable(Variable { at })
}

/// The tokens of a template; its tags have the arguments that are given, in their order.
fn tokenize(template: &str, arguments: Vec<Arguments>) -> Vec<Token> {
    let mut arguments = arguments.into_iter();
    let mut tokens = vec![];
    let mut start = 0;
    while start < template.len() {
        let rest = &template[start..];
        let (length, token_type) = if rest.starts_with("{%") {
            let length = rest.find("%}").unwrap() + 2;
            (length, TokenType::Tag(arguments.next().unwrap_or(Arguments::Empty)))
        } else if rest.starts_with("{{") {
            let length = rest.find("}}").unwrap() + 2;
            let content = rest[2..length - 2].trim();
            (length, TokenType::Variable(source(find(template, start, content))))
        } else {
            let length = rest.find('{').unwrap_or(rest.len());
            (length, TokenType::Text)
        };
        tokens.push(Token { at: (start, length), token_type });
        start += length;
    }
    assert!(tokens_fit(&tokens, TemplateString(template)));
    tokens
}

fn parse_in(
    template: &str,
    arguments: Vec<Arguments>,
    libraries: &Dict<Library>,
) -> Result<Vec<TokenTree>, PyParseError<String>> {
    let tokens = tokenize(template, arguments);
    let mut parser =
        Parser::new(TemplateString(template), &tokens, ENGINE, libraries, Some("here.html"), 7);
    parser.parse()
}

fn parse(template: &str, arguments: Vec<Arguments>) -> Vec<TokenTree> {
    parse_in(template, arguments, &Dict::new()).unwrap()
}

fn error(template: &str, arguments: Vec<Arguments>) -> ParseError<String> {
    parse_in(template, arguments, &Dict::new()).unwrap_err().try_into_parse_error().unwrap()
}

fn text(at: At) -> TokenTree {
    TokenTree::Text(Text { at })
}

fn atom(at: At) -> Result<IfConditionToken, LexerError> {
    Ok(IfConditionToken { at, token_type: IfConditionTokenType::Atom(name(at)) })
}

fn operator(at: At, operator: IfConditionOperator) -> Result<IfConditionToken, LexerError> {
    Ok(IfConditionToken { at, token_type: IfConditionTokenType::Operator(operator) })
}

fn not(at: At) -> Result<IfConditionToken, LexerError> {
    Ok(IfConditionToken { at, token_type: IfConditionTokenType::Not })
}

fn condition(at: At) -> IfCondition<Integer> {
    IfCondition::Variable(var(at))
}

fn pair(
    left: IfCondition<Integer>,
    right: IfCondition<Integer>,
) -> Box<(IfCondition<Integer>, IfCondition<Integer>)> {
    Box::new((left, right))
}

fn if_condition(template: &str, tokens: Vec<Result<IfConditionToken, LexerError>>) -> IfCondition<Integer> {
    let nodes = parse(template, vec![Arguments::If(tokens)]);
    match nodes.into_iter().next().unwrap() {
        TokenTree::Tag(Tag::If { condition, .. }) => condition,
        _ => panic!("no condition"),
    }
}

#[test]
fn branches_nest() {
    let template = "{% if a %}A{% elif b %}B{% else %}C{% endif %}";
    let nodes = parse(
        template,
        vec![
            Arguments::If(vec![atom((6, 1))]),
            Arguments::If(vec![atom((19, 1))]),
        ],
    );
    let inner = TokenTree::Tag(Tag::If {
        condition: condition((19, 1)),
        truthy: vec![text((23, 1))],
        falsey: Some(vec![text((34, 1))]),
    });
    let outer = TokenTree::Tag(Tag::If {
        condition: condition((6, 1)),
        truthy: vec![text((10, 1))],
        falsey: Some(vec![inner]),
    });
    assert_eq!(nodes, vec![outer]);
}

#[test]
fn a_branch_can_be_left_out() {
    let nodes = parse("{% if a %}A{% endif %}", vec![Arguments::If(vec![atom((6, 1))])]);
    let tag = Tag::If { condition: condition((6, 1)), truthy: vec![text((10, 1))], falsey: None };
    assert_eq!(nodes, vec![TokenTree::Tag(tag)]);
}

#[test]
fn operators_bind_by_their_power() {
    // not a or b and c == d
    let template = "{% if not a or b and c == d %}{% endif %}";
    let parsed = if_condition(
        template,
        vec![
            not((6, 3)),
            atom((10, 1)),
            operator((12, 2), IfConditionOperator::Or),
            atom((15, 1)),
            operator((17, 3), IfConditionOperator::And),
            atom((21, 1)),
            operator((23, 2), IfConditionOperator::Equal),
            atom((26, 1)),
        ],
    );
    let equal = IfCondition::Equal(pair(condition((21, 1)), condition((26, 1))));
    let and = IfCondition::And(pair(condition((15, 1)), equal));
    let negated = IfCondition::Not(Box::new(condition((10, 1))));
    assert_eq!(parsed, IfCondition::Or(pair(negated, and)));
}

#[test]
fn operators_of_one_power_group_to_the_left() {
    let template = "{% if a and b and c %}{% endif %}";
    let parsed = if_condition(
        template,
        vec![
            atom((6, 1)),
            operator((8, 3), IfConditionOperator::And),
            atom((12, 1)),
            operator((14, 3), IfConditionOperator::And),
            atom((18, 1)),
        ],
    );
    let left = IfCondition::And(pair(condition((6, 1)), condition((12, 1))));
    assert_eq!(parsed, IfCondition::And(pair(left, condition((18, 1)))));
}

#[test]
fn conditions_that_cannot_be_read() {
    let template = "{% if a b %}{% endif %}";
    assert_eq!(
        error("{% if %}{% endif %}", vec![Arguments::If(vec![])]),
        ParseError::MissingBooleanExpression { at: (0, 8) }
    );
    assert_eq!(
        error(template, vec![Arguments::If(vec![atom((6, 1)), atom((8, 1))])]),
        ParseError::UnusedExpression { expression: "b".to_string(), at: (8, 1) }
    );
    let and = || operator((8, 1), IfConditionOperator::And);
    assert_eq!(
        error(template, vec![Arguments::If(vec![atom((6, 1)), and()])]),
        ParseError::UnexpectedEndExpression { at: (8, 1) }
    );
    assert_eq!(
        error(template, vec![Arguments::If(vec![and()])]),
        ParseError::InvalidIfPosition { token: "b".to_string(), at: (8, 1) }
    );
    assert_eq!(
        error(template, vec![Arguments::If(vec![atom((6, 1)), not((8, 1))])]),
        ParseError::UnusedExpression { expression: "b".to_string(), at: (8, 1) }
    );
    let invalid = LexerError::InvalidVariableName { at: (8, 1) };
    assert_eq!(
        error(template, vec![Arguments::If(vec![Err(invalid)])]),
        ParseError::LexerError(invalid)
    );
}

fn loop_over(names: Vec<At>, expression: At, reversed: bool) -> Arguments {
    Arguments::For(ForArguments {
        variable_names: names.into_iter().map(|at| Ok(ForVariableNameToken { at })).collect(),
        in_keyword: Ok(()),
        expression: Ok(ForExpressionToken { at: expression, token_type: name(expression) }),
        reversed: Ok(reversed),
    })
}

#[test]
fn loops_know_their_variables() {
    let template = "{% for k, v in xs reversed %}{{ forloop.counter }}{{ k }}{% empty %}E{% endfor %}";
    let nodes = parse(template, vec![loop_over(vec![(7, 1), (10, 1)], (15, 2), true)]);
    let counter = TokenTree::ForVariable(ForVariable {
        variant: ForVariableName::Counter,
        parent_count: 0,
        at: at(template, "forloop.counter"),
    });
    let k = TokenTree::Variable(Variable { at: find(template, 30, "k") });
    let expected = For {
        iterable: ForIterable { iterable: var((15, 2)), at: (15, 2) },
        variables: ForNames { names: vec!["k".to_string(), "v".to_string()], at: (7, 4) },
        reversed: true,
        body: vec![counter, k],
        empty: Some(vec![text(at(template, "E"))]),
    };
    assert_eq!(nodes, vec![TokenTree::Tag(Tag::For(expected))]);
}

#[test]
fn forloop_is_a_plain_variable_outside_of_loops() {
    let template = "{{ forloop.counter }}";
    assert_eq!(
        parse(template, vec![]),
        vec![TokenTree::Variable(Variable { at: (3, 15) })]
    );
}

#[test]
fn parent_loops_are_counted() {
    let template = "{% for a in b %}{% for c in d %}{{ forloop.parentloop.first }}{% endfor %}{% endfor %}";
    let arguments =
        vec![loop_over(vec![(7, 1)], (12, 1), false), loop_over(vec![(23, 1)], (28, 1), false)];
    let nodes = parse(template, arguments);
    let outer = match &nodes[0] {
        TokenTree::Tag(Tag::For(outer)) => outer,
        _ => panic!("no loop"),
    };
    let inner = match &outer.body[0] {
        TokenTree::Tag(Tag::For(inner)) => inner,
        _ => panic!("no loop"),
    };
    assert_eq!(
        inner.body,
        vec![TokenTree::ForVariable(ForVariable {
            variant: ForVariableName::First,
            parent_count: 1,
            at: at(template, "forloop.parentloop.first"),
        })]
    );
    assert_eq!(outer.empty, None);
}

#[test]
fn loops_that_cannot_be_read() {
    let template = "{% for a in 9 %}{% endfor %}";
    let arguments = |names: Vec<At>, in_keyword: Result<(), ForLexerInError>| {
        Arguments::For(ForArguments {
            variable_names: names.into_iter().map(|at| Ok(ForVariableNameToken { at })).collect(),
            in_keyword,
            expression: Ok(ForExpressionToken {
                at: (12, 1),
                token_type: TagElementTokenType::Numeric(None),
            }),
            reversed: Ok(false),
        })
    };
    assert_eq!(
        error(template, vec![arguments(vec![(7, 1)], Ok(()))]),
        ParseError::NotIterable { literal: "9".to_string(), at: (12, 1) }
    );
    assert_eq!(
        error(template, vec![arguments(vec![], Ok(()))]),
        ParseError::ForParseError(ForParseError::MissingVariableNames { at: (0, 16) })
    );
    let comma = ForLexerInError::MissingComma { at: (9, 2) };
    assert_eq!(
        error(template, vec![arguments(vec![(9, 2)], Err(comma))]),
        ParseError::ForParseError(ForParseError::MissingVariableBeforeIn { at: (9, 2) })
    );
    assert_eq!(
        error(template, vec![arguments(vec![(7, 1), (9, 2)], Err(comma))]),
        ParseError::ForParseError(ForParseError::MissingVariable { at: (7, 1) })
    );
    assert_eq!(
        error(template, vec![arguments(vec![(7, 1)], Err(comma))]),
        ParseError::ForLexerInError(comma)
    );
}

#[test]
fn end_tags_must_match() {
    let one = || vec![Arguments::If(vec![atom((6, 1))])];
    assert_eq!(
        error("{% if a %}x", one()),
        ParseError::MissingEndTag {
            start: "if".to_string(),
            expected: "elif, else, endif".to_string(),
            at: (0, 10),
        }
    );
    let wrong = error("{% if a %}{% endfor %}", one());
    assert_eq!(
        wrong,
        ParseError::WrongEndTag {
            unexpected: "endfor".to_string(),
            expected: "elif, else, endif".to_string(),
            at: (10, 12),
            start_at: (0, 10),
        }
    );
    assert_eq!(wrong.message().unwrap(), "Unexpected tag endfor, expected elif, else, endif");
    let labels = wrong.labels();
    assert_eq!((labels[0].at, labels[0].text), ((10, 12), "unexpected tag"));
    assert_eq!((labels[1].at, labels[1].text), ((0, 10), "start tag"));
    assert_eq!(wrong.help(), None);
    assert_eq!(
        error("x{% endif %}", vec![]),
        ParseError::UnexpectedEndTag { unexpected: "endif".to_string(), at: (1, 11) }
    );
    assert_eq!(
        error("{% endverbatim %}", vec![]),
        ParseError::UnexpectedEndTag { unexpected: "endverbatim".to_string(), at: (0, 17) }
    );
}

#[test]
fn autoescape_holds_nodes() {
    let template = "{% autoescape off %}x{% endautoescape %}";
    let nodes = parse(template, vec![Arguments::Autoescape(Ok(AutoescapeEnabled::Off))]);
    let tag = Tag::Autoescape { enabled: AutoescapeEnabled::Off, nodes: vec![text((20, 1))] };
    assert_eq!(nodes, vec![TokenTree::Tag(tag)]);
    let fault = LexerFault { id: 3 };
    assert_eq!(
        error(template, vec![Arguments::Autoescape(Err(fault))]),
        ParseError::AutoescapeError(fault)
    );
}

#[test]
fn comments_hide_what_they_hold() {
    let template = "{% comment %}{% if x %}{{ y }}{%  endcomment why %}z";
    let nodes = parse(template, vec![Arguments::Empty, Arguments::If(vec![]), Arguments::Kwargs(vec![])]);
    assert_eq!(
        nodes,
        vec![TokenTree::Tag(Tag::Comment(Comment)), text((template.len() - 1, 1))]
    );
    assert_eq!(
        error("{% comment %}x", vec![]),
        ParseError::MissingEndTag {
            start: "comment".to_string(),
            expected: "endcomment".to_string(),
            at: (0, 13),
        }
    );
}

#[test]
fn plain_tags() {
    assert_eq!(
        parse("{% csrf_token %}", vec![]),
        vec![TokenTree::Tag(Tag::CsrfToken(CsrfToken))]
    );
    assert_eq!(
        parse(
            "{% templatetag openblock %}",
            vec![Arguments::TemplateTag(Ok(TemplateTag::OpenBlock))]
        ),
        vec![TokenTree::Tag(Tag::TemplateTag(TemplateTag::OpenBlock))]
    );
    let fault = LexerFault { id: 9 };
    assert_eq!(
        error("{% templatetag x %}", vec![Arguments::TemplateTag(Err(fault))]),
        ParseError::TemplateTagError(fault)
    );
}

fn elements(places: &[At]) -> Arguments {
    Arguments::Elements(
        places.iter().map(|at| Ok(TagElementToken { at: *at, token_type: name(*at) })).collect(),
    )
}

fn cycle(id: usize, values: &[At]) -> SimpleCycle {
    SimpleCycle { id: CycleId(id), values: values.iter().map(|at| var(*at)).collect() }
}

#[test]
fn cycles_are_numbered() {
    let template = "{% cycle a b %}{% cycle c d as e %}{% cycle e %}{% cycle f g as h silent %}";
    let e = at(template, "c d").0;
    let f = at(template, "f g").0;
    let nodes = parse(
        template,
        vec![
            elements(&[(9, 1), (11, 1)]),
            elements(&[(e, 1), (e + 2, 1), (e + 4, 2), (e + 7, 1)]),
            elements(&[(44, 1)]),
            elements(&[(f, 1), (f + 2, 1), (f + 4, 2), (f + 7, 1), (f + 9, 6)]),
        ],
    );
    let named = || NamedCycle { cycle: cycle(8, &[(e, 1), (e + 2, 1)]), asvar: "e".to_string() };
    let silent = NamedCycle { cycle: cycle(9, &[(f, 1), (f + 2, 1)]), asvar: "h".to_string() };
    let expected = vec![
        Cycle::Simple(cycle(7, &[(9, 1), (11, 1)])),
        Cycle::Named(named()),
        Cycle::Named(named()),
        Cycle::SilentNamed(SilentNamedCycle { cycle: silent }),
    ];
    let expected: Vec<TokenTree> =
        expected.into_iter().map(|cycle| TokenTree::Tag(Tag::Cycle(cycle))).collect();
    assert_eq!(nodes, expected);
}

#[test]
fn numbers_go_on_after_a_template() {
    let template = "{% cycle a b %}{% cycle a b %}";
    let tokens = tokenize(
        template,
        vec![elements(&[(9, 1), (11, 1)]), elements(&[(24, 1), (26, 1)])],
    );
    let libraries = Dict::new();
    let mut parser =
        Parser::new(TemplateString(template), &tokens, ENGINE, &libraries, None, usize::MAX);
    let nodes = parser.parse().unwrap();
    assert_eq!(parser.next_cycle_id(), 1);
    assert_eq!(
        nodes[0],
        TokenTree::Tag(Tag::Cycle(Cycle::Simple(cycle(usize::MAX, &[(9, 1), (11, 1)]))))
    );
}

/// The numbers of the cycles that some nodes start with.
fn numbers(nodes: &[TokenTree]) -> Vec<usize> {
    nodes
        .iter()
        .map(|node| match node {
            TokenTree::Tag(Tag::Cycle(Cycle::Simple(cycle))) => cycle.id.0,
            TokenTree::Tag(Tag::Cycle(Cycle::Named(named))) => named.cycle.id.0,
            _ => panic!("no cycle"),
        })
        .collect()
}

#[test]
fn templates_share_no_cycle_numbers() {
    let template = "{% cycle a b %}{% cycle a b as c %}{% cycle c %}{% cycle b a as c %}{% cycle c %}";
    let tokens = tokenize(
        template,
        vec![
            elements(&[(9, 1), (11, 1)]),
            elements(&[(24, 1), (26, 1), (28, 2), (31, 1)]),
            elements(&[(44, 1)]),
            elements(&[(57, 1), (59, 1), (61, 2), (64, 1)]),
            elements(&[(77, 1)]),
        ],
    );
    let libraries = Dict::new();
    let parser =
        |next| Parser::new(TemplateString(template), &tokens, ENGINE, &libraries, None, next);
    let mut first = parser(3);
    assert_eq!(numbers(&first.parse().unwrap()), vec![3, 4, 4, 5, 5]);
    assert_eq!(first.next_cycle_id(), 6);
    let mut second = parser(first.next_cycle_id());
    assert_eq!(numbers(&second.parse().unwrap()), vec![6, 7, 7, 8, 8]);
}

#[test]
fn references_give_the_latest_cycle() {
    let template = "{% cycle a b as c %}";
    let libraries = Dict::new();
    let tokens = vec![];
    let token = |at: At| Ok(TagElementToken { at, token_type: name(at) });
    let definition = vec![token((9, 1)), token((11, 1)), token((13, 2)), token((16, 1))];
    let reference = vec![token((16, 1))];
    let mut parser = Parser::new(TemplateString(template), &tokens, ENGINE, &libraries, None, 5);
    let first = parser.parse_cycle((9, 8), &definition).unwrap();
    assert_eq!(parser.parse_cycle((9, 8), &reference).unwrap(), first);
    assert_eq!(parser.next_cycle_id(), 6);
    let second = parser.parse_cycle((9, 8), &definition).unwrap();
    assert_ne!(first, second);
    assert_eq!(parser.parse_cycle((9, 8), &reference).unwrap(), second);
    assert_eq!(parser.parse_cycle((9, 8), &reference).unwrap(), second);
    assert_eq!(parser.next_cycle_id(), 7);
}

#[test]
fn cycles_that_cannot_be_read() {
    assert_eq!(
        error("{% cycle %}", vec![elements(&[])]),
        ParseError::MissingCycleArguments { at: (8, 0) }
    );
    let unknown = error("{% cycle a %}", vec![elements(&[(9, 1)])]);
    assert_eq!(unknown, ParseError::UnknownNamedCycle { name: "a".to_string(), at: (9, 1) });
    assert_eq!(unknown.message().unwrap(), "Named cycle 'a' does not exist");
    assert_eq!(
        unknown.help().unwrap(),
        "Define the named cycle earlier using the 'as' form."
    );
    let template = "{% cycle a b as c loud %}";
    assert_eq!(
        error(template, vec![elements(&[(9, 1), (11, 1), (13, 2), (16, 1), (18, 4)])]),
        ParseError::InvalidCycleFlag { flag: "loud".to_string(), at: (18, 4) }
    );
    let literal = Arguments::Elements(vec![Ok(TagElementToken {
        at: (9, 3),
        token_type: TagElementTokenType::Text,
    })]);
    assert_eq!(
        error("{% cycle 'a' %}", vec![literal]),
        ParseError::MissingCycleArguments { at: (9, 3) }
    );
    let invalid = LexerError::Other(LexerFault { id: 1 });
    assert_eq!(
        error("{% cycle 'a' %}", vec![Arguments::Elements(vec![Err(invalid)])]),
        ParseError::LexerError(invalid)
    );
}

fn kwarg(at: At) -> Result<TagElementKwargToken, LexerFault> {
    Ok(TagElementKwargToken { at, token_type: name(at), kwarg: None })
}

fn keyword(kwarg: At, at: At) -> Result<TagElementKwargToken, LexerFault> {
    Ok(TagElementKwargToken { at, token_type: name(at), kwarg: Some(kwarg) })
}

#[test]
fn firstof_keeps_its_values() {
    let template = "{% firstof a b as c %}";
    let tokens = vec![kwarg((11, 1)), kwarg((13, 1)), kwarg((15, 2)), kwarg((18, 1))];
    let expected =
        FirstOf { vars: vec![var((11, 1)), var((13, 1))], asvar: Some("c".to_string()) };
    assert_eq!(
        parse(template, vec![Arguments::Kwargs(tokens)]),
        vec![TokenTree::Tag(Tag::FirstOf(expected))]
    );
    assert_eq!(
        error("{% firstof %}", vec![Arguments::Kwargs(vec![])]),
        ParseError::MissingArgument { at: (10, 0) }
    );
}

#[test]
fn placeholder_text() {
    let method = |at: At, method: LoremMethod| {
        Ok(LoremToken { at, token_type: LoremTokenType::Method(method), variable: source(at) })
    };
    let random =
        |at: At| Ok(LoremToken { at, token_type: LoremTokenType::Random, variable: source(at) });
    let count = |at: At| {
        let token = TagElementToken { at, token_type: TagElementTokenType::Numeric(None) };
        let two = LexedVariable {
            token: VariableToken::Int(Integer::from_u8(2)),
            at,
            filters: vec![],
        };
        Ok(LoremToken { at, token_type: LoremTokenType::Count(token), variable: Ok(Some(two)) })
    };
    let template = "{% lorem 2 w random %}";
    let lorem = |tokens: Vec<Result<LoremToken, LexerFault>>| {
        match parse(template, vec![Arguments::Lorem(tokens)]).pop().unwrap() {
            TokenTree::Tag(Tag::Lorem(lorem)) => lorem,
            _ => panic!("no text"),
        }
    };
    let number = |n: u8| TagElement::Int(Integer::from_u8(n));
    assert_eq!(
        lorem(vec![]),
        Lorem { count: number(1), method: LoremMethod::Blocks, common: true }
    );
    assert_eq!(
        lorem(vec![count((9, 1))]),
        Lorem { count: number(2), method: LoremMethod::Blocks, common: true }
    );
    assert_eq!(
        lorem(vec![method((11, 1), LoremMethod::Words)]),
        Lorem { count: number(1), method: LoremMethod::Words, common: true }
    );
    assert_eq!(
        lorem(vec![random((13, 6))]),
        Lorem { count: number(1), method: LoremMethod::Blocks, common: false }
    );
    assert_eq!(
        lorem(vec![count((9, 1)), method((11, 1), LoremMethod::Words)]),
        Lorem { count: number(2), method: LoremMethod::Words, common: true }
    );
    assert_eq!(
        lorem(vec![count((9, 1)), method((11, 1), LoremMethod::Words), random((13, 6))]),
        Lorem { count: number(2), method: LoremMethod::Words, common: false }
    );
    let fault = LexerFault { id: 4 };
    assert_eq!(
        error(template, vec![Arguments::Lorem(vec![Err(fault)])]),
        ParseError::LoremError(fault)
    );
}

#[test]
fn dates() {
    let template = "{% now 'Y-m' as year %}";
    let arguments = NowArguments { format: Ok((7, 5)), variable: Ok(Some((16, 4))), extra: Ok(()) };
    assert_eq!(
        parse(template, vec![Arguments::Now(arguments)]),
        vec![TokenTree::Tag(Tag::Now(Now { format: "Y-m".to_string(), asvar: Some((16, 4)) }))]
    );
    let fault = LexerFault { id: 4 };
    let arguments = NowArguments { format: Ok((7, 5)), variable: Ok(None), extra: Err(fault) };
    assert_eq!(
        error(template, vec![Arguments::Now(arguments)]),
        ParseError::NowError(fault)
    );
}

#[test]
fn formats_lose_their_first_and_last_character() {
    let format = |template: &str, format: &str| {
        let at = at(template, format);
        let arguments = NowArguments { format: Ok(at), variable: Ok(None), extra: Ok(()) };
        match &parse(template, vec![Arguments::Now(arguments)])[0] {
            TokenTree::Tag(Tag::Now(now)) => now.format.clone(),
            _ => panic!("no date"),
        }
    };
    assert_eq!(format("{% now \u{201c}Y\u{201d} %}", "\u{201c}Y\u{201d}"), "Y");
    assert_eq!(format("{% now \u{e9}Y\u{e9}\u{1f600} %}", "\u{e9}Y\u{e9}\u{1f600}"), "Y\u{e9}");
    assert_eq!(format("{% now \u{e9} %}", "\u{e9}"), "");
    assert_eq!(format("{% now Y %}", "Y"), "");
    assert_eq!(format("{% now '' %}", "''"), "");
}

fn include_arguments(template: IncludeTemplateToken, relative: Option<&str>) -> IncludeArguments {
    IncludeArguments {
        template: Ok(Some(template)),
        relative_path: Ok(relative.map(|path| path.to_string())),
        first: Ok(IncludeWithToken::End),
        second: Ok(IncludeWithToken::End),
        rest: vec![],
    }
}

fn included(nodes: Vec<TokenTree>) -> Include {
    match nodes.into_iter().next().unwrap() {
        TokenTree::Tag(Tag::Include(tag)) => tag,
        _ => panic!("nothing included"),
    }
}

#[test]
fn inclusions() {
    let template = "{% include 'a.txt' with x=y only %}";
    let literal = || IncludeTemplateToken { at: (11, 7), token_type: IncludeTemplateTokenType::Text };
    let mut arguments = include_arguments(literal(), None);
    arguments.first = Ok(IncludeWithToken::With((19, 4)));
    arguments.rest = vec![
        Ok(IncludeToken::Kwarg {
            kwarg_at: (24, 1),
            token: TagElementToken { at: (26, 1), token_type: name((26, 1)) },
        }),
        Ok(IncludeToken::Only((28, 4))),
    ];
    assert_eq!(
        included(parse(template, vec![Arguments::Include(arguments)])),
        Include {
            template_name: IncludeTemplateName::Text(Text { at: (12, 5) }),
            origin: Some("here.html".to_string()),
            engine: ENGINE,
            only: true,
            kwargs: vec![((24, 1), var((26, 1)))],
        }
    );
    let relative = include_arguments(literal(), Some("b/a.txt"));
    assert_eq!(
        included(parse(template, vec![Arguments::Include(relative)])).template_name,
        IncludeTemplateName::Relative(RelativePath { at: (12, 5), path: "b/a.txt".to_string() })
    );
    let variable = IncludeTemplateToken {
        at: (24, 1),
        token_type: IncludeTemplateTokenType::Variable(source((24, 1))),
    };
    assert_eq!(
        included(parse(template, vec![Arguments::Include(include_arguments(variable, None))]))
            .template_name,
        IncludeTemplateName::Variable(var((24, 1)))
    );
}

#[test]
fn inclusions_that_cannot_be_read() {
    let template = "{% include 'a.txt' with x=y only %}";
    let literal = || IncludeTemplateToken { at: (11, 7), token_type: IncludeTemplateTokenType::Text };
    let mut twice = include_arguments(literal(), None);
    twice.first = Ok(IncludeWithToken::Only((19, 4)));
    twice.second = Ok(IncludeWithToken::Only((28, 4)));
    assert_eq!(
        error(template, vec![Arguments::Include(twice)]),
        ParseError::IncludeOnlyTwice { first_at: (19, 4), second_at: (28, 4) }
    );
    let mut bare = include_arguments(literal(), None);
    bare.first = Ok(IncludeWithToken::With((19, 4)));
    assert_eq!(
        error(template, vec![Arguments::Include(bare)]),
        ParseError::MissingKeywordArgument { at: (19, 4) }
    );
    let mut missing = include_arguments(literal(), None);
    missing.template = Ok(None);
    assert_eq!(
        error(template, vec![Arguments::Include(missing)]),
        ParseError::MissingArgument { at: (0, template.len()) }
    );
    let mut outside = include_arguments(literal(), None);
    outside.relative_path = Err(LexerFault { id: 2 });
    assert_eq!(
        error(template, vec![Arguments::Include(outside)]),
        ParseError::RelativePathError(LexerFault { id: 2 })
    );
}

fn nothing(id: u64) -> ClosureValue {
    ClosureValue {
        object: PyObject { id },
        is_none: true,
        is_truthy: Ok(false),
        length: Err(PyObject { id: 500 }),
        text: Err(PyObject { id: 501 }),
        texts: Err(PyObject { id: 502 }),
        items: Err(PyObject { id: 503 }),
    }
}

fn names_value(names: &[&str]) -> ClosureValue {
    let texts = || names.iter().map(|name| name.to_string()).collect::<Vec<_>>();
    ClosureValue {
        is_none: false,
        is_truthy: Ok(!names.is_empty()),
        length: Ok(names.len()),
        texts: Ok(texts()),
        items: Ok(texts()),
        ..nothing(1)
    }
}

fn text_value(text: &str) -> ClosureValue {
    ClosureValue { is_none: false, is_truthy: Ok(true), text: Ok(text.to_string()), ..nothing(2) }
}

fn truth(value: bool) -> ClosureValue {
    ClosureValue { is_none: false, is_truthy: Ok(value), ..nothing(3) }
}

/// The values behind a tag: defaults, the name of the end tag of a block, the function and its
/// name, keyword-only parameters and their defaults, parameters, the context, further arguments
/// and further keywords.
fn tag_source(end_name: Option<&str>, params: &[&str], takes_context: bool) -> TagSource {
    let mut names = vec!["defaults"];
    let mut values = vec![nothing(10)];
    if let Some(end_name) = end_name {
        names.push("end_name");
        values.push(text_value(end_name));
    }
    names.extend(["func", "function_name", "kwonly", "kwonly_defaults", "params", "takes_context"]);
    names.extend(["varargs", "varkw"]);
    values.push(nothing(77));
    values.push(text_value("shown"));
    values.push(names_value(&[]));
    values.push(nothing(11));
    values.push(names_value(params));
    values.push(truth(takes_context));
    values.push(nothing(12));
    values.push(nothing(13));
    let names = names.into_iter().map(|name| name.to_string()).collect();
    TagSource { closure: Ok(Some(Closure { names: Ok(names), values: Ok(values) })) }
}

fn library(tags: Vec<(&str, TagSource)>) -> Dict<Library> {
    let mut libraries = Dict::new();
    let tags = tags.into_iter().map(|(name, source)| (name.to_string(), source)).collect();
    libraries.insert(
        "lib".to_string(),
        Library { filters: Ok(vec![("shout".to_string(), PyObject { id: 50 })]), tags: Ok(tags) },
    );
    libraries.insert("abc".to_string(), Library { filters: Ok(vec![]), tags: Ok(vec![]) });
    libraries
}

fn load(places: &[At]) -> Arguments {
    Arguments::Load(places.iter().map(|at| LoadToken { at: *at }).collect())
}

#[test]
fn loaded_tags_can_be_used() {
    let template = "{% load lib %}{% greet a b=c as d %}";
    let libraries = library(vec![("greet", tag_source(None, &["a", "b"], false))]);
    let tokens = vec![
        kwarg((23, 1)),
        keyword((25, 1), (27, 1)),
        kwarg((29, 2)),
        kwarg((32, 1)),
    ];
    let nodes =
        parse_in(template, vec![load(&[(8, 3)]), Arguments::Kwargs(tokens)], &libraries).unwrap();
    let expected = SimpleTag {
        func: PyObject { id: 77 },
        at: (14, 22),
        takes_context: false,
        args: vec![var((23, 1))],
        kwargs: vec![("b".to_string(), var((27, 1)))],
        target_var: Some("d".to_string()),
    };
    assert_eq!(
        nodes,
        vec![TokenTree::Tag(Tag::Load), TokenTree::Tag(Tag::SimpleTag(expected))]
    );
}

#[test]
fn loaded_blocks_hold_nodes() {
    let template = "{% load lib %}{% box %}x{% endbox %}";
    let libraries = library(vec![("box", tag_source(Some("endbox"), &["content"], false))]);
    let arguments =
        || vec![load(&[(8, 3)]), Arguments::Kwargs(vec![]), Arguments::Kwargs(vec![])];
    let nodes = parse_in(template, arguments(), &libraries).unwrap();
    let expected = SimpleBlockTag {
        func: PyObject { id: 77 },
        nodes: vec![text((23, 1))],
        at: (14, 9),
        takes_context: false,
        args: vec![],
        kwargs: vec![],
        target_var: None,
    };
    assert_eq!(nodes[1], TokenTree::Tag(Tag::SimpleBlockTag(expected)));
    let open = parse_in("{% load lib %}{% box %}x", arguments(), &libraries).unwrap_err();
    assert_eq!(
        open.unwrap_parse_error(),
        ParseError::MissingEndTag {
            start: "box".to_string(),
            expected: "endbox".to_string(),
            at: (14, 9),
        }
    );
}

#[test]
fn loaded_filters_can_be_used() {
    let template = "{% load shout from lib %}{{ a }}";
    let libraries = library(vec![]);
    let mut tokens = tokenize(template, vec![load(&[(8, 5), (14, 4), (19, 3)])]);
    let filters = vec![Ok(FilterToken { at: (8, 5), argument: None })];
    tokens[1].token_type = TokenType::Variable(Ok(Some(LexedVariable {
        token: VariableToken::Variable,
        at: (3, 4),
        filters,
    })));
    let mut parser =
        Parser::new(TemplateString(template), &tokens, ENGINE, &libraries, None, 0);
    let nodes = parser.parse().unwrap();
    match &nodes[1] {
        TokenTree::Filter(filter) => match &filter.filter {
            FilterType::External(external) => assert_eq!(external.filter, PyObject { id: 50 }),
            _ => panic!("no filter of a library"),
        },
        _ => panic!("no filter"),
    }
    assert_eq!(parser.external_filter("shout"), Some(PyObject { id: 50 }));
    assert_eq!(parser.external_filter("other"), None);
}

#[test]
fn libraries_that_cannot_be_loaded() {
    let libraries = library(vec![]);
    let missing = parse_in("{% load nope %}", vec![load(&[(8, 4)])], &libraries).unwrap_err();
    assert_eq!(
        missing,
        PyParseError::ParseError(ParseError::MissingTagLibrary {
            library: "nope".to_string(),
            at: (8, 4),
            help: "Must be one of:\nabc\nlib".to_string(),
        })
    );
    let template = "{% load nope from lib %}";
    let missing = parse_in(template, vec![load(&[(8, 4), (13, 4), (18, 3)])], &libraries);
    assert_eq!(
        missing.unwrap_err().unwrap_parse_error(),
        ParseError::MissingFilterTag {
            tag: "nope".to_string(),
            library: "lib".to_string(),
            tag_at: (8, 4),
            library_at: (18, 3),
        }
    );
}

#[test]
fn tags_that_cannot_be_loaded() {
    let template = "{% load lib %}";
    let outcome = |source: TagSource| {
        parse_in(template, vec![load(&[(8, 3)])], &library(vec![("t", source)])).unwrap_err()
    };
    let with_context = outcome(tag_source(None, &["a"], true)).unwrap_parse_error();
    assert_eq!(
        with_context,
        ParseError::RequiresContext { name: "shown".to_string(), at: (0, 14) }
    );
    assert_eq!(
        with_context.message().unwrap(),
        "'shown' is decorated with takes_context=True so it must have a first argument of 'context'"
    );
    assert_eq!(
        outcome(tag_source(Some("endt"), &["a"], false)).unwrap_parse_error(),
        ParseError::RequiresContent { name: "shown".to_string(), at: (0, 14) }
    );
    assert_eq!(
        outcome(tag_source(Some("endt"), &["context", "a"], true)).unwrap_parse_error(),
        ParseError::RequiresContextAndContent { name: "shown".to_string(), at: (0, 14) }
    );
    let name = || "t".to_string();
    assert_eq!(
        outcome(TagSource { closure: Ok(None) }),
        PyParseError::Unsupported(Unsupported::FullyCustomTag { name: name() })
    );
    let file = Closure { names: Ok(vec!["filename".to_string()]), values: Ok(vec![]) };
    assert_eq!(
        outcome(TagSource { closure: Ok(Some(file)) }),
        PyParseError::Unsupported(Unsupported::InclusionTag { name: name() })
    );
    let short = Closure { names: Ok(vec![]), values: Ok(vec![]) };
    assert_eq!(
        outcome(TagSource { closure: Ok(Some(short)) }),
        PyParseError::Unsupported(Unsupported::Closure { name: name() })
    );
    assert_eq!(
        outcome(TagSource { closure: Err(PyObject { id: 8 }) }),
        PyParseError::PyErr(PyObject { id: 8 })
    );
}

#[test]
fn arguments_of_loaded_tags_are_checked() {
    let template = "{% load lib %}{% greet a b a=c d=e %}";
    let libraries = library(vec![("greet", tag_source(None, &["a", "z"], false))]);
    let outcome = |tokens: Vec<Result<TagElementKwargToken, LexerFault>>| {
        parse_in(template, vec![load(&[(8, 3)]), Arguments::Kwargs(tokens)], &libraries)
            .unwrap_err()
            .unwrap_parse_error()
    };
    assert_eq!(
        outcome(vec![kwarg((23, 1)), keyword((31, 1), (33, 1))]),
        ParseError::UnexpectedKeywordArgument { at: (31, 3) }
    );
    assert_eq!(
        outcome(vec![kwarg((23, 1))]),
        ParseError::MissingArguments {
            tag_name: "shown".to_string(),
            missing: "'z'".to_string(),
            at: (23, 11),
        }
    );
    assert_eq!(
        outcome(vec![keyword((27, 1), (29, 1)), kwarg((31, 1))]),
        ParseError::PositionalAfterKeyword { at: (31, 1), after: (27, 3) }
    );
    assert_eq!(
        outcome(vec![kwarg((23, 1)), kwarg((25, 1)), kwarg((27, 1))]),
        ParseError::TooManyPositionalArguments { at: (27, 1) }
    );
}

#[test]
fn unknown_tags_are_not_supported() {
    assert_eq!(
        parse_in("{% nope %}", vec![Arguments::Kwargs(vec![])], &Dict::new()).unwrap_err(),
        PyParseError::Unsupported(Unsupported::Tag { name: "nope".to_string() })
    );
}

#[test]
fn arguments_must_fit_the_tag() {
    let template = TemplateString("{% if a %}");
    let fits = |arguments| Token { at: (0, 10), token_type: TokenType::Tag(arguments) }.fits(template);
    assert!(!fits(Arguments::Empty));
    assert!(fits(Arguments::If(vec![])));
}

#[test]
fn tags_are_read_from_the_template() {
    assert_eq!(
        parse_in("{% i-f %}", vec![], &Dict::new()).unwrap_err(),
        PyParseError::ParseError(ParseError::BlockError(TagLexerError::InvalidTagName {
            at: (3, 3)
        }))
    );
    assert_eq!(
        parse_in("a{%  %}", vec![], &Dict::new()).unwrap_err(),
        PyParseError::ParseError(ParseError::BlockError(TagLexerError::EmptyTag { at: (1, 6) }))
    );
}

#[test]
fn numbers_can_be_shown() {
    let template = "{{ 1.5 }}";
    let float = Float { bits: 1.5f64.to_bits() };
    let tokens = vec![Token {
        at: (0, 9),
        token_type: TokenType::Variable(Ok(Some(LexedVariable {
            token: VariableToken::Float(float),
            at: (3, 3),
            filters: vec![],
        }))),
    }];
    let libraries = Dict::new();
    let mut parser = Parser::new(TemplateString(template), &tokens, ENGINE, &libraries, None, 0);
    assert_eq!(parser.parse().unwrap(), vec![TokenTree::Float(float)]);
}
