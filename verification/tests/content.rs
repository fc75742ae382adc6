//! Values, what is written of them, and how they compare.
use django_templates::integer::Integer;
use django_templates::lexer::tokens::{LexerFault, LoremMethod, TemplateTag};
use django_templates::parse::tree::{
    CsrfToken, Cycle, CycleId, FirstOf, IfCondition, Include, IncludeTemplateName, Lorem,
    RelativePath, SimpleCycle, TagElement,
};
use django_templates::render::compare::{
    nearest_of, text_holds, Comparison, Decision, Membership,
};
use django_templates::render::condition::{Failures, Python};
use django_templates::render::content::{
    AsBorrowedContent, Content, ContentString, FloatNumber, IntoOwnedContent, PyNumber, PySource,
    PyText,
};
use django_templates::render::context::{Context, IncludeTemplateKey};
use django_templates::render::errors::{PyException, PyRenderError, RenderError};
use django_templates::render::tags::{
    block_arguments, current_app, CsrfValue, LoremPlan, PyTemplateName, RequestApp, TemplateChoice,
};
use django_templates::text::TemplateString;
use django_templates::types::{Float, PyObject, Variable};

fn object(id: u64) -> PyObject {
    PyObject { id }
}

fn context(autoescape: bool) -> Context {
    Context::new(&vec![], None, autoescape)
}

fn number(text: &str) -> Content {
    Content::Int(Integer::parse(text).unwrap())
}

fn text(text: &str) -> Content {
    Content::String(ContentString::String(text.to_string()))
}

fn no_text(_: PyObject) -> PyText {
    panic!("no Python object")
}

fn float_text(float: Float) -> String {
    format!("{:?}", f64::from_bits(float.bits))
}

fn float(value: f64) -> Float {
    Float { bits: value.to_bits() }
}

fn rendered(content: Content, autoescape: bool) -> String {
    content.render(&context(autoescape), no_text, float_text).unwrap()
}

#[test]
fn text_is_escaped() {
    let unsafe_text = || Content::String(ContentString::HtmlUnsafe("<a b='\"&\"'>".to_string()));
    assert_eq!(rendered(unsafe_text(), true), "&lt;a b=&#x27;&quot;&amp;&quot;&#x27;&gt;");
    assert_eq!(rendered(unsafe_text(), false), "<a b='\"&\"'>");
    let safe = Content::String(ContentString::HtmlSafe("<b>".to_string()));
    assert_eq!(rendered(safe, true), "<b>");
    assert_eq!(
        ContentString::HtmlUnsafe("<".to_string()).content(),
        "&lt;"
    );
    assert_eq!(ContentString::HtmlUnsafe("plain".to_string()).content(), "plain");
    assert_eq!(ContentString::HtmlUnsafe("<".to_string()).into_raw(), "<");
}

#[test]
fn values_are_written() {
    let large = "-170141183460469231731687303715884105729";
    assert_eq!(rendered(number(large), true), large);
    assert_eq!(rendered(Content::Bool(true), true), "True");
    assert_eq!(rendered(Content::Bool(false), true), "False");
    assert_eq!(rendered(Content::Float(float(1.5)), true), "1.5");
    let py = |html: Option<&str>| PyText {
        is_string: false,
        text: Ok("<x>".to_string()),
        html: Ok(html.map(|text| text.to_string())),
    };
    let shown = |html: Option<&'static str>, autoescape: bool| {
        Content::Py(object(1))
            .render(&context(autoescape), |_| py(html), float_text)
            .unwrap()
    };
    assert_eq!(shown(None, true), "&lt;x&gt;");
    assert_eq!(shown(None, false), "<x>");
    assert_eq!(shown(Some("<y>"), true), "<y>");
    let failing = |_: PyObject| PyText { is_string: false, text: Err(object(9)), html: Ok(None) };
    assert_eq!(
        Content::Py(object(1)).render(&context(true), failing, float_text),
        Err(object(9))
    );
}

#[test]
fn values_are_text() {
    let string = |content: Content| {
        content.resolve_string(&context(true), no_text, float_text).unwrap().into_raw()
    };
    assert_eq!(string(number("12")), "12");
    assert_eq!(string(text("x")), "x");
    assert_eq!(string(Content::Bool(true)), "True");
    assert_eq!(string(Content::Float(float(0.5))), "0.5");
    let invalid =
        PyRenderError::RenderError(RenderError::InvalidArgumentString { argument_at: (1, 2) });
    match number("1").resolve_string_strict(&context(true), (1, 2), no_text) {
        Err(e) => assert_eq!(e, invalid),
        Ok(_) => panic!("no text"),
    }
    let py = |is_string: bool| PyText { is_string, text: Ok("s".to_string()), html: Ok(None) };
    let strict = |is_string: bool| {
        Content::Py(object(1)).resolve_string_strict(&context(false), (1, 2), |_| py(is_string))
    };
    assert_eq!(strict(true).unwrap().into_raw(), "s");
    assert!(strict(false).is_err());
}

#[test]
fn values_are_integers() {
    let integer = |content: &Content| content.to_bigint(|_| None, |_| None).map(|n| n.to_text());
    assert_eq!(integer(&number("5")), Some("5".to_string()));
    assert_eq!(integer(&text("-00042")), Some("-42".to_string()));
    assert_eq!(integer(&text("4 2")), None);
    assert_eq!(integer(&Content::Bool(true)), Some("1".to_string()));
    assert_eq!(integer(&Content::Bool(false)), Some("0".to_string()));
    assert_eq!(integer(&Content::Py(object(1))), None);
}

fn size(content: Content) -> Result<usize, PyRenderError<String>> {
    content.resolve_usize(
        (3, 4),
        |_| PyNumber { integer: None, is_float: false, text: "what".to_string() },
        |f| FloatNumber {
            whole: Integer::parse(&format!("{:.0}", f64::from_bits(f.bits).trunc())),
            text: float_text(f),
        },
    )
}

#[test]
fn values_are_sizes() {
    assert_eq!(size(number("7")), Ok(7));
    assert_eq!(size(number("-7")), Ok(0));
    assert_eq!(size(text("12")), Ok(12));
    assert_eq!(size(Content::Bool(true)), Ok(1));
    assert_eq!(size(Content::Float(float(2.9))), Ok(2));
    let error = |error: RenderError<String>| Err(PyRenderError::RenderError(error));
    assert_eq!(
        size(number("99999999999999999999")),
        error(RenderError::OverflowError {
            argument: "99999999999999999999".to_string(),
            argument_at: (3, 4),
        })
    );
    assert_eq!(
        size(text("x")),
        error(RenderError::InvalidArgumentInteger {
            argument: "'x'".to_string(),
            argument_at: (3, 4),
        })
    );
    assert_eq!(
        size(Content::Py(object(1))),
        error(RenderError::InvalidArgumentInteger {
            argument: "what".to_string(),
            argument_at: (3, 4),
        })
    );
    assert_eq!(
        size(Content::Float(float(f64::NAN))),
        error(RenderError::InvalidArgumentFloat {
            argument: "NaN".to_string(),
            argument_at: (3, 4),
        })
    );
    let infinite = PyNumber { integer: None, is_float: true, text: "inf".to_string() };
    assert_eq!(
        django_templates::render::content::resolve_py_number(infinite, (3, 4)),
        error(RenderError::InvalidArgumentFloat { argument: "inf".to_string(), argument_at: (3, 4) })
    );
}

#[test]
fn values_are_true_or_not() {
    let truth = |content: Content| content.evaluate(|o| Err(o));
    assert!(truth(text("x")));
    assert!(!truth(text("")));
    assert!(truth(number("-1")));
    assert!(!truth(number("0")));
    assert!(!truth(Content::Float(float(-0.0))));
    assert!(!truth(Content::Py(object(1))));
    assert_eq!(Content::Py(object(1)).to_bool(|o| Err(o)), Err(object(1)));
}

#[test]
fn values_become_objects() {
    assert!(matches!(Content::Py(object(1)).to_py(), PySource::Object(PyObject { id: 1 })));
    let safe = Content::String(ContentString::HtmlSafe("x".to_string()));
    assert!(matches!(safe.to_py(), PySource::SafeStr(_)));
    assert!(matches!(text("x").to_py(), PySource::Str(_)));
    assert!(matches!(Content::Bool(true).to_py(), PySource::Bool(true)));
    assert!(matches!(number("1").to_py(), PySource::Int(_)));
    assert!(matches!("x".as_content(), Content::String(ContentString::String(_))));
    assert!(matches!("x".to_string().into_content(), Content::String(ContentString::String(_))));
    let mapped = ContentString::HtmlSafe("x".to_string()).map_content(|s| s + "y");
    match mapped {
        Content::String(ContentString::HtmlSafe(s)) => assert_eq!(s, "xy"),
        _ => panic!("no safe text"),
    }
}

/// How two values compare that are no Python objects.
fn known(op: Comparison, a: &Content, b: &Content) -> bool {
    match op.decide(a, b, nearest_of(a, b)) {
        Decision::Known(known) => known,
        _ => panic!("not known"),
    }
}

#[test]
fn values_compare() {
    let known = |op: Comparison, a: Content, b: Content| known(op, &a, &b);
    assert!(known(Comparison::Less, number("-2"), number("1")));
    assert!(known(Comparison::GreaterEqual, number("3"), number("3")));
    assert!(known(Comparison::Equal, number("1"), Content::Bool(true)));
    assert!(known(Comparison::Equal, Content::Bool(false), number("0")));
    assert!(!known(Comparison::Equal, number("256"), Content::Bool(false)));
    assert!(known(Comparison::Less, text("abc"), text("abd")));
    assert!(known(Comparison::LessEqual, text("a"), text("a")));
    assert!(!known(Comparison::Equal, text("1"), number("1")));
    assert!(!known(Comparison::Less, text("1"), number("2")));
    assert!(known(Comparison::Greater, Content::Bool(true), Content::Bool(false)));
    assert!(known(Comparison::Greater, number("300"), Content::Bool(true)));
    assert!(known(Comparison::Less, number("-300"), Content::Bool(false)));
    assert!(matches!(
        Comparison::Less.decide(&Content::Py(object(1)), &number("1"), Float { bits: 0 }),
        Decision::Ask(Comparison::Less)
    ));
    assert!(matches!(
        Comparison::Less.decide(&number("1"), &Content::Py(object(1)), Float { bits: 0 }),
        Decision::AskMirrored(Comparison::Greater)
    ));
    assert!(Comparison::Less.mirror() == Comparison::Greater);
    assert!(Comparison::Equal.mirror() == Comparison::Equal);
}

const COMPARISONS: [Comparison; 5] = [
    Comparison::Equal,
    Comparison::Less,
    Comparison::Greater,
    Comparison::LessEqual,
    Comparison::GreaterEqual,
];

const FLOATS: [f64; 21] = [
    0.0,
    -0.0,
    1.0,
    -1.0,
    0.5,
    1.5,
    2.0,
    -2.5,
    255.0,
    5e-324,
    -5e-324,
    2.2250738585072014e-308,
    f64::EPSILON,
    9007199254740992.0,
    9007199254740994.0,
    1e300,
    f64::MAX,
    f64::MIN,
    f64::INFINITY,
    f64::NEG_INFINITY,
    f64::NAN,
];

fn a_float(value: f64) -> Content {
    Content::Float(float(value))
}

/// How two numbers compare where there is an order of them.
fn compared<T: PartialOrd>(op: Comparison, a: T, b: T) -> bool {
    match op {
        Comparison::Equal => a == b,
        Comparison::Less => a < b,
        Comparison::Greater => a > b,
        Comparison::LessEqual => a <= b,
        Comparison::GreaterEqual => a >= b,
    }
}

#[test]
fn floats_compare_with_floats() {
    for a in FLOATS {
        for b in FLOATS {
            for op in COMPARISONS {
                assert_eq!(known(op, &a_float(a), &a_float(b)), compared(op, a, b));
            }
        }
        assert_eq!(a_float(a).evaluate(|_| Ok(true)), a != 0.0);
        for truth in [false, true] {
            let number = if truth { 1.0 } else { 0.0 };
            for op in COMPARISONS {
                assert_eq!(known(op, &a_float(a), &Content::Bool(truth)), compared(op, a, number));
                assert_eq!(known(op, &Content::Bool(truth), &a_float(a)), compared(op, number, a));
            }
        }
    }
}

#[test]
fn floats_compare_with_integers() {
    for n in [0, 1, -1, 2, -2, 255, 9007199254740992, 9007199254740993, 9007199254740995i64] {
        let nearest = n as f64;
        assert_eq!(Integer::parse(&n.to_string()).unwrap().nearest_float(), float(nearest));
        for a in FLOATS {
            for op in COMPARISONS {
                let integer = number(&n.to_string());
                assert_eq!(known(op, &a_float(a), &integer), compared(op, a, nearest));
                assert_eq!(known(op, &integer, &a_float(a)), compared(op, nearest, a));
            }
        }
    }
}

#[test]
fn integers_beyond_every_float_are_less_than_infinity() {
    let huge = || number(&("1".to_string() + &"0".repeat(400)));
    let tiny = || number(&("-1".to_string() + &"0".repeat(400)));
    for a in FLOATS {
        let infinite = a == f64::INFINITY;
        assert!(!known(Comparison::Equal, &a_float(a), &huge()));
        assert_eq!(known(Comparison::Less, &a_float(a), &huge()), !infinite && !a.is_nan());
        assert_eq!(known(Comparison::LessEqual, &a_float(a), &huge()), !infinite && !a.is_nan());
        assert_eq!(known(Comparison::Less, &huge(), &a_float(a)), infinite);
        assert_eq!(known(Comparison::Greater, &huge(), &a_float(a)), !infinite && !a.is_nan());
        let infinite = a == f64::NEG_INFINITY;
        assert_eq!(known(Comparison::Greater, &a_float(a), &tiny()), !infinite && !a.is_nan());
        assert_eq!(known(Comparison::Greater, &tiny(), &a_float(a)), infinite);
    }
}

#[test]
fn comparisons_mirror() {
    let values = || {
        let mut values: Vec<Content> = FLOATS.into_iter().map(a_float).collect();
        values.extend([number("-7"), number("1"), Content::Bool(true), text(""), text("b")]);
        values
    };
    for a in values() {
        for b in values() {
            for op in COMPARISONS {
                assert_eq!(known(op, &a, &b), known(op.mirror(), &b, &a));
            }
            let equal = known(Comparison::Equal, &a, &b);
            assert_eq!(
                known(Comparison::LessEqual, &a, &b),
                known(Comparison::Less, &a, &b) || equal
            );
            assert_eq!(
                known(Comparison::GreaterEqual, &a, &b),
                known(Comparison::Greater, &a, &b) || equal
            );
        }
    }
    for op in COMPARISONS {
        assert!(!known(op, &a_float(f64::NAN), &a_float(f64::NAN)));
        assert!(!known(op, &a_float(1.0), &text("1.0")));
    }
}

#[test]
fn integers_and_truth_values_compare_by_value() {
    let values = || {
        let huge = "9".repeat(40);
        vec![
            (-300, number("-300")),
            (-1, number("-1")),
            (0, number("0")),
            (0, Content::Bool(false)),
            (1, number("1")),
            (1, Content::Bool(true)),
            (2, number("2")),
            (256, number("256")),
            (i64::MAX, number(&huge)),
        ]
    };
    for (n, a) in values() {
        for (m, b) in values() {
            for op in COMPARISONS {
                assert_eq!(known(op, &a, &b), compared(op, n, m));
            }
        }
    }
}

#[test]
fn values_hold_others() {
    assert!(text_holds("template", "plat"));
    assert!(text_holds("template", ""));
    assert!(!text_holds("template", "x"));
    assert!(matches!(text("ab").contains(&Some(text("b"))), Membership::Known(Some(true))));
    assert!(matches!(text("ab").contains(&Some(number("1"))), Membership::Known(None)));
    assert!(matches!(number("1").contains(&None), Membership::Known(None)));
    assert!(matches!(Content::Py(object(1)).contains(&None), Membership::Ask));
}

/// Python, as far as these tests need it: variables are known by where they stand.
struct Variables {
    values: Vec<(usize, Result<Option<fn() -> Content>, ()>)>,
}

fn failure() -> PyRenderError<String> {
    PyRenderError::PyErr(PyObject { id: 99 })
}

impl Variables {
    fn value(&self, element: &TagElement<Integer>) -> Result<Option<Content>, PyRenderError<String>> {
        let place = match element {
            TagElement::Variable(variable) => variable.at.0,
            TagElement::Int(n) => return Ok(Some(Content::Int(Integer::parse(&n.to_text()).unwrap()))),
            _ => panic!("no variable"),
        };
        for (at, value) in &self.values {
            if *at == place {
                return match value {
                    Ok(value) => Ok(value.map(|make| make())),
                    Err(()) => Err(failure()),
                };
            }
        }
        Ok(None)
    }
}

impl Python for Variables {
    fn evaluate(&self, element: &TagElement<Integer>, _: &Context) -> Option<bool> {
        match self.value(element) {
            Ok(Some(content)) => Some(content.evaluate(|_| Ok(true))),
            Ok(None) => Some(false),
            Err(_) => None,
        }
    }

    fn resolve(
        &self,
        element: &TagElement<Integer>,
        _: Failures,
        _: &Context,
    ) -> Result<Option<Content>, PyRenderError<String>> {
        self.value(element)
    }

    fn is_truthy(&self, object: PyObject) -> Result<bool, PyObject> {
        if object.id == 13 { Err(object) } else { Ok(object.id != 0) }
    }

    fn compare(&self, op: Comparison, left: &Content, right: &Content) -> bool {
        match (op, left, right) {
            (Comparison::Equal, Content::Py(a), Content::Py(b)) => a == b,
            _ => false,
        }
    }

    fn equals_none(&self, object: PyObject) -> bool {
        object.id == 0
    }

    fn contains(&self, _: &Content, _: &Option<Content>) -> Option<bool> {
        None
    }

    fn is_same(&self, left: PyObject, right: PyObject) -> bool {
        left == right
    }

    fn is_none(&self, object: PyObject) -> bool {
        object.id == 0
    }

    fn is_bool(&self, object: PyObject, value: bool) -> bool {
        object.id == if value { 1 } else { 2 }
    }
}

fn var(place: usize) -> IfCondition<Integer> {
    IfCondition::Variable(TagElement::Variable(Variable { at: (place, 1) }))
}

fn constant(n: u8) -> IfCondition<Integer> {
    IfCondition::Variable(TagElement::Int(Integer::from_u8(n)))
}

fn pair(
    a: IfCondition<Integer>,
    b: IfCondition<Integer>,
) -> Box<(IfCondition<Integer>, IfCondition<Integer>)> {
    Box::new((a, b))
}

fn variables() -> Variables {
    Variables {
        values: vec![
            (1, Ok(Some(|| Content::Bool(true)))),
            (2, Ok(Some(|| Content::Bool(false)))),
            (3, Ok(Some(|| Content::Py(PyObject { id: 0 })))),
            (4, Ok(Some(|| Content::String(ContentString::String("abc".to_string()))))),
            (5, Ok(Some(|| Content::String(ContentString::String("b".to_string()))))),
            (6, Err(())),
        ],
    }
}

#[test]
fn conditions_are_evaluated() {
    let py = variables();
    let context = context(true);
    let truth = |condition: IfCondition<Integer>| condition.evaluate(&py, &context).unwrap_or(false);
    assert!(truth(var(1)));
    assert!(!truth(var(2)));
    assert!(!truth(var(9)));
    assert!(truth(IfCondition::Not(Box::new(var(9)))));
    // Neither what cannot be evaluated nor its opposite is true.
    assert!(!truth(var(6)));
    assert!(!truth(IfCondition::Not(Box::new(var(6)))));
    assert!(!truth(IfCondition::Or(pair(var(6), var(1)))));
    assert!(truth(IfCondition::Or(pair(var(1), var(6)))));
    assert!(truth(IfCondition::And(pair(var(1), var(1)))));
    assert!(!truth(IfCondition::And(pair(var(1), var(2)))));
    assert!(truth(IfCondition::Or(pair(var(2), var(1)))));
    assert!(truth(IfCondition::LessThan(pair(constant(1), constant(2)))));
    assert!(truth(IfCondition::LessThanEqual(pair(constant(2), constant(2)))));
    assert!(truth(IfCondition::GreaterThan(pair(constant(3), constant(2)))));
    assert!(!truth(IfCondition::GreaterThanEqual(pair(constant(1), constant(2)))));
    assert!(truth(IfCondition::Equal(pair(constant(2), constant(2)))));
    assert!(truth(IfCondition::NotEqual(pair(constant(2), constant(3)))));
    assert!(truth(IfCondition::In(pair(var(5), var(4)))));
    assert!(!truth(IfCondition::NotIn(pair(var(5), var(4)))));
    // A missing value equals `None` and has no order.
    assert!(truth(IfCondition::Equal(pair(var(9), var(3)))));
    assert!(truth(IfCondition::Equal(pair(var(9), var(8)))));
    assert!(!truth(IfCondition::LessThan(pair(var(9), constant(3)))));
    assert!(truth(IfCondition::Is(pair(var(9), var(3)))));
    assert!(!truth(IfCondition::IsNot(pair(var(9), var(3)))));
    // Two truth values are not told to be the same one.
    assert!(!truth(IfCondition::Is(pair(var(1), var(1)))));
    // A value that cannot be resolved makes a comparison false.
    assert!(!truth(IfCondition::Equal(pair(var(6), var(6)))));
}

#[test]
fn the_first_true_value_is_found() {
    let py = variables();
    let context = context(true);
    let first = |places: &[usize]| {
        FirstOf {
            vars: places
                .iter()
                .map(|place| TagElement::Variable(Variable { at: (*place, 1) }))
                .collect(),
            asvar: Some("x".to_string()),
        }
    };
    match first(&[9, 2, 3, 4, 1]).first_true(&py, &context) {
        Ok(Some(Content::String(s))) => assert_eq!(s.into_raw(), "abc"),
        _ => panic!("nothing true"),
    }
    assert!(matches!(first(&[9, 2]).first_true(&py, &context), Ok(None)));
    match first(&[2, 6, 4]).first_true(&py, &context) {
        Err(e) => assert_eq!(e, failure()),
        Ok(_) => panic!("no error"),
    }
}

#[test]
fn delimiters_are_written() {
    let shown: Vec<&str> = [
        TemplateTag::OpenBlock,
        TemplateTag::CloseBlock,
        TemplateTag::OpenVariable,
        TemplateTag::CloseVariable,
        TemplateTag::OpenBrace,
        TemplateTag::CloseBrace,
        TemplateTag::OpenComment,
        TemplateTag::CloseComment,
    ]
    .map(|tag| tag.output())
    .to_vec();
    assert_eq!(shown, vec!["{%", "%}", "{{", "}}", "{", "}", "{#", "#}"]);
    let cycle = || SimpleCycle { id: CycleId(1), values: vec![] };
    assert!(Cycle::Simple(cycle()).is_shown());
    assert!(Cycle::Simple(cycle()).named().is_none());
    assert_eq!(Cycle::Simple(cycle()).simple().id, CycleId(1));
}

#[test]
fn applications_come_from_the_request() {
    assert_eq!(current_app(None), Ok(None));
    let request = |app: Option<u64>, namespace: Option<u64>| RequestApp {
        current_app: Ok(app.map(object)),
        resolver_match: Ok(namespace.map(|id| Ok(object(id)))),
    };
    assert_eq!(current_app(Some(request(Some(1), Some(2)))), Ok(Some(object(1))));
    assert_eq!(current_app(Some(request(None, Some(2)))), Ok(Some(object(2))));
    assert_eq!(current_app(Some(request(None, None))), Ok(None));
}

#[test]
fn nodes_come_before_arguments() {
    assert_eq!(block_arguments(object(2), &vec![object(3)]), vec![object(2), object(3)]);
    assert_eq!(block_arguments(object(2), &vec![]), vec![object(2)]);
}

#[test]
fn tokens_against_forgery() {
    let value = |string: Option<&str>| CsrfValue {
        string: string.map(|s| s.to_string()),
        is_truthy: Ok(true),
        text: Ok("lazy".to_string()),
    };
    assert_eq!(
        CsrfToken::render_token(value(Some("a\"b"))),
        Ok("<input type=\"hidden\" name=\"csrfmiddlewaretoken\" value=\"a&quot;b\">".to_string())
    );
    assert_eq!(CsrfToken::render_token(value(Some("NOTPROVIDED"))), Ok(String::new()));
    assert_eq!(CsrfToken::render_token(value(Some(""))), Ok(String::new()));
    assert_eq!(
        CsrfToken::render_token(value(None)),
        Ok("<input type=\"hidden\" name=\"csrfmiddlewaretoken\" value=\"lazy\">".to_string())
    );
    let untrue = CsrfValue { string: None, is_truthy: Ok(false), text: Err(object(1)) };
    assert_eq!(CsrfToken::render_token(untrue), Ok(String::new()));
    assert!(CsrfToken::missing_warning().contains("the context did not provide the value"));
}

#[test]
fn placeholder_text_is_planned() {
    let lorem = |method: LoremMethod, common: bool| Lorem {
        count: TagElement::Int(Integer::from_u8(1)),
        method,
        common,
    };
    assert_eq!(lorem(LoremMethod::Words, true).plan(5, 19), LoremPlan::Words(5));
    assert_eq!(lorem(LoremMethod::Words, true).plan(-4, 19), LoremPlan::Words(15));
    assert_eq!(lorem(LoremMethod::Words, true).plan(-40, 19), LoremPlan::Words(0));
    assert_eq!(lorem(LoremMethod::Words, false).plan(-4, 19), LoremPlan::Words(0));
    assert_eq!(lorem(LoremMethod::Blocks, true).plan(0, 19), LoremPlan::Nothing);
    assert_eq!(
        lorem(LoremMethod::Paragraphs, true).plan(2, 19),
        LoremPlan::Paragraphs { count: 2, wrapped: true }
    );
    assert_eq!(
        lorem(LoremMethod::Blocks, true).plan(2, 19),
        LoremPlan::Paragraphs { count: 2, wrapped: false }
    );
    assert_eq!(Lorem::count_of(&None), 1);
    assert_eq!(Lorem::count_of(&Integer::parse("7")), 7);
    assert_eq!(Lorem::count_of(&Integer::parse("99999999999999999999")), 1);
    let paragraphs = vec!["a".to_string(), "b".to_string()];
    assert_eq!(Lorem::join_paragraphs(&paragraphs, true), "<p>a</p>\n\n<p>b</p>");
    assert_eq!(Lorem::join_paragraphs(&paragraphs, false), "a\n\nb");
}

fn include_of(template_name: IncludeTemplateName<Integer, String>) -> Include {
    Include {
        template_name,
        origin: None,
        engine: object(0),
        only: false,
        kwargs: vec![((0, 1), TagElement::Int(Integer::from_u8(1)))],
    }
}

fn variable_name() -> Include {
    include_of(IncludeTemplateName::Variable(TagElement::Variable(Variable { at: (5, 4) })))
}

fn py_name(text: Option<&str>, names: Option<Vec<String>>) -> PyTemplateName {
    PyTemplateName {
        render: Ok(None),
        text: text.map(|s| s.to_string()),
        relative_path: Ok(None),
        is_promise: Ok(false),
        names,
        display: "shown".to_string(),
        repr: "shown in full".to_string(),
    }
}

fn key(choice: Result<TemplateChoice, PyRenderError<String>>) -> Vec<String> {
    match choice {
        Ok(TemplateChoice::Key(IncludeTemplateKey::String(name))) => vec![name],
        Ok(TemplateChoice::Key(IncludeTemplateKey::Vec(names))) => names,
        _ => panic!("no key"),
    }
}

fn raised(choice: Result<TemplateChoice, PyRenderError<String>>) -> (PyException, String) {
    match choice {
        Err(PyRenderError::Raised { exception, label, at, .. }) => {
            assert_eq!(at, (5, 4));
            (exception, label)
        }
        _ => panic!("nothing raised"),
    }
}

#[test]
fn included_templates_are_named() {
    let tag = variable_name();
    let no_name = |_: PyObject| -> PyTemplateName { panic!("no Python object") };
    assert_eq!(tag.template_at(), (5, 4));
    assert_eq!(key(tag.get_template(text("a.txt"), no_name, float_text)), vec!["a.txt"]);
    assert_eq!(
        raised(tag.get_template(number("3"), no_name, float_text)),
        (PyException::TypeError, "invalid template name: 3".to_string())
    );
    assert_eq!(
        raised(tag.get_template(Content::Float(float(1.5)), no_name, float_text)).1,
        "invalid template name: 1.5"
    );
    assert_eq!(
        raised(tag.get_template(Content::Bool(true), no_name, float_text)).1,
        "invalid template name: True"
    );
    let by = |name: PyTemplateName| tag.choose_python(name);
    assert_eq!(key(by(py_name(Some("b.txt"), None))), vec!["b.txt"]);
    assert_eq!(
        key(by(PyTemplateName {
            relative_path: Ok(Some("c/d.txt".to_string())),
            ..py_name(Some("./d.txt"), None)
        })),
        vec!["c/d.txt"]
    );
    let names = vec!["x".to_string(), "y".to_string()];
    assert_eq!(key(by(py_name(None, Some(names.clone())))), names);
    assert_eq!(raised(by(py_name(None, None))).1, "invalid template name: shown");
    assert_eq!(
        raised(by(PyTemplateName { is_promise: Ok(true), ..py_name(None, None) })).1,
        "invalid template name: shown in full"
    );
    match by(PyTemplateName { render: Ok(Some((object(4), true))), ..py_name(None, None) }) {
        Ok(TemplateChoice::Callable(render)) => assert_eq!(render, object(4)),
        _ => panic!("nothing to call"),
    }
    match by(PyTemplateName {
        relative_path: Err(LexerFault { id: 6 }),
        ..py_name(Some("../x"), None)
    }) {
        Err(e) => assert_eq!(
            e,
            PyRenderError::RenderError(RenderError::RelativePathError(LexerFault { id: 6 }))
        ),
        Ok(_) => panic!("no error"),
    }
}

#[test]
fn names_of_included_templates_are_resolved() {
    let tag = variable_name();
    match tag.resolve_template_name(Ok(None)) {
        Err(PyRenderError::Raised { exception, message, at, label }) => {
            assert_eq!(exception, PyException::TemplateDoesNotExist);
            assert_eq!(message, "No template names provided");
            assert_eq!(at, (5, 4));
            assert_eq!(label, "This variable is not in the context");
        }
        _ => panic!("nothing raised"),
    }
    let relative = include_of(IncludeTemplateName::Relative(RelativePath {
        at: (1, 1),
        path: "p".to_string(),
    }));
    match relative.resolve_template_name(Ok(None)) {
        Ok(Content::String(s)) => assert_eq!(s.into_raw(), "p"),
        _ => panic!("no path"),
    }
    assert_eq!(relative.keywords(TemplateString("k")), Some(vec!["k".to_string()]));
    assert_eq!(relative.keywords(TemplateString("")), None);
}
