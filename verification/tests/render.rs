//! Rendering nodes and tags.
use django_templates::integer::Integer;
use django_templates::lexer::tokens::{AutoescapeEnabled, LoremMethod, TemplateTag};
use django_templates::parse::tree::{
    Comment, CsrfToken, Cycle, CycleId, FirstOf, For, ForIterable, ForNames, IfCondition, Include,
    IncludeTemplateName, Lorem, NamedCycle, Now, RelativePath, SilentNamedCycle, SimpleBlockTag,
    SimpleCycle, SimpleTag, Tag, TagElement, TokenTree, Url,
};
use django_templates::render::compare::Comparison;
use django_templates::render::condition::{Failures, Python};
use django_templates::render::content::{Content, ContentString, PySource, PyText};
use django_templates::render::context::{
    Context, IncludeTemplateKey, IterationError, TemplateRef,
};
use django_templates::render::errors::{PyException, PyRenderError, RenderError};
use django_templates::render::host::{Called, Host};
use django_templates::render::renderer::{render_node, render_nodes, render_tag};
use django_templates::render::tags::{CsrfValue, PyTemplateName, RequestApp, ReverseError};
use django_templates::text::{At, TemplateString};
use django_templates::types::{Float, PyObject, Text, Variable};
use std::cell::RefCell;

type Rendered = Result<String, PyRenderError<String>>;

/// A Python object, as far as these tests need it.
#[derive(Clone, Debug, PartialEq)]
enum Value {
    Str(String),
    List(Vec<u64>),
    Number(i64),
    /// Something with a method `render`.
    Renders,
    /// Something that cannot be iterated over.
    Opaque,
    /// Something whose iteration fails after its first item.
    Breaks(u64),
}

/// Python, and the values of a template with this source.
struct TestHost<'t> {
    source: &'t str,
    objects: RefCell<Vec<Value>>,
    calls: RefCell<Vec<String>>,
    debug: bool,
}

const FAILURE: u64 = 999;

fn failure() -> PyObject {
    PyObject { id: FAILURE }
}

impl<'t> TestHost<'t> {
    fn new(source: &'t str) -> Self {
        TestHost { source, objects: RefCell::default(), calls: RefCell::default(), debug: true }
    }

    fn add(&self, value: Value) -> PyObject {
        let mut objects = self.objects.borrow_mut();
        objects.push(value);
        PyObject { id: objects.len() as u64 - 1 }
    }

    fn str(&self, text: &str) -> PyObject {
        self.add(Value::Str(text.to_string()))
    }

    fn list(&self, items: &[PyObject]) -> PyObject {
        self.add(Value::List(items.iter().map(|item| item.id).collect()))
    }

    fn value(&self, object: PyObject) -> Value {
        self.objects.borrow()[object.id as usize].clone()
    }

    fn show(&self, object: PyObject) -> String {
        match self.value(object) {
            Value::Str(text) => text,
            Value::Number(n) => n.to_string(),
            Value::List(items) => {
                let items: Vec<String> =
                    items.iter().map(|id| self.show(PyObject { id: *id })).collect();
                format!("[{}]", items.join(", "))
            }
            other => format!("{other:?}"),
        }
    }

    fn log(&self, call: String) {
        self.calls.borrow_mut().push(call);
    }

    fn text_at(&self, at: At) -> &'t str {
        &self.source[at.0..at.0 + at.1]
    }

    /// What a function gives for its arguments.
    fn call(&self, args: &[PyObject], kwargs: &[(String, PyObject)]) -> Result<String, PyObject> {
        let mut shown: Vec<String> = args.iter().map(|arg| self.show(*arg)).collect();
        shown.extend(kwargs.iter().map(|(name, value)| format!("{name}={}", self.show(*value))));
        let shown = shown.join(",");
        if shown.contains("fail") { Err(failure()) } else { Ok(format!("f({shown})")) }
    }
}

impl Python for TestHost<'_> {
    fn evaluate(&self, element: &TagElement<Integer>, context: &Context) -> Option<bool> {
        match self.resolve(element, Failures::IgnoreVariableDoesNotExist, context) {
            Ok(Some(Content::Py(object))) => self.is_truthy(object).ok(),
            Ok(Some(_)) => Some(true),
            Ok(None) => Some(false),
            Err(_) => None,
        }
    }

    fn resolve(
        &self,
        element: &TagElement<Integer>,
        failures: Failures,
        context: &Context,
    ) -> Result<Option<Content>, PyRenderError<String>> {
        match element {
            TagElement::Variable(variable) => {
                let name = self.text_at(variable.at);
                match context.get(name) {
                    Some(object) => Ok(Some(Content::Py(object))),
                    None if name == "raises" && failures == Failures::Raise => {
                        Err(PyRenderError::PyErr(failure()))
                    }
                    None => Ok(None),
                }
            }
            TagElement::Text(text) => {
                let text = self.text_at(text.at).to_string();
                Ok(Some(Content::String(ContentString::HtmlSafe(text))))
            }
            TagElement::Int(n) => {
                Ok(Some(Content::Int(Integer::parse(&n.to_text()).unwrap())))
            }
            _ => panic!("no such value"),
        }
    }

    fn is_truthy(&self, object: PyObject) -> Result<bool, PyObject> {
        Ok(match self.value(object) {
            Value::Str(text) => !text.is_empty(),
            Value::List(items) => !items.is_empty(),
            Value::Number(n) => n != 0,
            _ => true,
        })
    }

    fn compare(&self, _: Comparison, _: &Content, _: &Content) -> bool {
        false
    }

    fn equals_none(&self, _: PyObject) -> bool {
        false
    }

    fn contains(&self, _: &Content, _: &Option<Content>) -> Option<bool> {
        None
    }

    fn is_same(&self, left: PyObject, right: PyObject) -> bool {
        left == right
    }

    fn is_none(&self, _: PyObject) -> bool {
        false
    }

    fn is_bool(&self, _: PyObject, _: bool) -> bool {
        false
    }
}

impl Host for TestHost<'_> {
    fn render_node(&self, node: &TokenTree, context: &Context) -> Rendered {
        match node {
            TokenTree::Text(text) => Ok(self.text_at(text.at).to_string()),
            TokenTree::Variable(variable) => {
                let name = self.text_at(variable.at);
                match context.get(name) {
                    Some(object) => Ok(self.show(object)),
                    None if name == "raises" => Err(PyRenderError::PyErr(failure())),
                    None => Ok(String::new()),
                }
            }
            _ => panic!("no such node"),
        }
    }

    fn to_object(&self, source: PySource<'_>) -> PyObject {
        match source {
            PySource::Object(object) => object,
            PySource::Str(s) | PySource::SafeStr(s) => self.str(s),
            PySource::Int(n) => self.add(Value::Number(n.to_text().parse().unwrap())),
            _ => panic!("no such value"),
        }
    }

    fn to_argument(&self, content: &Option<Content>) -> Result<PyObject, PyObject> {
        Ok(match content {
            Some(content) => self.to_object(content.to_py()),
            None => self.str("None"),
        })
    }

    fn string(&self, text: &String) -> PyObject {
        self.str(text)
    }

    fn character(&self, character: char) -> PyObject {
        self.str(&character.to_string())
    }

    fn text(&self, object: PyObject) -> PyText {
        PyText {
            is_string: matches!(self.value(object), Value::Str(_)),
            text: Ok(self.show(object)),
            html: Ok(None),
        }
    }

    fn float_text(&self, float: Float) -> String {
        format!("{:?}", f64::from_bits(float.bits))
    }

    fn integer(&self, object: PyObject) -> Option<Integer> {
        match self.value(object) {
            Value::Number(n) => Integer::parse(&n.to_string()),
            _ => None,
        }
    }

    fn whole(&self, _: Float) -> Option<Integer> {
        None
    }

    fn iterate(&self, object: PyObject) -> Result<Vec<Result<PyObject, PyObject>>, PyObject> {
        match self.value(object) {
            Value::List(items) => Ok(items.into_iter().map(|id| Ok(PyObject { id })).collect()),
            Value::Breaks(first) => Ok(vec![Ok(PyObject { id: first }), Err(failure())]),
            _ => Err(failure()),
        }
    }

    fn unpack(&self, item: PyObject) -> Result<Vec<PyObject>, IterationError> {
        self.log(format!("unpack {}", self.show(item)));
        match self.value(item) {
            Value::List(items) => Ok(items.into_iter().map(|id| PyObject { id }).collect()),
            _ => Err(IterationError::NotIterable),
        }
    }

    fn template_name(&self, object: PyObject, _: &Option<String>, _: At) -> PyTemplateName {
        let value = self.value(object);
        PyTemplateName {
            render: Ok(if value == Value::Renders { Some((object, true)) } else { None }),
            text: match &value {
                Value::Str(text) => Some(text.clone()),
                _ => None,
            },
            relative_path: Ok(None),
            is_promise: Ok(false),
            names: match &value {
                Value::List(_) => Some(vec!["first".to_string(), "second".to_string()]),
                _ => None,
            },
            display: self.show(object),
            repr: self.show(object),
        }
    }

    fn load_template(
        &self,
        _: PyObject,
        key: &IncludeTemplateKey,
    ) -> Result<TemplateRef, PyObject> {
        match key {
            IncludeTemplateKey::String(name) => {
                self.log(format!("load {name}"));
                if name == "missing" { Err(failure()) } else { Ok(TemplateRef { id: 1 }) }
            }
            IncludeTemplateKey::Vec(names) => {
                self.log(format!("select {}", names.join(" ")));
                Ok(TemplateRef { id: 2 })
            }
        }
    }

    fn render_template(&self, template: TemplateRef, context: Context) -> (Context, Rendered) {
        let mut context = context;
        let shown = |name: &str| match context.get(name) {
            Some(object) => self.show(object),
            None => "-".to_string(),
        };
        let rendered = format!("<{} a={} x={}>", template.id, shown("a"), shown("x"));
        context.insert("left".to_string(), self.str("behind"));
        let fails = rendered.contains("fail");
        (context, if fails { Err(PyRenderError::PyErr(failure())) } else { Ok(rendered) })
    }

    fn call_render(&self, _: PyObject, context: Context) -> (Context, Called) {
        let mut context = context;
        context.insert("called".to_string(), self.str("yes"));
        (context, Ok(Ok("rendered".to_string())))
    }

    fn call_tag(
        &self,
        _: PyObject,
        args: &Vec<PyObject>,
        kwargs: &Vec<(String, PyObject)>,
    ) -> Result<String, PyObject> {
        self.call(args, kwargs)
    }

    fn call_tag_with_context(
        &self,
        _: PyObject,
        args: &Vec<PyObject>,
        kwargs: &Vec<(String, PyObject)>,
        context: Context,
    ) -> (Context, Called) {
        let mut context = context;
        context.insert("seen".to_string(), self.str("yes"));
        (context, Ok(self.call(args, kwargs)))
    }

    fn reverse(&self) -> Result<PyObject, PyObject> {
        Ok(PyObject { id: 50 })
    }

    fn request_app(&self, _: PyObject) -> RequestApp {
        RequestApp { current_app: Ok(Some(PyObject { id: 60 })), resolver_match: Ok(None) }
    }

    fn reverse_args(
        &self,
        reverse: PyObject,
        view_name: &Content,
        args: &Vec<PyObject>,
        app: Option<PyObject>,
    ) -> Result<PyObject, ReverseError> {
        let args: Vec<String> = args.iter().map(|arg| self.show(*arg)).collect();
        let name = self.show(self.to_object(view_name.to_py()));
        if name == "none" {
            return Err(ReverseError { error: failure(), no_match: true });
        }
        let app = app.map(|app| app.id);
        Ok(self.str(&format!("/{name}/{}/{}/{app:?}", args.join("/"), reverse.id)))
    }

    fn reverse_kwargs(
        &self,
        _: PyObject,
        _: &Content,
        kwargs: &Vec<(String, PyObject)>,
        _: Option<PyObject>,
    ) -> Result<PyObject, ReverseError> {
        let kwargs: Vec<String> =
            kwargs.iter().map(|(name, value)| format!("{name}:{}", self.show(*value))).collect();
        Ok(self.str(&kwargs.join("&")))
    }

    fn now(&self, format: &String, named: bool) -> Result<PyObject, PyObject> {
        if format == "fail" { Err(failure()) } else { Ok(self.str(&format!("{format} {named}"))) }
    }

    fn string_text(&self, object: PyObject) -> Result<String, PyObject> {
        Ok(self.show(object))
    }

    fn csrf_value(&self, token: PyObject) -> CsrfValue {
        CsrfValue {
            string: Some(self.show(token)),
            is_truthy: Ok(true),
            text: Ok(self.show(token)),
        }
    }

    fn debug(&self) -> Result<bool, PyObject> {
        Ok(self.debug)
    }

    fn warn(&self, message: &str) -> Result<(), PyObject> {
        self.log(message.to_string());
        Ok(())
    }

    fn common_words(&self) -> u32 {
        19
    }

    fn words(&self, count: usize, common: bool) -> String {
        format!("{count} words {common}")
    }

    fn paragraphs(&self, count: usize, _: bool) -> Vec<String> {
        (0..count).map(|i| format!("p{i}")).collect()
    }
}

fn context(values: &[(&str, PyObject)]) -> Context {
    let values = values.iter().map(|(name, object)| (name.to_string(), *object)).collect();
    Context::new(&values, None, true)
}

/// Where the last occurrence of a piece of a template lies.
fn at(source: &str, piece: &str) -> At {
    (source.rfind(piece).unwrap(), piece.len())
}

fn var(source: &str, name: &str) -> TagElement<Integer> {
    TagElement::Variable(Variable { at: at(source, name) })
}

fn node(source: &str, name: &str) -> TokenTree {
    TokenTree::Variable(Variable { at: at(source, name) })
}

fn text(source: &str, piece: &str) -> TokenTree {
    TokenTree::Text(Text { at: at(source, piece) })
}

fn constant(n: u8) -> TagElement<Integer> {
    TagElement::Int(Integer::from_u8(n))
}

fn render(host: &TestHost<'_>, tag: &Tag, context: &mut Context) -> Rendered {
    render_tag(host, TemplateString(host.source), tag, context)
}

const SOURCE: &str = "a b x y none raises title items missing 'text' ! ";

#[test]
fn nodes_are_written_one_after_the_other() {
    let host = TestHost::new(SOURCE);
    let mut context = context(&[("a", host.str("1")), ("b", host.str("2"))]);
    let source = TemplateString(SOURCE);
    let nodes = vec![
        TokenTree::Variable(Variable { at: (0, 1) }),
        text(SOURCE, "!"),
        TokenTree::Variable(Variable { at: (2, 1) }),
        TokenTree::Tag(Tag::Load),
        TokenTree::Tag(Tag::Comment(Comment)),
        TokenTree::Tag(Tag::TemplateTag(TemplateTag::OpenBlock)),
    ];
    assert_eq!(render_nodes(&host, source, &nodes, &mut context), Ok("1!2{%".to_string()));
    assert_eq!(render_node(&host, source, &nodes[0], &mut context), Ok("1".to_string()));
    assert_eq!(render_nodes(&host, source, &vec![], &mut context), Ok(String::new()));
}

#[test]
fn the_first_error_ends_rendering() {
    let host = TestHost::new(SOURCE);
    let mut context = context(&[]);
    let store = TokenTree::Tag(Tag::Now(Now { format: "Y".to_string(), asvar: Some((6, 1)) }));
    let first = TokenTree::Tag(Tag::Now(Now { format: "Y".to_string(), asvar: Some((4, 1)) }));
    let nodes = vec![first, node(SOURCE, "raises"), store];
    let outcome = render_nodes(&host, TemplateString(SOURCE), &nodes, &mut context);
    assert_eq!(outcome, Err(PyRenderError::PyErr(failure())));
    assert!(context.contains("x"));
    assert!(!context.contains("y"));
}

#[test]
fn escaping_lasts_for_its_nodes() {
    let host = TestHost::new(SOURCE);
    let mut context = context(&[("x", host.str("<"))]);
    let shown = || Tag::FirstOf(FirstOf { vars: vec![var(SOURCE, "x")], asvar: None });
    let tag = Tag::Autoescape {
        enabled: AutoescapeEnabled::Off,
        nodes: vec![TokenTree::Tag(shown())],
    };
    assert_eq!(render(&host, &shown(), &mut context), Ok("&lt;".to_string()));
    assert_eq!(render(&host, &tag, &mut context), Ok("<".to_string()));
    assert!(context.autoescape());
    let fails = Tag::Autoescape {
        enabled: AutoescapeEnabled::Off,
        nodes: vec![node(SOURCE, "raises")],
    };
    assert_eq!(render(&host, &fails, &mut context), Err(PyRenderError::PyErr(failure())));
    assert!(!context.autoescape());
}

#[test]
fn conditions_decide_what_is_rendered() {
    let host = TestHost::new(SOURCE);
    let mut context = context(&[("a", host.str("1")), ("b", host.str(""))]);
    let tag = |name: At, falsey: bool| Tag::If {
        condition: IfCondition::Variable(TagElement::Variable(Variable { at: name })),
        truthy: vec![text(SOURCE, "title")],
        falsey: if falsey { Some(vec![text(SOURCE, "items")]) } else { None },
    };
    assert_eq!(render(&host, &tag((0, 1), true), &mut context), Ok("title".to_string()));
    assert_eq!(render(&host, &tag((2, 1), true), &mut context), Ok("items".to_string()));
    assert_eq!(render(&host, &tag((2, 1), false), &mut context), Ok(String::new()));
}

fn for_tag(names: &[&str], reversed: bool, body: Vec<TokenTree>) -> Tag {
    Tag::For(For {
        iterable: ForIterable { iterable: var(SOURCE, "items"), at: at(SOURCE, "items") },
        variables: ForNames {
            names: names.iter().map(|name| name.to_string()).collect(),
            at: at(SOURCE, "title"),
        },
        reversed,
        body,
        empty: Some(vec![text(SOURCE, "none")]),
    })
}

#[test]
fn loops_render_their_body_in_turn() {
    let host = TestHost::new(SOURCE);
    let items = host.list(&[host.str("1"), host.str("2"), host.str("3")]);
    let old = host.str("old");
    let mut context = context(&[("items", items), ("x", old)]);
    let body = || vec![node(SOURCE, "x"), text(SOURCE, "!")];
    let forwards = for_tag(&["x"], false, body());
    assert_eq!(render(&host, &forwards, &mut context), Ok("1!2!3!".to_string()));
    let backwards = for_tag(&["x"], true, body());
    assert_eq!(render(&host, &backwards, &mut context), Ok("3!2!1!".to_string()));
    assert_eq!(context.get("x"), Some(old));
    assert!(context.get_for_loop(0).is_none());
    let pairs = host.list(&[
        host.list(&[host.str("p"), host.str("q")]),
        host.list(&[host.str("r"), host.str("s")]),
    ]);
    context.insert("items".to_string(), pairs);
    let body = vec![node(SOURCE, "y"), node(SOURCE, "x")];
    assert_eq!(
        render(&host, &for_tag(&["x", "y"], false, body), &mut context),
        Ok("qpsr".to_string())
    );
    assert_eq!(context.get("y"), None);
    assert_eq!(*host.calls.borrow(), vec!["unpack [p, q]".to_string(), "unpack [r, s]".to_string()]);
}

#[test]
fn loops_can_be_nested() {
    let host = TestHost::new(SOURCE);
    let items = host.list(&[host.str("1"), host.str("2")]);
    let mut context = context(&[("items", items)]);
    let inner = for_tag(&["y"], true, vec![node(SOURCE, "x"), node(SOURCE, "y")]);
    let outer = for_tag(&["x"], false, vec![TokenTree::Tag(inner), text(SOURCE, "!")]);
    assert_eq!(render(&host, &outer, &mut context), Ok("1211!2221!".to_string()));
    assert!(!context.contains("x"));
    assert!(!context.contains("y"));
}

#[test]
fn loops_go_over_text_and_nothing() {
    let host = TestHost::new(SOURCE);
    let mut context = context(&[]);
    let tag = for_tag(&["x"], false, vec![node(SOURCE, "x"), text(SOURCE, "!")]);
    assert_eq!(render(&host, &tag, &mut context), Ok("none".to_string()));
    let over = |element: TagElement<Integer>, names: &[&str]| {
        Tag::For(For {
            iterable: ForIterable { iterable: element, at: (1, 2) },
            variables: ForNames {
                names: names.iter().map(|name| name.to_string()).collect(),
                at: (3, 4),
            },
            reversed: true,
            body: vec![node(SOURCE, "x"), text(SOURCE, "!")],
            empty: None,
        })
    };
    let literal = || TagElement::Text(Text { at: at(SOURCE, "text") });
    assert_eq!(render(&host, &over(literal(), &["x"]), &mut context), Ok("t!x!e!t!".to_string()));
    let unpack = RenderError::TupleUnpackError {
        expected_count: 2,
        actual_count: 1,
        expected_at: (3, 4),
        actual_at: (1, 2),
    };
    assert_eq!(
        render(&host, &over(literal(), &["x", "y"]), &mut context),
        Err(PyRenderError::RenderError(unpack))
    );
    assert_eq!(
        render(&host, &over(constant(3), &["x"]), &mut context),
        Err(PyRenderError::Broken)
    );
    assert_eq!(
        render(&host, &over(var(SOURCE, "missing"), &["x"]), &mut context),
        Ok(String::new())
    );
}

#[test]
fn loops_point_to_what_fails() {
    let host = TestHost::new(SOURCE);
    let mut context = context(&[("items", host.add(Value::Opaque))]);
    let annotated = |label: &str| PyRenderError::Annotated {
        error: failure(),
        at: at(SOURCE, "items"),
        label: label.to_string(),
    };
    let tag = || for_tag(&["x"], false, vec![node(SOURCE, "x")]);
    assert_eq!(render(&host, &tag(), &mut context), Err(annotated("here")));
    context.insert("items".to_string(), host.add(Value::Breaks(0)));
    assert_eq!(render(&host, &tag(), &mut context), Err(annotated("while iterating this")));
    let mut context = self::context(&[("items", host.list(&[host.str("1")]))]);
    let failing = for_tag(&["x"], false, vec![node(SOURCE, "raises")]);
    assert_eq!(
        render(&host, &failing, &mut context),
        Err(PyRenderError::PyErr(failure()))
    );
}

#[test]
fn cycles_take_turns() {
    let host = TestHost::new(SOURCE);
    let mut context = context(&[("x", host.str("<")), ("y", host.str("2"))]);
    let cycle =
        || SimpleCycle { id: CycleId(3), values: vec![var(SOURCE, "x"), var(SOURCE, "y")] };
    let simple = Tag::Cycle(Cycle::Simple(cycle()));
    let shown: Vec<String> =
        (0..3).map(|_| render(&host, &simple, &mut context).unwrap()).collect();
    assert_eq!(shown, vec!["&lt;", "2", "&lt;"]);
    let named = || NamedCycle { cycle: cycle(), asvar: "c".to_string() };
    let tag = Tag::Cycle(Cycle::Named(named()));
    assert_eq!(render(&host, &tag, &mut context), Ok("2".to_string()));
    assert_eq!(host.show(context.get("c").unwrap()), "2");
    let silent = Tag::Cycle(Cycle::SilentNamed(SilentNamedCycle { cycle: named() }));
    assert_eq!(render(&host, &silent, &mut context), Ok(String::new()));
    assert_eq!(host.show(context.get("c").unwrap()), "<");
    let empty = Tag::Cycle(Cycle::Simple(SimpleCycle { id: CycleId(4), values: vec![] }));
    assert_eq!(render(&host, &empty, &mut context), Err(PyRenderError::Broken));
}

#[test]
fn the_first_true_value_is_written_or_stored() {
    let host = TestHost::new(SOURCE);
    let mut context = context(&[("x", host.str("")), ("y", host.str("&"))]);
    let tag = |asvar: Option<&str>| {
        Tag::FirstOf(FirstOf {
            vars: vec![var(SOURCE, "missing"), var(SOURCE, "x"), var(SOURCE, "y")],
            asvar: asvar.map(|name| name.to_string()),
        })
    };
    assert_eq!(render(&host, &tag(None), &mut context), Ok("&amp;".to_string()));
    assert_eq!(render(&host, &tag(Some("f")), &mut context), Ok(String::new()));
    assert_eq!(host.show(context.get("f").unwrap()), "&");
    let nothing = Tag::FirstOf(FirstOf { vars: vec![var(SOURCE, "x")], asvar: None });
    assert_eq!(render(&host, &nothing, &mut context), Ok(String::new()));
}

#[test]
fn dates_are_written_or_stored() {
    let host = TestHost::new(SOURCE);
    let mut context = context(&[]);
    let now = |format: &str, asvar: Option<At>| {
        Tag::Now(Now { format: format.to_string(), asvar })
    };
    assert_eq!(render(&host, &now("Y", None), &mut context), Ok("Y false".to_string()));
    assert_eq!(
        render(&host, &now("DATE_FORMAT", Some(at(SOURCE, "title"))), &mut context),
        Ok(String::new())
    );
    assert_eq!(host.show(context.get("title").unwrap()), "DATE_FORMAT true");
    assert_eq!(
        render(&host, &now("fail", None), &mut context),
        Err(PyRenderError::PyErr(failure()))
    );
    assert_eq!(
        render(&host, &now("Y", Some((900, 1))), &mut context),
        Err(PyRenderError::Broken)
    );
}

#[test]
fn tokens_come_from_the_context() {
    let host = TestHost::new(SOURCE);
    let tag = Tag::CsrfToken(CsrfToken);
    let mut with_token = context(&[("csrf_token", host.str("t<"))]);
    assert_eq!(
        render(&host, &tag, &mut with_token),
        Ok("<input type=\"hidden\" name=\"csrfmiddlewaretoken\" value=\"t&lt;\">".to_string())
    );
    assert_eq!(host.calls.borrow().len(), 0);
    assert_eq!(render(&host, &tag, &mut context(&[])), Ok(String::new()));
    assert_eq!(host.calls.borrow().len(), 1);
    assert!(host.calls.borrow()[0].starts_with("A {% csrf_token %} was used in a template"));
    let quiet = TestHost { debug: false, ..TestHost::new(SOURCE) };
    assert_eq!(render(&quiet, &tag, &mut context(&[])), Ok(String::new()));
    assert_eq!(quiet.calls.borrow().len(), 0);
}

#[test]
fn placeholder_text_is_written() {
    let host = TestHost::new(SOURCE);
    let mut context = context(&[("x", host.add(Value::Number(3)))]);
    let lorem = |count: TagElement<Integer>, method: LoremMethod| {
        Tag::Lorem(Lorem { count, method, common: true })
    };
    assert_eq!(
        render(&host, &lorem(var(SOURCE, "x"), LoremMethod::Words), &mut context),
        Ok("3 words true".to_string())
    );
    assert_eq!(
        render(&host, &lorem(constant(2), LoremMethod::Paragraphs), &mut context),
        Ok("<p>p0</p>\n\n<p>p1</p>".to_string())
    );
    assert_eq!(
        render(&host, &lorem(var(SOURCE, "missing"), LoremMethod::Blocks), &mut context),
        Ok("p0".to_string())
    );
    assert_eq!(
        render(&host, &lorem(constant(0), LoremMethod::Blocks), &mut context),
        Ok(String::new())
    );
}

fn url(name: TagElement<Integer>, kwargs: bool, asvar: Option<&str>) -> Tag {
    Tag::Url(Url {
        at: (8, 9),
        view_name: name,
        args: vec![var(SOURCE, "missing"), constant(7)],
        kwargs: if kwargs { vec![("k".to_string(), constant(5))] } else { vec![] },
        asvar: asvar.map(|name| name.to_string()),
    })
}

#[test]
fn urls_are_looked_up() {
    let host = TestHost::new(SOURCE);
    let view = || TagElement::Text(Text { at: at(SOURCE, "title") });
    let mut context = context(&[]);
    assert_eq!(
        render(&host, &url(view(), false, None), &mut context),
        Ok("/title//7/50/None".to_string())
    );
    assert_eq!(render(&host, &url(view(), true, None), &mut context), Ok("k:5".to_string()));
    assert_eq!(render(&host, &url(view(), true, Some("u")), &mut context), Ok(String::new()));
    assert_eq!(host.show(context.get("u").unwrap()), "k:5");
    let none = || TagElement::Text(Text { at: at(SOURCE, "none") });
    assert_eq!(render(&host, &url(none(), false, Some("v")), &mut context), Ok(String::new()));
    assert!(!context.contains("v"));
    assert_eq!(
        render(&host, &url(none(), false, None), &mut context),
        Err(PyRenderError::Annotated { error: failure(), at: (8, 9), label: "here".to_string() })
    );
    let mut with_request = Context::new(&vec![], Some(PyObject { id: 70 }), true);
    assert_eq!(
        render(&host, &url(var(SOURCE, "missing"), false, None), &mut with_request),
        Ok("///7/50/Some(60)".to_string())
    );
}

fn simple(args: Vec<TagElement<Integer>>, takes_context: bool, target: Option<&str>) -> Tag {
    Tag::SimpleTag(SimpleTag {
        func: PyObject { id: 80 },
        at: (2, 3),
        takes_context,
        args,
        kwargs: vec![("k".to_string(), var(SOURCE, "missing"))],
        target_var: target.map(|name| name.to_string()),
    })
}

#[test]
fn functions_are_called_with_values() {
    let host = TestHost::new(SOURCE);
    let mut context = context(&[("x", host.str("1"))]);
    let args = || vec![var(SOURCE, "x"), var(SOURCE, "missing")];
    assert_eq!(
        render(&host, &simple(args(), false, None), &mut context),
        Ok("f(1,,k=None)".to_string())
    );
    assert!(!context.contains("seen"));
    assert_eq!(render(&host, &simple(args(), true, Some("t")), &mut context), Ok(String::new()));
    assert!(context.contains("seen"));
    assert_eq!(host.show(context.get("t").unwrap()), "f(1,,k=None)");
    context.insert("y".to_string(), host.str("fail"));
    assert_eq!(
        render(&host, &simple(vec![var(SOURCE, "y")], true, Some("u")), &mut context),
        Err(PyRenderError::Annotated { error: failure(), at: (2, 3), label: "here".to_string() })
    );
    assert!(!context.contains("u"));
    assert_eq!(
        render(&host, &simple(vec![var(SOURCE, "raises")], false, None), &mut context),
        Err(PyRenderError::PyErr(failure()))
    );
}

#[test]
fn functions_are_called_with_nodes() {
    let host = TestHost::new(SOURCE);
    let mut context = context(&[("x", host.str("1"))]);
    let block = |nodes: Vec<TokenTree>, target: Option<&str>| {
        Tag::SimpleBlockTag(SimpleBlockTag {
            func: PyObject { id: 80 },
            nodes,
            at: (2, 3),
            takes_context: true,
            args: vec![var(SOURCE, "x")],
            kwargs: vec![],
            target_var: target.map(|name| name.to_string()),
        })
    };
    let nodes = || vec![text(SOURCE, "title"), node(SOURCE, "x")];
    assert_eq!(render(&host, &block(nodes(), None), &mut context), Ok("f(title1,1)".to_string()));
    assert!(context.contains("seen"));
    assert_eq!(render(&host, &block(nodes(), Some("t")), &mut context), Ok(String::new()));
    assert_eq!(host.show(context.get("t").unwrap()), "f(title1,1)");
    assert_eq!(
        render(&host, &block(vec![node(SOURCE, "raises")], None), &mut context),
        Err(PyRenderError::PyErr(failure()))
    );
}

fn include_tag(
    template_name: IncludeTemplateName<Integer, String>,
    only: bool,
    kwargs: Vec<(At, TagElement<Integer>)>,
) -> Tag {
    Tag::Include(Include {
        template_name,
        origin: None,
        engine: PyObject { id: 90 },
        only,
        kwargs,
    })
}

fn by_text(name: &str) -> IncludeTemplateName<Integer, String> {
    IncludeTemplateName::Text(Text { at: at(SOURCE, name) })
}

fn by_variable(name: &str) -> IncludeTemplateName<Integer, String> {
    IncludeTemplateName::Variable(var(SOURCE, name))
}

#[test]
fn other_templates_are_rendered() {
    let host = TestHost::new(SOURCE);
    let mut context = context(&[("a", host.str("1"))]);
    let plain = || include_tag(by_text("title"), false, vec![]);
    assert_eq!(render(&host, &plain(), &mut context), Ok("<1 a=1 x=->".to_string()));
    assert_eq!(render(&host, &plain(), &mut context), Ok("<1 a=1 x=->".to_string()));
    assert_eq!(*host.calls.borrow(), vec!["load title".to_string()]);
    assert_eq!(host.show(context.get("left").unwrap()), "behind");
    let keyword = || vec![((4, 1), constant(8)), ((0, 1), var(SOURCE, "missing"))];
    let with = include_tag(by_text("title"), false, keyword());
    assert_eq!(render(&host, &with, &mut context), Ok("<1 a= x=8>".to_string()));
    assert!(!context.contains("x"));
    assert_eq!(host.show(context.get("a").unwrap()), "1");
    let relative = include_tag(
        IncludeTemplateName::Relative(RelativePath { at: (1, 1), path: "r".to_string() }),
        false,
        vec![],
    );
    assert_eq!(render(&host, &relative, &mut context), Ok("<1 a=1 x=->".to_string()));
    assert_eq!(host.calls.borrow()[1], "load r");
}

#[test]
fn a_template_may_see_its_keywords_only() {
    let host = TestHost::new(SOURCE);
    let mut context = context(&[("a", host.str("1"))]);
    let kwargs = vec![((4, 1), constant(8)), ((0, 1), var(SOURCE, "missing"))];
    let only = include_tag(by_text("title"), true, kwargs);
    assert_eq!(render(&host, &only, &mut context), Ok("<1 a=- x=8>".to_string()));
    assert!(!context.contains("left"));
    assert_eq!(host.show(context.get("a").unwrap()), "1");
}

#[test]
fn a_template_may_be_a_python_object() {
    let host = TestHost::new(SOURCE);
    let mut context = context(&[
        ("x", host.add(Value::Renders)),
        ("y", host.list(&[host.str("1")])),
        ("items", host.add(Value::Number(4))),
    ]);
    assert_eq!(
        render(&host, &include_tag(by_variable("x"), false, vec![]), &mut context),
        Ok("rendered".to_string())
    );
    assert!(context.contains("called"));
    context.insert("x".to_string(), host.str("5"));
    assert_eq!(
        render(&host, &include_tag(by_variable("y"), false, vec![]), &mut context),
        Ok("<2 a=- x=5>".to_string())
    );
    assert_eq!(*host.calls.borrow(), vec!["select first second".to_string()]);
    let raised = |exception: PyException, message: &str, name: &str, label: &str| {
        Err(PyRenderError::Raised {
            exception,
            message: message.to_string(),
            at: at(SOURCE, name),
            label: label.to_string(),
        })
    };
    assert_eq!(
        render(&host, &include_tag(by_variable("items"), false, vec![]), &mut context),
        raised(
            PyException::TypeError,
            "Included template name must be a string or iterable of strings.",
            "items",
            "invalid template name: 4"
        )
    );
    assert_eq!(
        render(&host, &include_tag(by_variable("none"), false, vec![]), &mut context),
        raised(
            PyException::TemplateDoesNotExist,
            "No template names provided",
            "none",
            "This variable is not in the context"
        )
    );
}

#[test]
fn included_templates_may_fail() {
    let host = TestHost::new(SOURCE);
    let mut context = context(&[("a", host.str("fail"))]);
    let missing = include_tag(by_text("missing"), false, vec![]);
    assert_eq!(
        render(&host, &missing, &mut context),
        Err(PyRenderError::Annotated {
            error: failure(),
            at: at(SOURCE, "missing"),
            label: "here".to_string(),
        })
    );
    // The keywords are taken back where the template fails.
    let fails = include_tag(by_text("title"), false, vec![((4, 1), constant(8))]);
    assert_eq!(render(&host, &fails, &mut context), Err(PyRenderError::PyErr(failure())));
    assert!(!context.contains("x"));
    let literal = include_tag(IncludeTemplateName::Variable(constant(1)), false, vec![]);
    assert_eq!(render(&host, &literal, &mut context), Err(PyRenderError::Broken));
    let outside = include_tag(by_text("title"), true, vec![((900, 1), constant(8))]);
    assert_eq!(render(&host, &outside, &mut context), Err(PyRenderError::Broken));
}
