//! The values that a template sees, and what for loops do to them.
use django_templates::integer::Integer;
use django_templates::lexer::tokens::AutoescapeEnabled;
use django_templates::parse::tree::{
    CycleId, For, ForIterable, ForNames, Now, SimpleCycle, TagElement, Url,
};
use django_templates::render::content::{Content, ContentString};
use django_templates::render::context::{
    Context, IncludeTemplateKey, IterationError, LoopItem, TemplateRef,
};
use django_templates::render::errors::{PyRenderError, RenderError};
use django_templates::render::tags::{
    append_keywords, enter_autoescape, inner_context, leave_autoescape, pop_keywords,
    ForPlan, ReverseError,
};
use django_templates::types::{PyObject, Variable};

fn object(id: u64) -> PyObject {
    PyObject { id }
}

fn context(values: &[(&str, u64)]) -> Context {
    let values = values.iter().map(|(name, id)| (name.to_string(), object(*id))).collect();
    Context::new(&values, None, true)
}

fn var() -> TagElement<Integer> {
    TagElement::Variable(Variable { at: (0, 1) })
}

fn loop_with(names: &[&str], reversed: bool) -> For {
    For {
        iterable: ForIterable { iterable: var(), at: (20, 2) },
        variables: ForNames { names: names.iter().map(|n| n.to_string()).collect(), at: (7, 4) },
        reversed,
        body: vec![],
        empty: None,
    }
}

fn item(id: u64, items: &[u64]) -> Result<LoopItem, PyObject> {
    Ok(LoopItem { object: object(id), items: Ok(items.iter().map(|id| object(*id)).collect()) })
}

#[test]
fn values_are_looked_up_from_the_last() {
    let mut context = context(&[("a", 1)]);
    assert_eq!(context.get("a"), Some(object(1)));
    assert_eq!(context.get("b"), None);
    context.append("a".to_string(), object(2));
    assert_eq!(context.get("a"), Some(object(2)));
    context.insert("a".to_string(), object(3));
    assert_eq!(context.get("a"), Some(object(3)));
    context.pop_variable("a");
    assert_eq!(context.get("a"), Some(object(1)));
    context.pop_variable("a");
    assert_eq!(context.get("a"), None);
    assert!(!context.contains("a"));
}

#[test]
fn later_values_win() {
    let context = context(&[("a", 1), ("a", 2)]);
    assert_eq!(context.get("a"), Some(object(2)));
}

#[test]
fn items_can_be_read_and_set() {
    let mut context = context(&[("a", 1)]);
    assert_eq!(context.get_item("a".to_string()), Ok(object(1)));
    assert_eq!(context.get_item("b".to_string()), Err("b".to_string()));
    context.set_item("b".to_string(), object(2));
    assert!(context.contains("b"));
}

#[test]
fn what_is_set_within_a_loop_goes_with_it() {
    let mut context = context(&[]);
    let tag = loop_with(&["x"], false);
    tag.begin(&mut context, 1);
    tag.bind(&mut context, &item(1, &[]), 0).unwrap();
    context.set_item("y".to_string(), object(2));
    assert_eq!(context.get("y"), Some(object(2)));
    tag.finish(&mut context);
    assert_eq!(context.get("x"), None);
    assert_eq!(context.get("y"), None);
}

#[test]
fn names_are_shown_in_order() {
    let mut context = context(&[("b", 1), ("a", 2), ("c", 3)]);
    context.pop_variable("c");
    assert_eq!(
        context.visible(),
        vec![("a".to_string(), object(2)), ("b".to_string(), object(1))]
    );
    context.insert("q\"\n".to_string(), object(30));
    let repr = |object: PyObject| format!("<{}>", object.id);
    assert_eq!(context.display(repr), "{\"a\": <2>, \"b\": <1>, \"q\\\"\\n\": <30>}");
    assert_eq!(Context::default().display(repr), "{}");
}

#[test]
fn copies_are_apart() {
    let mut first = context(&[("a", 1)]);
    let mut copy = first.clone_ref();
    copy.insert("a".to_string(), object(2));
    assert_eq!(first.get("a"), Some(object(1)));
    let taken = first.take();
    assert_eq!(taken.get("a"), Some(object(1)));
    assert_eq!(first.get("a"), None);
    assert!(!Context::default().autoescape());
}

#[test]
fn loops_leave_values_as_they_were() {
    let mut context = context(&[("x", 1), ("y", 2)]);
    let tag = loop_with(&["x", "z"], false);
    tag.begin(&mut context, 2);
    tag.bind(&mut context, &item(0, &[10, 11]), 0).unwrap();
    assert_eq!(context.get("x"), Some(object(10)));
    assert_eq!(context.get("z"), Some(object(11)));
    tag.turn_done(&mut context);
    tag.bind(&mut context, &item(0, &[20, 21]), 1).unwrap();
    assert_eq!(context.get("x"), Some(object(20)));
    tag.turn_done(&mut context);
    tag.finish(&mut context);
    assert_eq!(context.get("x"), Some(object(1)));
    assert_eq!(context.get("y"), Some(object(2)));
    assert_eq!(context.get("z"), None);
    assert!(context.get_for_loop(0).is_none());
}

#[test]
fn a_loop_without_turns_takes_from_the_loop_around_it() {
    let mut context = context(&[]);
    let outer = loop_with(&["x"], false);
    outer.begin(&mut context, 1);
    outer.bind(&mut context, &item(1, &[]), 0).unwrap();
    let inner = loop_with(&["y"], false);
    inner.begin(&mut context, 0);
    inner.finish(&mut context);
    assert_eq!(context.get("x"), None);
}

#[test]
fn loops_count() {
    let mut context = context(&[]);
    context.push_for_loop(3);
    context.push_for_loop(2);
    context.increment_for_loop();
    let inner = context.get_for_loop(0).unwrap();
    assert_eq!(inner.counter0(), 1);
    assert_eq!(inner.counter(), 2);
    assert_eq!(inner.rev_counter(), 1);
    assert_eq!(inner.rev_counter0(), 0);
    assert!(!inner.first());
    assert!(inner.last());
    let outer = context.get_for_loop(1).unwrap();
    assert_eq!(outer.counter(), 1);
    assert_eq!(outer.rev_counter(), 3);
    assert!(outer.first());
    assert!(!outer.last());
    assert!(context.get_for_loop(2).is_none());
    let inner = "{'parentloop': {}, 'counter0': 1, 'counter': 2, 'revcounter': 1, \
                 'revcounter0': 0, 'first': False, 'last': True}";
    let outer = format!(
        "{{'parentloop': {inner}, 'counter0': 0, 'counter': 1, 'revcounter': 3, \
         'revcounter0': 2, 'first': True, 'last': False}}"
    );
    assert_eq!(context.render_for_loop(0), outer);
    assert_eq!(context.render_for_loop(1), inner);
    assert_eq!(context.render_for_loop(2), "{}");
    context.pop_for_loop();
    assert_eq!(context.get_for_loop(0).unwrap().counter(), 1);
}

#[test]
fn loops_unpack_as_many_items_as_names() {
    let mut context = context(&[]);
    let tag = loop_with(&["x", "y"], false);
    tag.begin(&mut context, 1);
    let unpack = |actual_count: usize| {
        PyRenderError::RenderError(RenderError::TupleUnpackError {
            expected_count: 2,
            actual_count,
            expected_at: (7, 4),
            actual_at: (20, 2),
        })
    };
    assert_eq!(tag.bind(&mut context, &item(1, &[1, 2, 3]), 0), Err(unpack(3)));
    let failed = |error: IterationError| Ok(LoopItem { object: object(1), items: Err(error) });
    assert_eq!(
        tag.bind(&mut context, &failed(IterationError::NotIterable), 1),
        Err(unpack(1))
    );
    let annotated = |label: &str| PyRenderError::Annotated {
        error: object(9),
        at: (20, 2),
        label: label.to_string(),
    };
    assert_eq!(
        tag.bind(&mut context, &failed(IterationError::NotStarted(object(9))), 1),
        Err(annotated("while iterating this"))
    );
    assert_eq!(
        tag.bind(&mut context, &failed(IterationError::Interrupted(object(9))), 1),
        Err(annotated("while unpacking this"))
    );
    assert_eq!(
        tag.bind(&mut context, &Err(object(9)), 1),
        Err(annotated("while iterating this"))
    );
}

#[test]
fn loops_go_over_characters() {
    let backwards = loop_with(&["c"], true);
    assert_eq!(backwards.characters("ab\u{e9}").unwrap(), vec!['\u{e9}', 'b', 'a']);
    assert_eq!(loop_with(&["c"], false).characters("ab").unwrap(), vec!['a', 'b']);
    assert!(loop_with(&["c", "d"], false).characters("ab").is_err());
    assert_eq!(backwards.item_position(3, 0), 2);
    assert_eq!(loop_with(&["c"], false).item_position(3, 0), 0);
    let mut context = context(&[("c", 1)]);
    backwards.begin(&mut context, 1);
    backwards.bind_character(&mut context, object(5), 0);
    assert_eq!(context.get("c"), Some(object(5)));
    backwards.finish(&mut context);
    assert_eq!(context.get("c"), Some(object(1)));
}

#[test]
fn loops_are_planned_by_their_value() {
    let tag = loop_with(&["c"], false);
    assert!(matches!(tag.plan(None), ForPlan::Empty));
    assert!(matches!(tag.plan(Some(Content::Py(object(4)))), ForPlan::Python(PyObject { id: 4 })));
    let text = Content::String(ContentString::HtmlUnsafe("<".to_string()));
    match tag.plan(Some(text)) {
        ForPlan::Characters(text) => assert_eq!(text, "<"),
        _ => panic!("no characters"),
    }
}

#[test]
fn cycles_go_round() {
    let mut context = context(&[]);
    let cycle = |id: usize, n: usize| SimpleCycle {
        id: CycleId(id),
        values: (0..n).map(|i| TagElement::Variable(Variable { at: (i, 1) })).collect(),
    };
    let place = |element: &TagElement<Integer>| match element {
        TagElement::Variable(variable) => variable.at.0,
        _ => panic!("no variable"),
    };
    let three = cycle(1, 3);
    let turns: Vec<usize> = (0..4).map(|_| place(three.next_value(&mut context))).collect();
    assert_eq!(turns, vec![0, 1, 2, 0]);
    assert_eq!(place(cycle(2, 2).next_value(&mut context)), 0);
    assert_eq!(place(three.next_value(&mut context)), 1);
}

#[test]
fn included_templates_are_kept() {
    let mut context = context(&[]);
    let key = |name: &str| IncludeTemplateKey::String(name.to_string());
    let names = IncludeTemplateKey::Vec(vec!["a".to_string()]);
    let first = TemplateRef { id: 1 };
    assert_eq!(context.get_or_insert_include(&key("a"), |_| Err(object(1))), Err(object(1)));
    assert_eq!(context.get_or_insert_include(&key("a"), |_| Ok(first)), Ok(first));
    assert_eq!(
        context.get_or_insert_include(&key("a"), |_| Ok(TemplateRef { id: 2 })),
        Ok(first)
    );
    assert_eq!(
        context.get_or_insert_include(&names, |_| Ok(TemplateRef { id: 3 })),
        Ok(TemplateRef { id: 3 })
    );
}

#[test]
fn keywords_are_taken_back() {
    let mut context = context(&[("a", 1)]);
    let names = vec!["a".to_string(), "b".to_string(), "a".to_string()];
    append_keywords(&mut context, &names, &vec![object(2), object(3), object(4)]);
    assert_eq!(context.get("a"), Some(object(4)));
    assert_eq!(context.get("b"), Some(object(3)));
    pop_keywords(&mut context, &names);
    assert_eq!(context.get("a"), Some(object(1)));
    assert_eq!(context.get("b"), None);
}

#[test]
fn an_inner_context_sees_keywords_only() {
    let mut outer = context(&[("a", 1)]);
    outer.set_autoescape(false);
    let inner = inner_context(&outer, &vec![("b".to_string(), object(2))]);
    assert_eq!(inner.get("a"), None);
    assert_eq!(inner.get("b"), Some(object(2)));
    assert!(!inner.autoescape());
    assert_eq!(inner.request(), None);
}

#[test]
fn autoescape_is_switched_back() {
    let mut context = context(&[]);
    let before = enter_autoescape(&mut context, AutoescapeEnabled::Off);
    assert!(!context.autoescape());
    leave_autoescape(&mut context, before);
    assert!(context.autoescape());
}

#[test]
fn urls_can_be_stored() {
    let url = |asvar: Option<&str>| Url {
        at: (3, 9),
        view_name: var(),
        args: vec![],
        kwargs: vec![],
        asvar: asvar.map(|name| name.to_string()),
    };
    let mut context = context(&[]);
    match url(None).conclude(Ok(object(1)), &mut context) {
        Ok(Some(Content::Py(found))) => assert_eq!(found, object(1)),
        _ => panic!("no URL"),
    }
    assert!(matches!(url(Some("u")).conclude(Ok(object(1)), &mut context), Ok(None)));
    assert_eq!(context.get("u"), Some(object(1)));
    let missing = || Err(ReverseError { error: object(7), no_match: true });
    assert!(matches!(url(Some("v")).conclude(missing(), &mut context), Ok(None)));
    assert_eq!(context.get("v"), None);
    let error = PyRenderError::Annotated { error: object(7), at: (3, 9), label: "here".to_string() };
    match url(None).conclude(missing(), &mut context) {
        Err(e) => assert_eq!(e, error),
        _ => panic!("no error"),
    }
    let other = Err(ReverseError { error: object(7), no_match: false });
    match url(Some("v")).conclude(other, &mut context) {
        Err(e) => assert_eq!(e, error),
        _ => panic!("no error"),
    }
}

#[test]
fn formats_may_go_by_a_name() {
    let now = |format: &str| Now { format: format.to_string(), asvar: None };
    assert!(!now("Y").uses_named_format());
    assert!(now("").uses_named_format());
    assert!(now("DATE_FORMAT").uses_named_format());
    assert!(now("SHORT_DATETIME_FORMAT").uses_named_format());
    assert!(!now("date_format").uses_named_format());
}
