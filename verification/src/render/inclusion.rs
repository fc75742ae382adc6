//! Rendering other templates in place of a tag.
use vstd::prelude::*;
use crate::dict::views;
use crate::integer::{decimal_text, Integer};
use crate::parse::tree::{Include, IncludeTemplateName, TagElement};
use crate::render::condition::{resolve_element, resolves, Failures, Side};
use crate::render::content::{escaped, truth_text, Content, ContentString};
use crate::render::context::{
    Context, ContextView, IncludeTemplateKey, IncludeTemplateKeyView, TemplateRef,
};
use crate::render::errors::PyRenderError;
use crate::render::host::{
    argument_gives, argument_view, arguments_give, arguments_view, becomes_object, make_argument,
    make_object, shown, Called, Conversion, Fault, Host, Rendered, Shown,
};
use crate::render::leaves::{broken, called_shown, conclude_call};
use crate::render::tags::{
    append_keywords, choice_view, fresh_context, inner_context, invalid_name, is_located,
    keyword_texts, keywords_lie, pop_keywords, popped_in_turn, python_choice, template_content,
    template_location, PyTemplateName, TemplateChoice, TemplateChoiceView,
};
use crate::text::{span, At, TemplateString};
use crate::types::{Float, PyObject, Text};

verus! {

/// The template that is rendered in place of a tag.
#[derive(Clone, Copy, Debug, PartialEq, Eq)]
pub enum IncludeTemplate {
    Template(TemplateRef),
    /// A method that renders.
    Callable(PyObject),
}

/// What the name of a template may be as a value: a relative path is none.
pub open spec fn name_gives<H: Host>(host: &H, tag: Include, context: Context, side: Side) -> bool {
    match tag.template_name {
        IncludeTemplateName::Relative(_) => side == Ok::<Option<Content>, PyRenderError<String>>(
            None,
        ),
        IncludeTemplateName::Text(text) => resolves(
            host,
            TagElement::Text(text),
            Failures::Raise,
            context,
            side,
        ),
        IncludeTemplateName::Variable(element) => resolves(
            host,
            element,
            Failures::Raise,
            context,
            side,
        ),
    }
}

/// The name of a template as a value.
fn give_name<H: Host>(host: &H, tag: &Include, context: &Context) -> (r: Side)
    ensures
        name_gives(host, *tag, *context, r),
{
    match &tag.template_name {
        IncludeTemplateName::Relative(_) => Ok(None),
        IncludeTemplateName::Text(text) => {
            let element = TagElement::Text(Text { at: text.at });
            resolve_element(host, &element, Failures::Raise, context)
        },
        IncludeTemplateName::Variable(element) => {
            resolve_element(host, element, Failures::Raise, context)
        },
    }
}

/// The template that a value may name.
pub open spec fn chosen<H: Host>(
    host: &H,
    tag: Include,
    content: Content,
    choice: Result<TemplateChoiceView, Fault>,
) -> bool {
    let at = template_location(tag.template_name);
    match content {
        Content::String(s) => choice == Ok::<_, Fault>(
            TemplateChoiceView::Key(
                IncludeTemplateKeyView::String(
                    match s@ {
                        ContentString::HtmlUnsafe(s) => escaped(s),
                        other => other.raw(),
                    },
                ),
            ),
        ),
        Content::Py(object) => exists|name: PyTemplateName|
            {
                &&& #[trigger] call_ensures(
                    H::template_name,
                    (host, object, &tag.origin, at),
                    name,
                )
                &&& choice == python_choice(at, name)
            },
        Content::Int(n) => choice == Err::<TemplateChoiceView, _>(
            invalid_name(at, decimal_text(n@)),
        ),
        Content::Float(float) => exists|text: String|
            {
                &&& #[trigger] call_ensures(H::float_text, (host, float), text)
                &&& choice == Err::<TemplateChoiceView, _>(invalid_name(at, text@))
            },
        Content::Bool(b) => choice == Err::<TemplateChoiceView, _>(
            invalid_name(at, truth_text(b)),
        ),
    }
}

/// Chooses the template that a value names.
fn choose_template<H: Host>(host: &H, tag: &Include, content: Content) -> (r: Result<
    TemplateChoice,
    PyRenderError<String>,
>)
    requires
        is_located(tag.template_name),
    ensures
        chosen(host, *tag, content, choice_view(r)),
{
    let at = tag.template_at();
    let origin = &tag.origin;
    let py_name = |object: PyObject| -> (name: PyTemplateName)
        ensures
            call_ensures(H::template_name, (host, object, origin, at), name),
        { host.template_name(object, origin, at) };
    let float_text = |float: Float| -> (text: String)
        ensures
            call_ensures(H::float_text, (host, float), text),
        { host.float_text(float) };
    tag.get_template(content, py_name, float_text)
}

/// What looking for a template by a key may give, and what becomes of the context: it keeps
/// templates that were found.
pub open spec fn template_known<H: Host>(
    host: &H,
    engine: PyObject,
    key: IncludeTemplateKey,
    before: ContextView,
    after: ContextView,
    outcome: Result<TemplateRef, PyObject>,
) -> bool {
    if before.include_cache.contains_key(key@) {
        &&& outcome == Ok::<_, PyObject>(before.include_cache[key@])
        &&& after == before
    } else {
        &&& call_ensures(H::load_template, (host, engine, &key), outcome)
        &&& after == (match outcome {
            Ok(template) => ContextView {
                include_cache: before.include_cache.insert(key@, template),
                ..before
            },
            Err(_) => before,
        })
    }
}

/// The template that may be rendered in place of a tag, and what becomes of the context.
pub open spec fn template_found<H: Host>(
    host: &H,
    tag: Include,
    choice: TemplateChoice,
    before: ContextView,
    after: ContextView,
    outcome: Result<IncludeTemplate, Fault>,
) -> bool {
    match choice {
        TemplateChoice::Callable(render) => {
            &&& after == before
            &&& outcome == Ok::<_, Fault>(IncludeTemplate::Callable(render))
        },
        TemplateChoice::Key(key) => exists|known: Result<TemplateRef, PyObject>|
            {
                &&& #[trigger] template_known(host, tag.engine, key, before, after, known)
                &&& outcome == (match known {
                    Ok(template) => Ok(IncludeTemplate::Template(template)),
                    Err(error) => Err(
                        Fault::Annotated {
                            error,
                            at: template_location(tag.template_name),
                            label: "here"@,
                        },
                    ),
                })
            },
    }
}

/// The view of a template that may not be found.
pub open spec fn template_view(outcome: Result<IncludeTemplate, PyRenderError<String>>) -> Result<
    IncludeTemplate,
    Fault,
> {
    match outcome {
        Ok(template) => Ok(template),
        Err(e) => Err(e@),
    }
}

/// Finds the template that is rendered in place of a tag.
fn find_template<H: Host>(
    host: &H,
    tag: &Include,
    choice: TemplateChoice,
    context: &mut Context,
) -> (r: Result<IncludeTemplate, PyRenderError<String>>)
    requires
        is_located(tag.template_name),
    ensures
        template_found(host, *tag, choice, old(context)@, final(context)@, template_view(r)),
{
    match choice {
        TemplateChoice::Callable(render) => Ok(IncludeTemplate::Callable(render)),
        TemplateChoice::Key(key) => {
            let engine = tag.engine;
            let load = |key: &IncludeTemplateKey| -> (loaded: Result<TemplateRef, PyObject>)
                ensures
                    call_ensures(H::load_template, (host, engine, key), loaded),
                { host.load_template(engine, key) };
            let known = context.get_or_insert_include(&key, load);
            assert(template_known(host, engine, key, old(context)@, context@, known));
            match known {
                Ok(template) => Ok(IncludeTemplate::Template(template)),
                Err(error) => Err(
                    PyRenderError::Annotated {
                        error,
                        at: tag.template_at(),
                        label: "here".to_owned(),
                    },
                ),
            }
        },
    }
}

/// What rendering a template may give, and what becomes of the context.
pub open spec fn template_renders<H: Host>(
    host: &H,
    template: IncludeTemplate,
    at: At,
    before: Context,
    after: Context,
    outcome: Shown,
) -> bool {
    match template {
        IncludeTemplate::Template(template) => exists|given: Context, rendered: Rendered|
            {
                &&& given@ == before@
                &&& #[trigger] call_ensures(
                    H::render_template,
                    (host, template, given),
                    (after, rendered),
                )
                &&& outcome == shown(rendered)
            },
        IncludeTemplate::Callable(render) => exists|given: Context, called: Called|
            {
                &&& given@ == before@
                &&& #[trigger] call_ensures(H::call_render, (host, render, given), (after, called))
                &&& outcome == called_shown(called, at)
            },
    }
}

impl IncludeTemplate {
    /// Renders the template; `at` is where its name stands.
    pub fn render<H: Host>(&self, host: &H, context: &mut Context, at: At) -> (r: Rendered)
        ensures
            template_renders(host, *self, at, *old(context), *final(context), shown(r)),
    {
        let given = context.take();
        let ghost handed = given;
        match self {
            IncludeTemplate::Template(template) => {
                let (back, rendered) = host.render_template(*template, given);
                assert(call_ensures(
                    H::render_template,
                    (host, *template, handed),
                    (back, rendered),
                ));
                *context = back;
                rendered
            },
            IncludeTemplate::Callable(render) => {
                let (back, called) = host.call_render(*render, given);
                assert(call_ensures(H::call_render, (host, *render, handed), (back, called)));
                *context = back;
                conclude_call(called, at)
            },
        }
    }
}

/// The values of elements with keywords.
pub open spec fn located_elements(kwargs: Seq<(At, TagElement<Integer>)>) -> Seq<
    TagElement<Integer>,
> {
    kwargs.map_values(|kwarg: (At, TagElement<Integer>)| kwarg.1)
}

/// How the keywords of a tag are made into arguments.
pub open spec fn keyword_conversion() -> Conversion {
    Conversion::Text(Failures::IgnoreVariableDoesNotExist)
}

/// Makes the values for the keywords of a tag.
fn make_values<H: Host>(
    host: &H,
    context: &Context,
    kwargs: &Vec<(At, TagElement<Integer>)>,
) -> (r: Result<Vec<PyObject>, PyRenderError<String>>)
    ensures
        arguments_give(
            host,
            *context,
            located_elements(kwargs@),
            keyword_conversion(),
            Seq::empty(),
            arguments_view(r),
        ),
        r matches Ok(values) ==> values@.len() == kwargs@.len(),
{
    let conversion = Conversion::Text(Failures::IgnoreVariableDoesNotExist);
    let mut values: Vec<PyObject> = Vec::new();
    let ghost all = located_elements(kwargs@);
    let mut i: usize = 0;
    assert(all.skip(0) =~= all);
    while i < kwargs.len()
        invariant
            0 <= i <= kwargs@.len(),
            all == located_elements(kwargs@),
            conversion == keyword_conversion(),
            values@.len() == i,
            forall|outcome: Result<Seq<PyObject>, Fault>| #[trigger]
                arguments_give(
                    host,
                    *context,
                    all.skip(i as int),
                    conversion,
                    values@,
                    outcome,
                ) ==> arguments_give(host, *context, all, conversion, Seq::empty(), outcome),
        decreases kwargs@.len() - i,
    {
        let ghost rest = all.skip(i as int);
        let ghost before = values@;
        assert(rest[0] == kwargs@[i as int].1);
        assert(rest.drop_first() =~= all.skip(i + 1));
        let argument = make_argument(host, context, &kwargs[i].1, conversion);
        assert(argument_gives(host, *context, rest[0], conversion, argument_view(argument)));
        match argument {
            Err(e) => {
                assert(arguments_give(host, *context, rest, conversion, before, Err(e@)));
                return Err(e);
            },
            Ok(object) => {
                values.push(object);
                assert forall|outcome: Result<Seq<PyObject>, Fault>| #[trigger]
                    arguments_give(
                        host,
                        *context,
                        all.skip(i + 1),
                        conversion,
                        values@,
                        outcome,
                    ) implies arguments_give(
                    host,
                    *context,
                    all,
                    conversion,
                    Seq::empty(),
                    outcome,
                ) by {
                    assert(arguments_give(host, *context, rest, conversion, before, outcome));
                }
            },
        }
        i += 1;
    }
    assert(all.skip(i as int) =~= Seq::empty());
    assert(arguments_give(host, *context, all.skip(i as int), conversion, values@, Ok(values@)));
    Ok(values)
}

/// Every name has had a value.
pub open spec fn all_known(names: Seq<Seq<char>>, context: ContextView) -> bool {
    forall|name: Seq<char>| #[trigger] names.contains(name) ==> context.context.contains_key(name)
}

/// Whether every name has had a value.
fn knows_all(names: &Vec<String>, context: &Context) -> (r: bool)
    ensures
        r == all_known(views(names@), context@),
{
    let mut i: usize = 0;
    while i < names.len()
        invariant
            0 <= i <= names@.len(),
            forall|j: int|
                0 <= j < i ==> context@.context.contains_key((#[trigger] names@[j])@),
        decreases names@.len() - i,
    {
        if !context.has_had(names[i].as_str()) {
            assert(views(names@).contains(views(names@)[i as int]));
            return false;
        }
        i += 1;
    }
    assert forall|name: Seq<char>| #[trigger] views(names@).contains(name) implies context@.context
        .contains_key(name) by {
        let j = choose|j: int| 0 <= j < names@.len() && views(names@)[j] == name;
        assert(names@[j]@ == name);
    }
    true
}

/// What becomes of a template that sees the context with the keywords of its tag, and of the
/// context: the keywords are taken back.
pub open spec fn renders_with_keywords<H: Host>(
    host: &H,
    source: Seq<char>,
    tag: Include,
    template: IncludeTemplate,
    before: Context,
    after: Context,
    outcome: Shown,
) -> bool {
    let names = keyword_texts(source, tag.kwargs@);
    if !keywords_lie(source, tag.kwargs@) {
        after@ == before@ && outcome == broken()
    } else {
        exists|values: Result<Seq<PyObject>, Fault>|
            {
                &&& #[trigger] arguments_give(
                    host,
                    before,
                    located_elements(tag.kwargs@),
                    keyword_conversion(),
                    Seq::empty(),
                    values,
                )
                &&& match values {
                    Err(e) => after@ == before@ && outcome == Err::<Seq<char>, _>(e),
                    Ok(values) => exists|opened: Context, inner: Context, text: Shown|
                        {
                            &&& opened@ == before@.inserted_all(names, values, false)
                            &&& #[trigger] template_renders(
                                host,
                                template,
                                template_location(tag.template_name),
                                opened,
                                inner,
                                text,
                            )
                            &&& if all_known(names, inner@) {
                                after@ == popped_in_turn(inner@, names) && outcome == text
                            } else {
                                after@ == inner@ && outcome == broken()
                            }
                        },
                }
            }
    }
}

/// Renders a template that sees the context with the keywords of its tag.
fn render_with_keywords<H: Host>(
    host: &H,
    source: TemplateString<'_>,
    tag: &Include,
    template: &IncludeTemplate,
    context: &mut Context,
) -> (r: Rendered)
    requires
        is_located(tag.template_name),
    ensures
        renders_with_keywords(
            host,
            source@,
            *tag,
            *template,
            *old(context),
            *final(context),
            shown(r),
        ),
{
    let names = match tag.keywords(source) {
        Some(names) => names,
        None => {
            return Err(PyRenderError::Broken);
        },
    };
    let values = make_values(host, context, &tag.kwargs);
    assert(arguments_give(
        host,
        *old(context),
        located_elements(tag.kwargs@),
        keyword_conversion(),
        Seq::empty(),
        arguments_view(values),
    ));
    let values = match values {
        Ok(values) => values,
        Err(e) => {
            return Err(e);
        },
    };
    assert(views(names@).len() == names@.len());
    append_keywords(context, &names, &values);
    let ghost opened = *context;
    let at = tag.template_at();
    let rendered = template.render(host, context, at);
    let ghost inner = *context;
    assert(template_renders(
        host,
        *template,
        template_location(tag.template_name),
        opened,
        inner,
        shown(rendered),
    ));
    if knows_all(&names, context) {
        pop_keywords(context, &names);
        rendered
    } else {
        Err(PyRenderError::Broken)
    }
}

/// What a value of the template may be as a Python object, if it has a value.
pub open spec fn optional_gives<H: Host>(
    host: &H,
    context: Context,
    element: TagElement<Integer>,
    outcome: Result<Option<PyObject>, Fault>,
) -> bool {
    exists|side: Side|
        {
            &&& #[trigger] resolves(
                host,
                element,
                Failures::IgnoreVariableDoesNotExist,
                context,
                side,
            )
            &&& match side {
                Err(e) => outcome == Err::<Option<PyObject>, _>(e@),
                Ok(None) => outcome == Ok::<Option<PyObject>, Fault>(None),
                Ok(Some(content)) => exists|object: PyObject|
                    {
                        &&& #[trigger] becomes_object(host, content, object)
                        &&& outcome == Ok::<_, Fault>(Some(object))
                    },
            }
        }
}

/// A value of the template as a Python object, if it has a value.
fn give_optional<H: Host>(host: &H, context: &Context, element: &TagElement<Integer>) -> (r: Result<
    Option<PyObject>,
    PyRenderError<String>,
>)
    ensures
        optional_gives(
            host,
            *context,
            *element,
            match r {
                Ok(object) => Ok(object),
                Err(e) => Err(e@),
            },
        ),
{
    let side = resolve_element(host, element, Failures::IgnoreVariableDoesNotExist, context);
    assert(resolves(
        host,
        *element,
        Failures::IgnoreVariableDoesNotExist,
        *context,
        side,
    ));
    match side {
        Err(e) => Err(e),
        Ok(None) => Ok(None),
        Ok(Some(content)) => {
            let object = make_object(host, &content);
            assert(becomes_object(host, content, object));
            Ok(Some(object))
        },
    }
}

/// The view of values with keywords.
pub open spec fn pair_views(pairs: Seq<(String, PyObject)>) -> Seq<(Seq<char>, PyObject)> {
    pairs.map_values(|pair: (String, PyObject)| (pair.0@, pair.1))
}

/// The values for the keywords of a tag that have a value, after some that were before: the first
/// one that is an error ends it.
pub open spec fn values_given<H: Host>(
    host: &H,
    context: Context,
    source: Seq<char>,
    kwargs: Seq<(At, TagElement<Integer>)>,
    before: Seq<(Seq<char>, PyObject)>,
    outcome: Result<Seq<(Seq<char>, PyObject)>, Fault>,
) -> bool
    decreases kwargs.len(),
{
    if kwargs.len() == 0 {
        outcome == Ok::<_, Fault>(before)
    } else {
        exists|first: Result<Option<PyObject>, Fault>|
            {
                &&& #[trigger] optional_gives(host, context, kwargs[0].1, first)
                &&& match first {
                    Err(e) => outcome == Err::<Seq<(Seq<char>, PyObject)>, _>(e),
                    Ok(object) => values_given(
                        host,
                        context,
                        source,
                        kwargs.drop_first(),
                        with_value(before, span(source, kwargs[0].0), object),
                        outcome,
                    ),
                }
            }
    }
}

/// Values with keywords, and one more if there is one.
pub open spec fn with_value(
    before: Seq<(Seq<char>, PyObject)>,
    name: Seq<char>,
    object: Option<PyObject>,
) -> Seq<(Seq<char>, PyObject)> {
    match object {
        Some(object) => before.push((name, object)),
        None => before,
    }
}

/// The view of the outcome of making values with keywords.
pub open spec fn pairs_view(outcome: Result<Vec<(String, PyObject)>, PyRenderError<String>>) ->
    Result<Seq<(Seq<char>, PyObject)>, Fault> {
    match outcome {
        Ok(pairs) => Ok(pair_views(pairs@)),
        Err(e) => Err(e@),
    }
}

/// Makes the values for the keywords of a tag that have a value.
fn give_values<H: Host>(
    host: &H,
    context: &Context,
    source: TemplateString<'_>,
    kwargs: &Vec<(At, TagElement<Integer>)>,
    names: &Vec<String>,
) -> (r: Result<Vec<(String, PyObject)>, PyRenderError<String>>)
    requires
        views(names@) == keyword_texts(source@, kwargs@),
    ensures
        values_given(host, *context, source@, kwargs@, Seq::empty(), pairs_view(r)),
{
    let mut pairs: Vec<(String, PyObject)> = Vec::new();
    let ghost all = kwargs@;
    let mut i: usize = 0;
    assert(all.skip(0) =~= all);
    assert(pair_views(pairs@) =~= Seq::empty());
    assert(views(names@).len() == names@.len());
    while i < kwargs.len()
        invariant
            0 <= i <= kwargs@.len(),
            all == kwargs@,
            names@.len() == kwargs@.len(),
            views(names@) == keyword_texts(source@, kwargs@),
            forall|outcome: Result<Seq<(Seq<char>, PyObject)>, Fault>| #[trigger]
                values_given(
                    host,
                    *context,
                    source@,
                    all.skip(i as int),
                    pair_views(pairs@),
                    outcome,
                ) ==> values_given(host, *context, source@, all, Seq::empty(), outcome),
        decreases kwargs@.len() - i,
    {
        let ghost rest = all.skip(i as int);
        let ghost before = pair_views(pairs@);
        let ghost old_pairs = pairs@;
        assert(rest[0] == all[i as int]);
        assert(rest.drop_first() =~= all.skip(i + 1));
        assert(views(names@)[i as int] == keyword_texts(source@, kwargs@)[i as int]);
        let given = give_optional(host, context, &kwargs[i].1);
        match given {
            Err(e) => {
                assert(optional_gives(host, *context, rest[0].1, Err(e@)));
                assert(values_given(host, *context, source@, rest, before, Err(e@)));
                return Err(e);
            },
            Ok(object) => {
                assert(optional_gives(host, *context, rest[0].1, Ok(object)));
                if let Some(object) = object {
                    pairs.push((names[i].clone(), object));
                }
                assert(pair_views(pairs@) =~= with_value(
                    before,
                    span(source@, rest[0].0),
                    object,
                ));
                assert forall|outcome: Result<Seq<(Seq<char>, PyObject)>, Fault>| #[trigger]
                    values_given(
                        host,
                        *context,
                        source@,
                        all.skip(i + 1),
                        pair_views(pairs@),
                        outcome,
                    ) implies values_given(
                    host,
                    *context,
                    source@,
                    all,
                    Seq::empty(),
                    outcome,
                ) by {
                    assert(values_given(host, *context, source@, rest, before, outcome));
                }
            },
        }
        i += 1;
    }
    assert(all.skip(i as int) =~= Seq::empty());
    assert(values_given(
        host,
        *context,
        source@,
        all.skip(i as int),
        pair_views(pairs@),
        Ok(pair_views(pairs@)),
    ));
    Ok(pairs)
}

/// A context sees nothing but given values.
pub open spec fn is_fresh(
    fresh: Context,
    context: ContextView,
    pairs: Vec<(String, PyObject)>,
) -> bool {
    fresh@ == fresh_context(context, pairs@)
}

/// What becomes of a template that sees nothing but the keywords of its tag; the context stays as
/// it is.
pub open spec fn renders_alone<H: Host>(
    host: &H,
    source: Seq<char>,
    tag: Include,
    template: IncludeTemplate,
    context: Context,
    outcome: Shown,
) -> bool {
    if !keywords_lie(source, tag.kwargs@) {
        outcome == broken()
    } else {
        exists|given: Result<Seq<(Seq<char>, PyObject)>, Fault>|
            {
                &&& #[trigger] values_given(
                    host,
                    context,
                    source,
                    tag.kwargs@,
                    Seq::empty(),
                    given,
                )
                &&& match given {
                    Err(e) => outcome == Err::<Seq<char>, _>(e),
                    Ok(given) => exists|
                        pairs: Vec<(String, PyObject)>,
                        fresh: Context,
                        last: Context,
                    |
                        {
                            &&& pair_views(pairs@) == given
                            &&& #[trigger] is_fresh(fresh, context@, pairs)
                            &&& #[trigger] template_renders(
                                host,
                                template,
                                template_location(tag.template_name),
                                fresh,
                                last,
                                outcome,
                            )
                        },
                }
            }
    }
}

/// Renders a template that sees nothing but the keywords of its tag.
fn render_alone<H: Host>(
    host: &H,
    source: TemplateString<'_>,
    tag: &Include,
    template: &IncludeTemplate,
    context: &Context,
) -> (r: Rendered)
    requires
        is_located(tag.template_name),
    ensures
        renders_alone(host, source@, *tag, *template, *context, shown(r)),
{
    let names = match tag.keywords(source) {
        Some(names) => names,
        None => {
            return Err(PyRenderError::Broken);
        },
    };
    let pairs = give_values(host, context, source, &tag.kwargs, &names);
    assert(values_given(
        host,
        *context,
        source@,
        tag.kwargs@,
        Seq::empty(),
        pairs_view(pairs),
    ));
    let pairs = match pairs {
        Ok(pairs) => pairs,
        Err(e) => {
            return Err(e);
        },
    };
    let mut inner = inner_context(context, &pairs);
    let ghost fresh = inner;
    assert(is_fresh(fresh, context@, pairs));
    let at = tag.template_at();
    let rendered = template.render(host, &mut inner, at);
    assert(template_renders(
        host,
        *template,
        template_location(tag.template_name),
        fresh,
        inner,
        shown(rendered),
    ));
    rendered
}

/// What becomes of a tag that another template is rendered in place of, and of the context.
pub open spec fn include_renders<H: Host>(
    host: &H,
    source: Seq<char>,
    tag: Include,
    before: Context,
    after: Context,
    outcome: Shown,
) -> bool {
    if !is_located(tag.template_name) {
        after@ == before@ && outcome == broken()
    } else {
        exists|side: Side|
            {
                &&& #[trigger] name_gives(host, tag, before, side)
                &&& if tag.template_name is Text && side is Err {
                    after@ == before@ && outcome == broken()
                } else {
                    named_renders(host, source, tag, side, before, after, outcome)
                }
            }
    }
}

/// What becomes of a tag once the value of the name of its template is known.
pub open spec fn named_renders<H: Host>(
    host: &H,
    source: Seq<char>,
    tag: Include,
    side: Side,
    before: Context,
    after: Context,
    outcome: Shown,
) -> bool {
    exists|content: Result<Content, PyRenderError<String>>|
        {
            &&& #[trigger] template_content(tag, side, content)
            &&& match content {
                Err(e) => after@ == before@ && outcome == Err::<Seq<char>, _>(e@),
                Ok(content) => exists|choice: Result<TemplateChoice, PyRenderError<String>>|
                    {
                        &&& #[trigger] chosen(host, tag, content, choice_view(choice))
                        &&& match choice {
                            Err(e) => after@ == before@ && outcome == Err::<Seq<char>, _>(e@),
                            Ok(choice) => chosen_renders(
                                host,
                                source,
                                tag,
                                choice,
                                before,
                                after,
                                outcome,
                            ),
                        }
                    },
            }
        }
}

/// What becomes of a tag once its template is chosen.
pub open spec fn chosen_renders<H: Host>(
    host: &H,
    source: Seq<char>,
    tag: Include,
    choice: TemplateChoice,
    before: Context,
    after: Context,
    outcome: Shown,
) -> bool {
    exists|middle: Context, found: Result<IncludeTemplate, Fault>|
        {
            &&& #[trigger] template_found(host, tag, choice, before@, middle@, found)
            &&& match found {
                Err(e) => after@ == middle@ && outcome == Err::<Seq<char>, _>(e),
                Ok(template) => if tag.only {
                    &&& after@ == middle@
                    &&& renders_alone(host, source, tag, template, middle, outcome)
                } else {
                    renders_with_keywords(host, source, tag, template, middle, after, outcome)
                },
            }
        }
}

impl Include {
    /// Renders another template in place of the tag.
    pub fn render<H: Host>(
        &self,
        host: &H,
        source: TemplateString<'_>,
        context: &mut Context,
    ) -> (r: Rendered)
        ensures
            include_renders(host, source@, *self, *old(context), *final(context), shown(r)),
    {
        if !self.has_location() {
            return Err(PyRenderError::Broken);
        }
        let side = give_name(host, self, context);
        assert(name_gives(host, *self, *old(context), side));
        if let IncludeTemplateName::Text(_) = &self.template_name {
            if side.is_err() {
                return Err(PyRenderError::Broken);
            }
        }
        let ghost given = side;
        let content = self.resolve_template_name(side);
        assert(template_content(*self, given, content));
        let content = match content {
            Ok(content) => content,
            Err(e) => {
                assert(named_renders(
                    host,
                    source@,
                    *self,
                    given,
                    *old(context),
                    *context,
                    Err(e@),
                ));
                return Err(e);
            },
        };
        let ghost named = content;
        let choice = choose_template(host, self, content);
        assert(chosen(host, *self, named, choice_view(choice)));
        let choice = match choice {
            Ok(choice) => choice,
            Err(e) => {
                assert(named_renders(
                    host,
                    source@,
                    *self,
                    given,
                    *old(context),
                    *context,
                    Err(e@),
                ));
                return Err(e);
            },
        };
        let ghost picked = choice;
        let r = self.render_choice(host, source, choice, context);
        assert(chosen_renders(
            host,
            source@,
            *self,
            picked,
            *old(context),
            *context,
            shown(r),
        ));
        assert(named_renders(
            host,
            source@,
            *self,
            given,
            *old(context),
            *context,
            shown(r),
        ));
        r
    }

    /// Renders the template that was chosen.
    fn render_choice<H: Host>(
        &self,
        host: &H,
        source: TemplateString<'_>,
        choice: TemplateChoice,
        context: &mut Context,
    ) -> (r: Rendered)
        requires
            is_located(self.template_name),
        ensures
            chosen_renders(
                host,
                source@,
                *self,
                choice,
                *old(context),
                *final(context),
                shown(r),
            ),
    {
        let found = find_template(host, self, choice, context);
        let ghost middle = *context;
        assert(template_found(host, *self, choice, old(context)@, middle@, template_view(found)));
        let template = match found {
            Ok(template) => template,
            Err(e) => {
                return Err(e);
            },
        };
        if self.only {
            render_alone(host, source, self, &template, context)
        } else {
            render_with_keywords(host, source, self, &template, context)
        }
    }
}

} // verus!
