//! What tags write, and what they store.
use vstd::prelude::*;
use crate::dict::views;
use crate::integer::{decimal, decimal_text, law_text_reads_back, Integer};
use crate::parse::tree::{Cycle, FirstOf, Lorem, Now, SimpleTag, TagElement, Url};
use crate::render::condition::{first_true_value, resolves, Failures, Side};
use crate::render::content::{is_markup, Content, ContentString};
use crate::render::context::{next_index, Context, ContextView};
use crate::render::errors::PyRenderError;
use crate::render::host::{
    are_pairs, argument_gives, arguments_give, keyword_elements, keyword_names, keywords_give,
    nothing, text_object, written, Called, Conversion, Fault, Host, Rendered, Shown,
};
use crate::render::inclusion::{template_renders, IncludeTemplate};
use crate::render::leaves::{
    after_turn, app_given, call_concluded, called_shown, counts, csrf_renders, cycle_renders,
    element_in_turn, firstof_renders, is_or_empty, lorem_renders, now_renders, plan_renders,
    simple_of, simple_tag_renders, tag_called, tag_concluded, target_stored, url_found,
    url_looked_up, url_renders, url_renders_by, value_stored, written_or_nothing,
};
use crate::render::outcomes::{law_formats_are_named, named_formats};
use crate::render::tags::{
    csrf_text, lorem_plan, paragraphs_text, url_concluded, CsrfValue, LoremPlan, ReverseError,
};
use crate::render::values::{law_truth_values_are_written, law_unsafe_text_is_escaped};
use crate::text::{is_span, span, At};
use crate::types::PyObject;

verus! {

/// What is written of a number reads as this number, what is written of a truth value tells it, and
/// what is written of text that may not be safe holds no markup where text is escaped.
pub proof fn law_values_are_written<H: Host>(
    host: &H,
    content: Content,
    autoescape: bool,
    outcome: Shown,
)
    requires
        written(host, content, autoescape, outcome),
    ensures
        content matches Content::Int(n) ==> (outcome matches Ok(text) && decimal(text) == Some(n@)),
        content matches Content::Bool(b) ==> (outcome matches Ok(text) && (b <==> text == "True"@)
            && (!b <==> text == "False"@)),
        content matches Content::String(ContentString::HtmlUnsafe(s)) ==> (outcome matches Ok(text)
            && if autoescape {
            forall|i: int| 0 <= i < text.len() ==> !is_markup(#[trigger] text[i])
        } else {
            text == s@
        }),
        content matches Content::String(ContentString::HtmlSafe(s)) ==> outcome == Ok::<_, Fault>(
            s@,
        ),
        content matches Content::String(ContentString::String(s)) ==> outcome == Ok::<_, Fault>(
            s@,
        ),
{
    match content {
        Content::Int(n) => {
            law_text_reads_back(n@);
        },
        Content::Bool(b) => {
            law_truth_values_are_written(b);
        },
        Content::String(s) => {
            law_unsafe_text_is_escaped(s@, autoescape);
        },
        _ => {},
    }
}

/// A value is stored under a name: it is read under this name, and no other name is touched.
pub open spec fn is_stored<H: Host>(
    host: &H,
    content: Option<Content>,
    name: Seq<char>,
    before: ContextView,
    after: ContextView,
) -> bool {
    &&& exists|object: PyObject| #[trigger]
        text_object(host, content, Ok(object)) && after.lookup(name) == Some(object)
    &&& forall|other: Seq<char>| other != name ==> #[trigger] after.lookup(other) == before.lookup(
        other,
    )
    &&& after.autoescape == before.autoescape
}

proof fn lemma_is_stored<H: Host>(
    host: &H,
    content: Option<Content>,
    name: String,
    before: ContextView,
    after: ContextView,
)
    requires
        value_stored(host, content, name, before, after),
    ensures
        is_stored(host, content, name@, before, after),
{
    let object = choose|object: PyObject|
        {
            &&& #[trigger] text_object(host, content, Ok(object))
            &&& after == before.inserted(name@, object, true)
        };
    assert(after.lookup(name@) == Some(object));
}

/// A cycle takes the value whose turn it is. One that has a name stores this value under it, and
/// one that is not silent writes it.
pub proof fn law_cycles_write_and_store<H: Host>(
    host: &H,
    cycle: Cycle,
    before: Context,
    after: Context,
    out: Seq<char>,
)
    requires
        cycle_renders(host, cycle, before, after, Ok(out)),
    ensures
        ({
            let simple = simple_of(cycle);
            let index = next_index(
                before@.cycle_indices,
                simple.id,
                simple.values@.len() as usize,
            );
            let name = match cycle {
                Cycle::Simple(_) => None,
                Cycle::Named(named) => Some(named.asvar@),
                Cycle::SilentNamed(silent) => Some(silent.cycle.asvar@),
            };
            &&& simple.values@.len() > 0
            &&& after@.cycle_indices.contains_key(simple.id.0)
            &&& after@.cycle_indices[simple.id.0] == index
            &&& exists|turned: Context, content: Option<Content>|
                {
                    &&& #[trigger] resolves(
                        host,
                        simple.values@[index as int],
                        Failures::Raise,
                        turned,
                        Ok(content),
                    )
                    &&& turned@.context == before@.context
                    &&& match name {
                        Some(name) => is_stored(host, content, name, turned@, after@),
                        None => after@ == turned@,
                    }
                    &&& if cycle is SilentNamed {
                        out.len() == 0
                    } else {
                        written_or_nothing(host, content, before@.autoescape, Ok(out))
                    }
                }
        }),
{
    reveal_strlit("");
    let simple = simple_of(cycle);
    let outcome: Shown = Ok(out);
    let (turned, side) = choose|turned: Context, side: Side|
        {
            &&& turned@ == after_turn(simple, before@)
            &&& #[trigger] resolves(
                host,
                element_in_turn(simple, before@),
                Failures::Raise,
                turned,
                side,
            )
            &&& match side {
                Err(e) => after@ == turned@ && outcome == Err::<Seq<char>, _>(e@),
                Ok(content) => match cycle {
                    Cycle::Simple(_) => {
                        &&& after@ == turned@
                        &&& written_or_nothing(host, content, after@.autoescape, outcome)
                    },
                    Cycle::Named(named) => {
                        &&& value_stored(host, content, named.asvar, turned@, after@)
                        &&& written_or_nothing(host, content, after@.autoescape, outcome)
                    },
                    Cycle::SilentNamed(silent) => {
                        &&& value_stored(host, content, silent.cycle.asvar, turned@, after@)
                        &&& outcome == nothing()
                    },
                },
            }
        };
    assert(side is Ok);
    let content = side->Ok_0;
    match cycle {
        Cycle::Simple(_) => {},
        Cycle::Named(named) => {
            lemma_is_stored(host, content, named.asvar, turned@, after@);
        },
        Cycle::SilentNamed(silent) => {
            lemma_is_stored(host, content, silent.cycle.asvar, turned@, after@);
        },
    }
    assert(resolves(
        host,
        element_in_turn(simple, before@),
        Failures::Raise,
        turned,
        Ok(content),
    ));
}

/// The first value that is true is stored under the variable that is named, and nothing is written;
/// without a variable it is written, and nothing is stored.
pub proof fn law_first_of_writes_or_stores<H: Host>(
    host: &H,
    tag: FirstOf,
    before: Context,
    after: Context,
    out: Seq<char>,
)
    requires
        firstof_renders(host, tag, before, after, Ok(out)),
    ensures
        exists|content: Option<Content>|
            {
                &&& #[trigger] first_true_value(host, before, tag.vars@, Ok(content))
                &&& match tag.asvar {
                    Some(name) => out.len() == 0 && is_stored(
                        host,
                        content,
                        name@,
                        before@,
                        after@,
                    ),
                    None => after@ == before@ && written_or_nothing(
                        host,
                        content,
                        before@.autoescape,
                        Ok(out),
                    ),
                }
            },
{
    reveal_strlit("");
    let outcome: Shown = Ok(out);
    let side = choose|side: Side|
        {
            &&& #[trigger] first_true_value(host, before, tag.vars@, side)
            &&& match side {
                Err(e) => after@ == before@ && outcome == Err::<Seq<char>, _>(e@),
                Ok(content) => match tag.asvar {
                    Some(name) => {
                        &&& value_stored(host, content, name, before@, after@)
                        &&& outcome == nothing()
                    },
                    None => {
                        &&& after@ == before@
                        &&& written_or_nothing(host, content, before@.autoescape, outcome)
                    },
                },
            }
        };
    assert(side is Ok);
    if let Some(name) = tag.asvar {
        lemma_is_stored(host, side->Ok_0, name, before@, after@);
    }
}

/// The date that Python gives is stored under the variable that is named, and nothing is written;
/// without a variable its text is written.
pub proof fn law_dates_are_written_or_stored<H: Host>(
    host: &H,
    template: Seq<char>,
    now: Now<String>,
    before: ContextView,
    after: ContextView,
    out: Seq<char>,
    date: PyObject,
)
    requires
        now_renders(host, template, now, before, after, Ok(out)),
        forall|named: bool, d: Result<PyObject, PyObject>| #[trigger]
            call_ensures(H::now, (host, &now.format, named), d) ==> d == Ok::<_, PyObject>(date),
    ensures
        match now.asvar {
            Some(at) => {
                &&& is_span(template, at)
                &&& out.len() == 0
                &&& after.lookup(span(template, at)) == Some(date)
            },
            None => {
                &&& after == before
                &&& exists|text: String|
                    #[trigger] call_ensures(H::string_text, (host, date), Ok(text)) && text@ == out
            },
        },
{
    reveal_strlit("");
    if now.asvar is None {
        let text = choose|text: Result<String, PyObject>|
            {
                &&& #[trigger] call_ensures(H::string_text, (host, date), text)
                &&& Ok::<_, Fault>(out) == (match text {
                    Ok(text) => Ok(text@),
                    Err(e) => Err(Fault::PyErr(e)),
                })
            };
        assert(call_ensures(H::string_text, (host, date), Ok(text->Ok_0)));
    }
}

/// A token that the context holds is written as its text says; without one nothing is written.
pub proof fn law_forgery_tokens_are_written<H: Host>(
    host: &H,
    context: ContextView,
    out: Seq<char>,
)
    requires
        csrf_renders(host, context, Ok(out)),
    ensures
        match context.lookup("csrf_token"@) {
            Some(token) => exists|value: CsrfValue|
                #[trigger] call_ensures(H::csrf_value, (host, token), value) && csrf_text(value)
                    == Ok::<_, PyObject>(out),
            None => out.len() == 0,
        },
{
    reveal_strlit("");
}

/// The arguments of a call are made of its elements, one for one and in order, after those that
/// were there before.
pub proof fn law_arguments_come_in_order<H: Host>(
    host: &H,
    context: Context,
    elements: Seq<TagElement<Integer>>,
    conversion: Conversion,
    before: Seq<PyObject>,
    all: Seq<PyObject>,
)
    requires
        arguments_give(host, context, elements, conversion, before, Ok(all)),
    ensures
        all.len() == before.len() + elements.len(),
        forall|i: int| 0 <= i < before.len() ==> #[trigger] all[i] == before[i],
        forall|i: int|
            0 <= i < elements.len() ==> argument_gives(
                host,
                context,
                #[trigger] elements[i],
                conversion,
                Ok(all[before.len() + i]),
            ),
    decreases elements.len(),
{
    if elements.len() > 0 {
        let outcome: Result<Seq<PyObject>, Fault> = Ok(all);
        let first = choose|first: Result<PyObject, Fault>|
            {
                &&& #[trigger] argument_gives(host, context, elements[0], conversion, first)
                &&& match first {
                    Err(e) => outcome == Err::<Seq<PyObject>, _>(e),
                    Ok(object) => arguments_give(
                        host,
                        context,
                        elements.drop_first(),
                        conversion,
                        before.push(object),
                        outcome,
                    ),
                }
            };
        assert(first is Ok);
        let next = before.push(first->Ok_0);
        let rest = elements.drop_first();
        law_arguments_come_in_order(host, context, rest, conversion, next, all);
        assert forall|i: int| 0 <= i < before.len() implies #[trigger] all[i] == before[i] by {
            assert(all[i] == next[i]);
        }
        assert forall|i: int| 0 <= i < elements.len() implies argument_gives(
            host,
            context,
            #[trigger] elements[i],
            conversion,
            Ok(all[before.len() + i]),
        ) by {
            if i == 0 {
                assert(all[before.len() as int] == next[before.len() as int]);
            } else {
                assert(elements[i] == rest[i - 1]);
                assert(next.len() + (i - 1) == before.len() + i);
            }
        }
    }
}

/// Arguments with keywords keep their keywords: each one goes with the value of its own element.
pub proof fn law_keywords_keep_their_values<H: Host>(
    host: &H,
    context: Context,
    kwargs: Seq<(String, TagElement<Integer>)>,
    pairs: Seq<(String, PyObject)>,
)
    requires
        keywords_give(host, context, kwargs, Ok(pairs)),
    ensures
        pairs.len() == kwargs.len(),
        forall|i: int|
            0 <= i < kwargs.len() ==> (#[trigger] pairs[i]).0@ == kwargs[i].0@ && argument_gives(
                host,
                context,
                kwargs[i].1,
                Conversion::Python,
                Ok(pairs[i].1),
            ),
{
    let outcome: Result<Seq<(String, PyObject)>, Fault> = Ok(pairs);
    let values = choose|values: Result<Seq<PyObject>, Fault>|
        {
            &&& #[trigger] arguments_give(
                host,
                context,
                keyword_elements(kwargs),
                Conversion::Python,
                Seq::empty(),
                values,
            )
            &&& match values {
                Err(e) => outcome == Err::<Seq<(String, PyObject)>, _>(e),
                Ok(values) => outcome matches Ok(pairs) && are_pairs(
                    pairs,
                    keyword_names(kwargs),
                    values,
                ),
            }
        };
    assert(values is Ok);
    let elements = keyword_elements(kwargs);
    law_arguments_come_in_order(
        host,
        context,
        elements,
        Conversion::Python,
        Seq::empty(),
        values->Ok_0,
    );
    assert forall|i: int| 0 <= i < kwargs.len() implies (#[trigger] pairs[i]).0@ == kwargs[i].0@
        && argument_gives(host, context, kwargs[i].1, Conversion::Python, Ok(pairs[i].1)) by {
        assert(elements[i] == kwargs[i].1);
        assert(values->Ok_0[Seq::<PyObject>::empty().len() + i] == values->Ok_0[i]);
    }
}

/// What the function behind a tag gives is written, or stored under the variable that is named.
pub proof fn law_targets_are_written_or_stored<H: Host>(
    host: &H,
    target_var: Option<String>,
    text: Seq<char>,
    before: ContextView,
    after: ContextView,
    outcome: Shown,
)
    requires
        target_stored(host, target_var, text, before, after, outcome),
    ensures
        target_var is None ==> after == before && outcome == Ok::<_, Fault>(text),
        target_var matches Some(name) ==> {
            &&& outcome matches Ok(out) && out.len() == 0
            &&& exists|held: String, object: PyObject|
                {
                    &&& #[trigger] call_ensures(H::string, (host, &held), object)
                    &&& held@ == text
                    &&& after.lookup(name@) == Some(object)
                }
        },
{
    reveal_strlit("");
    if let Some(name) = target_var {
        let (held, object) = choose|held: String, object: PyObject|
            {
                &&& held@ == text
                &&& #[trigger] call_ensures(H::string, (host, &held), object)
                &&& after == before.inserted(name@, object, true)
            };
        assert(call_ensures(H::string, (host, &held), object));
        assert(after.lookup(name@) == Some(object));
    }
}

/// What a function that is called gives is shown; what it raises is told of where the tag stands.
pub proof fn law_calls_are_shown(called: Called, at: At)
    ensures
        match called_shown(called, at) {
            Ok(text) => called matches Ok(Ok(given)) && given@ == text,
            Err(Fault::Annotated { error, at: place, .. }) => called == Ok::<
                Result<String, PyObject>,
                PyObject,
            >(Err(error)) && place == at,
            Err(Fault::PyErr(error)) => called == Err::<Result<String, PyObject>, PyObject>(error),
            Err(_) => false,
        },
{
}

/// A text counts as the number that it reads as, and so does this number.
pub proof fn law_counted_texts<H: Host>(
    host: &H,
    n: Integer,
    text: ContentString<String>,
    a: Option<Integer>,
    b: Option<Integer>,
)
    requires
        text@.raw() == decimal_text(n@),
        counts(host, Some(Content::Int(n)), a),
        counts(host, Some(Content::String(text)), b),
    ensures
        a matches Some(a) && a@ == n@,
        b matches Some(b) && b@ == n@,
{
    law_text_reads_back(n@);
}

/// A URL is looked up by its arguments with keywords where there are any, and by the others where
/// there are none; each argument of the tag is handed over.
pub proof fn law_urls_are_looked_up<H: Host>(
    host: &H,
    tag: Url,
    context: Context,
    reverse: PyObject,
    view_name: Content,
    app: Option<PyObject>,
    url: Result<PyObject, ReverseError>,
)
    requires
        url_found(host, tag, context, reverse, view_name, app, Ok(url)),
    ensures
        tag.kwargs@.len() > 0 ==> exists|given: Vec<(String, PyObject)>|
            {
                &&& #[trigger] call_ensures(
                    H::reverse_kwargs,
                    (host, reverse, &view_name, &given, app),
                    url,
                )
                &&& given@.len() == tag.kwargs@.len()
                &&& forall|i: int|
                    0 <= i < given@.len() ==> (#[trigger] given@[i]).0@ == tag.kwargs@[i].0@
            },
        tag.kwargs@.len() == 0 ==> exists|given: Vec<PyObject>|
            {
                &&& #[trigger] call_ensures(
                    H::reverse_args,
                    (host, reverse, &view_name, &given, app),
                    url,
                )
                &&& given@.len() == tag.args@.len()
            },
{
    if tag.kwargs@.len() == 0 {
        let args = choose|args: Result<Seq<PyObject>, Fault>|
            {
                &&& #[trigger] arguments_give(
                    host,
                    context,
                    tag.args@,
                    Conversion::PythonOrEmpty,
                    Seq::empty(),
                    args,
                )
                &&& match args {
                    Err(e) => Ok::<Result<PyObject, ReverseError>, Fault>(url) == Err::<
                        Result<PyObject, ReverseError>,
                        _,
                    >(e),
                    Ok(args) => exists|
                        given: Vec<PyObject>,
                        found: Result<PyObject, ReverseError>,
                    |
                        {
                            &&& given@ == args
                            &&& #[trigger] call_ensures(
                                H::reverse_args,
                                (host, reverse, &view_name, &given, app),
                                found,
                            )
                            &&& Ok::<_, Fault>(url) == Ok::<_, Fault>(found)
                        },
                }
            };
        assert(args is Ok);
        law_arguments_come_in_order(
            host,
            context,
            tag.args@,
            Conversion::PythonOrEmpty,
            Seq::empty(),
            args->Ok_0,
        );
    } else {
        let kwargs = choose|kwargs: Result<Seq<(String, PyObject)>, Fault>|
            {
                &&& #[trigger] keywords_give(host, context, tag.kwargs@, kwargs)
                &&& match kwargs {
                    Err(e) => Ok::<Result<PyObject, ReverseError>, Fault>(url) == Err::<
                        Result<PyObject, ReverseError>,
                        _,
                    >(e),
                    Ok(kwargs) => exists|
                        given: Vec<(String, PyObject)>,
                        found: Result<PyObject, ReverseError>,
                    |
                        {
                            &&& given@ == kwargs
                            &&& #[trigger] call_ensures(
                                H::reverse_kwargs,
                                (host, reverse, &view_name, &given, app),
                                found,
                            )
                            &&& Ok::<_, Fault>(url) == Ok::<_, Fault>(found)
                        },
                }
            };
        assert(kwargs is Ok);
        law_keywords_keep_their_values(host, context, tag.kwargs@, kwargs->Ok_0);
    }
}

/// An object is what Python makes of an empty string.
pub open spec fn is_empty_string<H: Host>(host: &H, object: PyObject) -> bool {
    exists|empty: String|
        empty@.len() == 0 && #[trigger] call_ensures(H::string, (host, &empty), object)
}

/// A value that is missing is handed over as an empty string where text is asked for, and as
/// nothing where it is not; a Python object is handed over as it is.
pub proof fn law_missing_values_are_handed_over<H: Host>(
    host: &H,
    context: Context,
    element: TagElement<Integer>,
    conversion: Conversion,
    outcome: Result<PyObject, Fault>,
    content: Option<Content>,
)
    requires
        argument_gives(host, context, element, conversion, outcome),
        forall|s: Side| #[trigger]
            resolves(host, element, conversion.failures(), context, s) ==> s == Ok::<
                _,
                PyRenderError<String>,
            >(content),
    ensures
        conversion is Text && content is None ==> outcome is Ok && is_empty_string(
            host,
            outcome->Ok_0,
        ),
        conversion is Text && (content matches Some(Content::Py(_))) ==> outcome == Ok::<_, Fault>(
            content->0->Py_0,
        ),
        conversion is Python ==> exists|converted: Result<PyObject, PyObject>|
            {
                &&& #[trigger] call_ensures(H::to_argument, (host, &content), converted)
                &&& outcome is Ok <==> converted is Ok
                &&& outcome is Ok ==> outcome->Ok_0 == converted->Ok_0
            },
        conversion matches Conversion::Text(failures) ==> conversion.failures() == failures,
        !(conversion is Text) ==> conversion.failures() is Raise,
{
    reveal_strlit("");
    if conversion is Text && content is None {
        assert(text_object(host, content, outcome));
        let (empty, object) = choose|empty: String, object: PyObject|
            {
                &&& empty@ == ""@
                &&& #[trigger] call_ensures(H::string, (host, &empty), object)
                &&& outcome == Ok::<_, Fault>(object)
            };
        assert(call_ensures(H::string, (host, &empty), object) && empty@.len() == 0);
    }
}

/// The function behind a tag is called with the arguments of the tag, and what it gives is what
/// becomes of the tag.
pub proof fn law_functions_are_called<H: Host>(
    host: &H,
    func: PyObject,
    at: At,
    args: Seq<PyObject>,
    kwargs: Seq<(String, PyObject)>,
    before: Context,
    after: Context,
    outcome: Shown,
)
    requires
        tag_called(host, func, false, at, args, kwargs, before, after, outcome),
    ensures
        after@ == before@,
        exists|a: Vec<PyObject>, k: Vec<(String, PyObject)>, called: Result<String, PyObject>|
            {
                &&& #[trigger] call_ensures(H::call_tag, (host, func, &a, &k), called)
                &&& a@ == args
                &&& k@ == kwargs
                &&& match called {
                    Ok(text) => outcome == Ok::<_, Fault>(text@),
                    Err(error) => outcome matches Err(fault) && (fault matches Fault::Annotated {
                        error: raised,
                        at: place,
                        ..
                    } && raised == error && place == at),
                }
            },
{
}

/// Placeholder text is asked for in the amount that is planned, and paragraphs are put together.
pub proof fn law_plans_are_carried_out<H: Host>(
    host: &H,
    plan: LoremPlan,
    common: bool,
    outcome: Shown,
)
    requires
        plan_renders(host, plan, common, outcome),
    ensures
        plan is Nothing ==> (outcome matches Ok(out) && out.len() == 0),
        plan matches LoremPlan::Words(count) ==> exists|words: String|
            #[trigger] call_ensures(H::words, (host, count, common), words) && outcome == Ok::<
                _,
                Fault,
            >(words@),
        plan matches LoremPlan::Paragraphs { count, wrapped } ==> exists|paragraphs: Vec<String>|
            {
                &&& #[trigger] call_ensures(H::paragraphs, (host, count, common), paragraphs)
                &&& outcome == Ok::<_, Fault>(paragraphs_text(views(paragraphs@), wrapped))
            },
{
    reveal_strlit("");
}

/// A tag of a library that renders is called with its own arguments, each of which could be made,
/// and what it gives is written or stored.
pub proof fn law_library_tags_render<H: Host>(
    host: &H,
    tag: SimpleTag,
    before: Context,
    after: Context,
    out: Seq<char>,
)
    requires
        simple_tag_renders(host, tag, before, after, Ok(out)),
    ensures
        exists|
            args: Seq<PyObject>,
            kwargs: Seq<(String, PyObject)>,
            middle: Context,
            text: Seq<char>,
        |
            {
                &&& #[trigger] tag_called(
                    host,
                    tag.func,
                    tag.takes_context,
                    tag.at,
                    args,
                    kwargs,
                    before,
                    middle,
                    Ok(text),
                )
                &&& args.len() == tag.args@.len()
                &&& kwargs.len() == tag.kwargs@.len()
                &&& forall|i: int|
                    0 <= i < args.len() ==> argument_gives(
                        host,
                        before,
                        tag.args@[i],
                        Conversion::Text(Failures::Raise),
                        Ok(#[trigger] args[i]),
                    )
                &&& forall|i: int|
                    0 <= i < kwargs.len() ==> (#[trigger] kwargs[i]).0@ == tag.kwargs@[i].0@
                &&& target_stored(host, tag.target_var, text, middle@, after@, Ok(out))
            },
{
    let outcome: Shown = Ok(out);
    let conversion = Conversion::Text(Failures::Raise);
    let made = choose|args: Result<Seq<PyObject>, Fault>|
        {
            &&& #[trigger] arguments_give(host, before, tag.args@, conversion, Seq::empty(), args)
            &&& match args {
                Err(e) => after@ == before@ && outcome == Err::<Seq<char>, _>(e),
                Ok(args) => exists|kwargs: Result<Seq<(String, PyObject)>, Fault>|
                    {
                        &&& #[trigger] keywords_give(host, before, tag.kwargs@, kwargs)
                        &&& match kwargs {
                            Err(e) => after@ == before@ && outcome == Err::<Seq<char>, _>(e),
                            Ok(kwargs) => tag_concluded(
                                host,
                                tag,
                                args,
                                kwargs,
                                before,
                                after,
                                outcome,
                            ),
                        }
                    },
            }
        };
    assert(made is Ok);
    let args = made->Ok_0;
    law_arguments_come_in_order(host, before, tag.args@, conversion, Seq::empty(), args);
    let named = choose|kwargs: Result<Seq<(String, PyObject)>, Fault>|
        {
            &&& #[trigger] keywords_give(host, before, tag.kwargs@, kwargs)
            &&& match kwargs {
                Err(e) => after@ == before@ && outcome == Err::<Seq<char>, _>(e),
                Ok(kwargs) => tag_concluded(host, tag, args, kwargs, before, after, outcome),
            }
        };
    assert(named is Ok);
    let kwargs = named->Ok_0;
    law_keywords_keep_their_values(host, before, tag.kwargs@, kwargs);
    let (middle, called) = choose|middle: Context, called: Shown|
        {
            &&& #[trigger] tag_called(
                host,
                tag.func,
                tag.takes_context,
                tag.at,
                args,
                kwargs,
                before,
                middle,
                called,
            )
            &&& call_concluded(host, tag.target_var, called, middle@, after@, outcome)
        };
    assert(called is Ok);
    assert forall|i: int| 0 <= i < args.len() implies argument_gives(
        host,
        before,
        tag.args@[i],
        conversion,
        Ok(#[trigger] args[i]),
    ) by {
        assert(args[Seq::<PyObject>::empty().len() + i] == args[i]);
        assert(argument_gives(host, before, tag.args@[i], conversion, Ok(args[i])));
    }
    assert(tag_called(
        host,
        tag.func,
        tag.takes_context,
        tag.at,
        args,
        kwargs,
        before,
        middle,
        Ok(called->Ok_0),
    ));
}

/// Placeholder text is made in the amount that its count is, or once where it is a value that is
/// missing.
pub proof fn law_placeholders_render<H: Host>(
    host: &H,
    lorem: Lorem<Integer>,
    context: Context,
    outcome: Shown,
    content: Option<Content>,
)
    requires
        lorem_renders(host, lorem, context, outcome),
        forall|s: Side| #[trigger]
            resolves(host, lorem.count, Failures::IgnoreVariableDoesNotExist, context, s) ==> s
                == Ok::<_, PyRenderError<String>>(content),
        match content {
            None => true,
            Some(Content::Int(n)) => i64::MIN <= n@ <= i64::MAX,
            _ => false,
        },
    ensures
        exists|common_words: u32|
            {
                &&& #[trigger] call_ensures(H::common_words, (host,), common_words)
                &&& plan_renders(
                    host,
                    lorem_plan(
                        lorem.method,
                        lorem.common,
                        match content {
                            Some(Content::Int(n)) => n@ as i64,
                            _ => 1,
                        },
                        common_words as usize,
                    ),
                    lorem.common,
                    outcome,
                )
            },
{
}

/// A URL is looked up by the function that Python gives for it, under the name that the tag says,
/// or an empty one where this is a value that is missing.
pub proof fn law_urls_render<H: Host>(
    host: &H,
    tag: Url,
    before: Context,
    after: Context,
    out: Seq<char>,
    view: Option<Content>,
    reverse: PyObject,
)
    requires
        url_renders(host, tag, before, after, Ok(out)),
        forall|s: Side| #[trigger]
            resolves(host, tag.view_name, Failures::Raise, before, s) ==> s == Ok::<
                _,
                PyRenderError<String>,
            >(view),
        forall|r: Result<PyObject, PyObject>| #[trigger]
            call_ensures(H::reverse, (host,), r) ==> r == Ok::<_, PyObject>(reverse),
    ensures
        exists|name: Content, app: Option<PyObject>, url: Result<PyObject, ReverseError>|
            {
                &&& #[trigger] url_found(host, tag, before, reverse, name, app, Ok(url))
                &&& view matches Some(given) ==> name == given
                &&& view is None ==> (name matches Content::String(s) && s@.raw().len() == 0)
                &&& before@.request is None ==> app is None
            },
{
    reveal_strlit("");
    let outcome: Shown = Ok(out);
    assert(url_renders_by(host, tag, before, after, reverse, view, outcome));
    let app = choose|app: Result<Option<PyObject>, PyObject>|
        {
            &&& #[trigger] app_given(host, before@.request, app)
            &&& match app {
                Err(e) => {
                    &&& after@ == before@
                    &&& outcome == Err::<Seq<char>, _>(Fault::PyErr(e))
                },
                Ok(app) => url_looked_up(host, tag, before, after, reverse, view, app, outcome),
            }
        };
    assert(app is Ok);
    let (name, found) = choose|name: Content, found: Result<Result<PyObject, ReverseError>, Fault>|
        {
            &&& is_or_empty(view, name)
            &&& #[trigger] url_found(host, tag, before, reverse, name, app->Ok_0, found)
            &&& match found {
                Err(e) => after@ == before@ && outcome == Err::<Seq<char>, _>(e),
                Ok(url) => exists|content: Side|
                    {
                        &&& #[trigger] url_concluded(tag, url, before@, after@, content)
                        &&& match content {
                            Err(e) => outcome == Err::<Seq<char>, _>(e@),
                            Ok(content) => written_or_nothing(
                                host,
                                content,
                                after@.autoescape,
                                outcome,
                            ),
                        }
                    },
            }
        };
    assert(found is Ok);
    assert(url_found(host, tag, before, reverse, name, app->Ok_0, Ok(found->Ok_0)));
}

/// A function that takes the context is handed it as it is, before the arguments of the tag, and
/// what it leaves of it is what is left.
pub proof fn law_functions_are_called_with_the_context<H: Host>(
    host: &H,
    func: PyObject,
    at: At,
    args: Seq<PyObject>,
    kwargs: Seq<(String, PyObject)>,
    before: Context,
    after: Context,
    outcome: Shown,
)
    requires
        tag_called(host, func, true, at, args, kwargs, before, after, outcome),
    ensures
        exists|given: Context, a: Vec<PyObject>, k: Vec<(String, PyObject)>, called: Called|
            {
                &&& #[trigger] call_ensures(
                    H::call_tag_with_context,
                    (host, func, &a, &k, given),
                    (after, called),
                )
                &&& given@ == before@
                &&& a@ == args
                &&& k@ == kwargs
                &&& called matches Ok(Ok(text)) ==> outcome == Ok::<_, Fault>(text@)
                &&& called is Err || called->Ok_0 is Err ==> outcome is Err
            },
{
}

/// A template that is found renders in the context that it is given, and leaves behind what is left
/// of it; an object that renders itself is called with this context.
pub proof fn law_templates_render_in_their_context<H: Host>(
    host: &H,
    template: IncludeTemplate,
    at: At,
    before: Context,
    after: Context,
    outcome: Shown,
)
    requires
        template_renders(host, template, at, before, after, outcome),
    ensures
        template matches IncludeTemplate::Template(found) ==> exists|
            given: Context,
            rendered: Rendered,
        |
            {
                &&& #[trigger] call_ensures(
                    H::render_template,
                    (host, found, given),
                    (after, rendered),
                )
                &&& given@ == before@
                &&& rendered matches Ok(text) ==> outcome == Ok::<_, Fault>(text@)
                &&& rendered matches Err(e) ==> outcome == Err::<Seq<char>, _>(e@)
            },
        template matches IncludeTemplate::Callable(render) ==> exists|
            given: Context,
            called: Called,
        |
            {
                &&& #[trigger] call_ensures(H::call_render, (host, render, given), (after, called))
                &&& given@ == before@
                &&& called matches Ok(Ok(text)) ==> outcome == Ok::<_, Fault>(text@)
                &&& called is Err || called->Ok_0 is Err ==> outcome is Err
            },
{
}

/// Python is asked for the date in the format that the tag says, which goes by a name just if it is
/// one of those that do.
pub proof fn law_dates_are_asked_for<H: Host>(
    host: &H,
    template: Seq<char>,
    now: Now<String>,
    before: ContextView,
    after: ContextView,
    outcome: Shown,
)
    requires
        now_renders(host, template, now, before, after, outcome),
    ensures
        exists|named: bool, date: Result<PyObject, PyObject>|
            {
                &&& #[trigger] call_ensures(H::now, (host, &now.format, named), date)
                &&& named <==> named_formats().contains(now.format@)
                &&& date matches Err(e) ==> outcome == Err::<Seq<char>, _>(Fault::PyErr(e))
                    && after == before
            },
{
    law_formats_are_named(now.format@);
}

/// Where the context holds no token, nothing is written: a warning is given where errors are looked
/// for, and what Python raises is told.
pub proof fn law_missing_tokens_are_warned_of<H: Host>(
    host: &H,
    context: ContextView,
    outcome: Shown,
    debug: Result<bool, PyObject>,
)
    requires
        csrf_renders(host, context, outcome),
        context.lookup("csrf_token"@) is None,
        forall|d: Result<bool, PyObject>| #[trigger] call_ensures(H::debug, (host,), d) ==> d
            == debug,
    ensures
        debug == Ok::<_, PyObject>(false) ==> outcome is Ok && outcome->Ok_0.len() == 0,
        debug matches Err(e) ==> outcome == Err::<Seq<char>, _>(Fault::PyErr(e)),
        debug == Ok::<_, PyObject>(true) ==> exists|message: &str, warned: Result<(), PyObject>|
            {
                &&& #[trigger] call_ensures(H::warn, (host, message), warned)
                &&& message@.len() > 0
                &&& outcome is Ok <==> warned is Ok
                &&& outcome is Ok ==> outcome->Ok_0.len() == 0
            },
{
    reveal_strlit("");
    reveal_strlit("A {% csrf_token %} was used in a template, but the context did not provide the value.  This is usually caused by not providing a request.");
}

} // verus!
