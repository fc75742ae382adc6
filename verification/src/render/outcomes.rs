//! What becomes of the tags of a template.
use vstd::prelude::*;
use crate::dict::{map_of, views};
use crate::integer::Integer;
use crate::lexer::tokens::{AutoescapeEnabled, LoremMethod, TemplateTag};
use crate::parse::tree::{Cycle, For, IncludeTemplateName, SimpleCycle, TagElement, Url};
use crate::render::content::{escaped, is_markup, law_escaped_holds_no_markup, Content};
use crate::render::context::{ContextView, IncludeTemplateKeyView};
use crate::render::errors::{PyRenderError, RenderError};
use crate::render::tags::{
    app_at_hand, block_arguments, count_value, csrf_text, fresh_context, in_paragraph,
    is_named_format, lorem_plan, paragraphs_text, python_choice, template_location, url_concluded,
    CsrfValue, LoremPlan, PyTemplateName, RequestApp, ReverseError, TemplateChoiceView,
};
use crate::text::At;
use crate::types::PyObject;
use crate::words::law_texts_are_joined_in_order;

verus! {

/// What opens a thing in a template and what closes it.
pub open spec fn closing(opening: TemplateTag) -> Option<TemplateTag> {
    match opening {
        TemplateTag::OpenBlock => Some(TemplateTag::CloseBlock),
        TemplateTag::OpenVariable => Some(TemplateTag::CloseVariable),
        TemplateTag::OpenBrace => Some(TemplateTag::CloseBrace),
        TemplateTag::OpenComment => Some(TemplateTag::CloseComment),
        _ => None,
    }
}

/// The sign beside the brace that opens a thing in a template.
pub open spec fn sign(opening: TemplateTag) -> Seq<char> {
    match opening {
        TemplateTag::OpenBlock => seq!['%'],
        TemplateTag::OpenVariable => seq!['{'],
        TemplateTag::OpenComment => seq!['#'],
        _ => Seq::empty(),
    }
}

/// What opens a thing is a brace and its sign, and what closes it is the same the other way round.
pub proof fn law_template_tags_mirror(opening: TemplateTag)
    requires
        closing(opening) is Some,
    ensures
        opening.replacement() == seq!['{'] + sign(opening),
        closing(opening)->0.replacement() == (if opening is OpenVariable {
            seq!['}']
        } else {
            sign(opening)
        }) + seq!['}'],
{
    reveal_strlit("{%");
    reveal_strlit("%}");
    reveal_strlit("{{");
    reveal_strlit("}}");
    reveal_strlit("{");
    reveal_strlit("}");
    reveal_strlit("{#");
    reveal_strlit("#}");
    assert(opening.replacement() =~= seq!['{'] + sign(opening));
    assert(closing(opening)->0.replacement() =~= (if opening is OpenVariable {
        seq!['}']
    } else {
        sign(opening)
    }) + seq!['}']);
}

/// A request that names an application says which one is at hand; one that does not leaves it to
/// the namespace that the URL was found in. Nothing is at hand without either.
pub proof fn law_apps_at_hand(request: RequestApp, app: PyObject)
    ensures
        app_at_hand(None) == Ok::<Option<PyObject>, PyObject>(None),
        app_at_hand(Some(request)) == Ok::<_, PyObject>(Some(app)) <==> {
            ||| request.current_app == Ok::<_, PyObject>(Some(app))
            ||| request.current_app == Ok::<Option<PyObject>, PyObject>(None)
                && request.resolver_match == Ok::<_, PyObject>(Some(Ok::<_, PyObject>(app)))
        },
        app_at_hand(Some(request)) == Ok::<Option<PyObject>, PyObject>(None) <==> {
            &&& request.current_app == Ok::<Option<PyObject>, PyObject>(None)
            &&& request.resolver_match == Ok::<Option<Result<PyObject, PyObject>>, PyObject>(None)
        },
{
}

/// A URL goes to the variable that is named, and is then read under its name; without one it is
/// what the tag gives. One that does not exist is an error, unless there is a variable for it.
pub proof fn law_urls_are_stored_or_given(
    tag: Url,
    url: Result<PyObject, ReverseError>,
    before: ContextView,
    after: ContextView,
    outcome: Result<Option<Content>, PyRenderError<String>>,
)
    requires
        url_concluded(tag, url, before, after, outcome),
    ensures
        url is Ok ==> outcome is Ok,
        url is Ok && tag.asvar is None ==> outcome == Ok::<_, PyRenderError<String>>(
            Some(Content::Py(url->Ok_0)),
        ),
        url is Ok && tag.asvar is Some ==> {
            &&& outcome matches Ok(None)
            &&& after.lookup(tag.asvar->0@) == Some(url->Ok_0)
        },
        url is Err || tag.asvar is None ==> after == before,
        url matches Err(e) ==> (outcome is Ok <==> e.no_match && tag.asvar is Some),
        url is Err && outcome is Ok ==> (outcome matches Ok(None)),
        url is Err && outcome is Err ==> (outcome->Err_0@ matches
            PyRenderError::Annotated { error, at, .. } && error == url->Err_0.error && at
            == tag.at),
{
}

/// The characters of a loop over text come in their order, or backwards where it is reversed.
pub proof fn law_characters_come_in_order(
    tag: For,
    text: &str,
    outcome: Result<Vec<char>, PyRenderError<String>>,
    i: int,
)
    requires
        call_ensures(For::characters, (&tag, text), outcome),
        0 <= i < text@.len(),
    ensures
        outcome is Ok <==> tag.variables.names@.len() <= 1,
        outcome matches Ok(chars) ==> chars@.len() == text@.len() && chars@[i] == if tag.reversed {
            text@[text@.len() - 1 - i]
        } else {
            text@[i]
        },
{
}

/// The items of a loop come in their order, or the last one first where it is reversed.
pub proof fn law_items_come_in_order(tag: For, count: usize, index: usize, position: usize)
    requires
        index < count,
        call_ensures(For::item_position, (&tag, count, index), position),
    ensures
        !tag.reversed ==> position == index,
        tag.reversed ==> position + index + 1 == count,
{
}

/// A Python object stands for what it renders itself, for the template of its text, or for the
/// templates of the names that it holds, in this order.
pub proof fn law_python_names_templates(at: At, name: PyTemplateName)
    ensures
        match python_choice(at, name) {
            Ok(TemplateChoiceView::Callable(render)) => name.render == Ok::<_, PyObject>(
                Some((render, true)),
            ),
            Ok(TemplateChoiceView::Key(key)) => {
                &&& name.render is Ok
                &&& !(name.render matches Ok(Some((_, true))))
                &&& match key {
                    IncludeTemplateKeyView::String(path) => name.text matches Some(text) && path
                        == (match name.relative_path {
                        Ok(Some(relative)) => relative@,
                        _ => text@,
                    }),
                    IncludeTemplateKeyView::Vec(paths) => {
                        &&& name.text is None
                        &&& name.is_promise == Ok::<_, PyObject>(false)
                        &&& name.names matches Some(names) && views(names@) == paths
                    },
                }
            },
            Err(PyRenderError::PyErr(e)) => {
                ||| name.render == Err::<Option<(PyObject, bool)>, _>(e)
                ||| name.is_promise == Err::<bool, _>(e) && name.text is None
            },
            Err(PyRenderError::RenderError(RenderError::RelativePathError(e))) => name.text is Some
                && (name.relative_path matches Err(fault) && fault == e),
            Err(PyRenderError::Raised { exception, at: place, .. }) => {
                &&& exception is TypeError
                &&& place == at
                &&& name.text is None
                &&& name.is_promise == Ok::<_, PyObject>(true) || name.names is None
            },
            Err(_) => false,
        },
{
}

/// The template of a tag is where its name stands.
pub proof fn law_templates_are_located(name: IncludeTemplateName<Integer, String>, at: At)
    requires
        match name {
            IncludeTemplateName::Text(text) => text.at == at,
            IncludeTemplateName::Relative(path) => path.at == at,
            IncludeTemplateName::Variable(element) => match element {
                TagElement::Variable(variable) => variable.at == at,
                TagElement::ForVariable(variable) => variable.at == at,
                TagElement::Filter(filter) => filter.all_at == at,
                _ => false,
            },
        },
    ensures
        template_location(name) == at,
{
}

/// A template that sees nothing but given values reads these, each under its name, and nothing
/// else; what is escaped and the request stay the same.
pub proof fn law_fresh_contexts_hold_what_is_given(
    context: ContextView,
    values: Seq<(String, PyObject)>,
    name: Seq<char>,
)
    ensures
        fresh_context(context, values).lookup(name) == (if map_of(values).contains_key(name) {
            Some(map_of(values)[name])
        } else {
            None
        }),
        fresh_context(context, values).autoescape == context.autoescape,
        fresh_context(context, values).request == context.request,
        fresh_context(context, values).loops.len() == 0,
{
    let fresh = fresh_context(context, values);
    if map_of(values).contains_key(name) {
        assert(fresh.context[name] == seq![map_of(values)[name]]);
    }
}

/// The formats of dates that go by a name.
pub open spec fn named_formats() -> Seq<Seq<char>> {
    seq![
        ""@,
        "DATE_FORMAT"@,
        "DATETIME_FORMAT"@,
        "SHORT_DATE_FORMAT"@,
        "SHORT_DATETIME_FORMAT"@,
        "YEAR_MONTH_FORMAT"@,
        "MONTH_DAY_FORMAT"@,
        "TIME_FORMAT"@,
    ]
}

/// A date has a named format just if it is one of these.
pub proof fn law_formats_are_named(format: Seq<char>)
    ensures
        is_named_format(format) <==> named_formats().contains(format),
{
    if is_named_format(format) {
        assert(named_formats()[0] == ""@);
        assert(named_formats()[1] == "DATE_FORMAT"@);
        assert(named_formats()[2] == "DATETIME_FORMAT"@);
        assert(named_formats()[3] == "SHORT_DATE_FORMAT"@);
        assert(named_formats()[4] == "SHORT_DATETIME_FORMAT"@);
        assert(named_formats()[5] == "YEAR_MONTH_FORMAT"@);
        assert(named_formats()[6] == "MONTH_DAY_FORMAT"@);
        assert(named_formats()[7] == "TIME_FORMAT"@);
    }
}

/// A token is written into an input field, without markup of its own; where there is none, or none
/// was provided, nothing is written.
pub proof fn law_tokens_are_written(token: CsrfValue)
    ensures
        ({
            let own = match token.string {
                Some(s) => Some(s@),
                None => match (token.is_truthy, token.text) {
                    (Ok(true), Ok(s)) => Some(s@),
                    _ => None,
                },
            };
            let missing = match token.string {
                Some(s) => s@ == ""@ || s@ == "NOTPROVIDED"@,
                None => token.is_truthy == Ok::<_, PyObject>(false),
            };
            match csrf_text(token) {
                Ok(out) => if missing {
                    out.len() == 0
                } else {
                    &&& own is Some
                    &&& out
                        == "<input type=\"hidden\" name=\"csrfmiddlewaretoken\" value=\""@
                        + escaped(own->0) + "\">"@
                    &&& forall|i: int|
                        0 <= i < escaped(own->0).len() ==> !is_markup(
                            #[trigger] escaped(own->0)[i],
                        )
                },
                Err(e) => token.string is None && (token.is_truthy == Err::<bool, _>(e)
                    || token.is_truthy == Ok::<_, PyObject>(true) && token.text == Err::<
                    String,
                    _,
                >(e)),
            }
        }),
{
    reveal_strlit("");
    if let Some(s) = token.string {
        law_escaped_holds_no_markup(s@);
    }
    if let Ok(s) = token.text {
        law_escaped_holds_no_markup(s@);
    }
}

/// As many words, or paragraphs, are made as the count says, and none below that. Of the common
/// words, a count below zero leaves off as many.
pub proof fn law_placeholders_are_counted(
    method: LoremMethod,
    common: bool,
    count: i64,
    common_words: usize,
)
    ensures
        method is Words && 0 <= count <= usize::MAX ==> lorem_plan(
            method,
            common,
            count,
            common_words,
        ) == LoremPlan::Words(count as usize),
        method is Words && count < 0 ==> (lorem_plan(method, common, count, common_words) matches
            LoremPlan::Words(left) && (common && common_words + count > 0 ==> left - count
            == common_words) && (!common || common_words + count <= 0 ==> left == 0)),
        !(method is Words) && count <= 0 ==> lorem_plan(method, common, count, common_words)
            is Nothing,
        !(method is Words) && 0 < count <= usize::MAX ==> (lorem_plan(
            method,
            common,
            count,
            common_words,
        ) matches LoremPlan::Paragraphs { count: made, wrapped } && made == count && (wrapped
            <==> method is Paragraphs)),
{
}

/// A count is the number that it is, and one where it is none, or none that fits.
pub proof fn law_counts(count: Option<Integer>)
    ensures
        count is Some && i64::MIN <= count->0@ <= i64::MAX ==> count_value(count) == count->0@,
        count is Some && !(i64::MIN <= count->0@ <= i64::MAX) ==> count_value(count) == 1,
        count is None ==> count_value(count) == 1,
{
}

/// Paragraphs stand in their order with an empty line between two, and in tags just if they are to
/// be.
pub proof fn law_paragraphs_stand_apart(
    paragraphs: Seq<Seq<char>>,
    last: Seq<char>,
    wrapped: bool,
)
    ensures
        ({
            let own = if wrapped {
                "<p>"@ + last + "</p>"@
            } else {
                last
            };
            paragraphs_text(paragraphs.push(last), wrapped) == if paragraphs.len() == 0 {
                own
            } else {
                paragraphs_text(paragraphs, wrapped) + "\n\n"@ + own
            }
        }),
{
    let f = |text: Seq<char>| in_paragraph(text);
    let before = if wrapped {
        paragraphs.map_values(f)
    } else {
        paragraphs
    };
    let own = if wrapped {
        "<p>"@ + last + "</p>"@
    } else {
        last
    };
    let after = if wrapped {
        paragraphs.push(last).map_values(f)
    } else {
        paragraphs.push(last)
    };
    assert(after =~= before.push(own));
    law_texts_are_joined_in_order(before, "\n\n"@, own);
}

/// A cycle writes its values and has a variable as it was declared: one without a name has none,
/// and only a silent one writes nothing.
pub proof fn law_cycles_are_shown(cycle: Cycle, values: &SimpleCycle, shown: bool)
    requires
        call_ensures(Cycle::simple, (&cycle,), values),
        call_ensures(Cycle::is_shown, (&cycle,), shown),
    ensures
        cycle matches Cycle::Simple(own) ==> *values == own && shown,
        cycle matches Cycle::Named(own) ==> *values == own.cycle && shown,
        cycle matches Cycle::SilentNamed(own) ==> *values == own.cycle.cycle && !shown,
{
}

/// Text is escaped where escaping is switched on.
pub proof fn law_switches_are_on_or_off(enabled: AutoescapeEnabled, on: bool)
    requires
        call_ensures(AutoescapeEnabled::enabled, (enabled,), on),
    ensures
        on <==> enabled is On,
        on <==> !(enabled is Off),
{
}

/// What a block is called with comes first, and then its arguments, in order.
pub proof fn law_blocks_come_first(content: PyObject, args: &Vec<PyObject>, all: Vec<PyObject>, i: int)
    requires
        call_ensures(block_arguments, (content, args), all),
        0 <= i < args@.len(),
    ensures
        all@.len() == args@.len() + 1,
        all@[0] == content,
        all@[i + 1] == args@[i],
{
}

} // verus!
