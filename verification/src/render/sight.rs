//! What a template sees that is rendered in place of a tag.
use vstd::prelude::*;
use crate::dict::map_of;
use crate::integer::Integer;
use crate::parse::tree::{Include, IncludeTemplateName, TagElement};
use crate::render::content::Content;
use crate::render::context::{
    law_names_are_bound_to_their_values, Context, ContextView, IncludeTemplateKey,
    IncludeTemplateKeyView, TemplateRef,
};
use crate::render::effects::law_arguments_come_in_order;
use crate::render::errors::PyRenderError;
use crate::render::host::{argument_gives, arguments_give, Fault, Host, Shown};
use crate::render::inclusion::{
    all_known, chosen, chosen_renders, is_fresh, keyword_conversion, located_elements,
    optional_gives, pair_views, renders_alone, renders_with_keywords, template_found,
    template_known, template_renders, values_given, with_value, IncludeTemplate,
};
use crate::render::leaves::broken;
use crate::render::outcomes::law_fresh_contexts_hold_what_is_given;
use crate::render::tags::{
    keyword_texts, popped_in_turn, template_content, template_location, TemplateChoice,
    TemplateChoiceView,
};
use crate::text::{span, At};
use crate::types::PyObject;

verus! {

proof fn lemma_values_have_their_keywords<H: Host>(
    host: &H,
    context: Context,
    source: Seq<char>,
    kwargs: Seq<(At, TagElement<Integer>)>,
    before: Seq<(Seq<char>, PyObject)>,
    all: Seq<(Seq<char>, PyObject)>,
)
    requires
        values_given(host, context, source, kwargs, before, Ok(all)),
    ensures
        before.len() <= all.len(),
        forall|i: int| 0 <= i < before.len() ==> #[trigger] all[i] == before[i],
        forall|i: int|
            before.len() <= i < all.len() ==> exists|j: int|
                {
                    &&& 0 <= j < kwargs.len()
                    &&& span(source, (#[trigger] kwargs[j]).0) == (#[trigger] all[i]).0
                    &&& optional_gives(host, context, kwargs[j].1, Ok(Some(all[i].1)))
                },
    decreases kwargs.len(),
{
    if kwargs.len() > 0 {
        let outcome: Result<Seq<(Seq<char>, PyObject)>, Fault> = Ok(all);
        let first = choose|first: Result<Option<PyObject>, Fault>|
            {
                &&& #[trigger] optional_gives(host, context, kwargs[0].1, first)
                &&& match first {
                    Err(e) => outcome == Err::<Seq<(Seq<char>, PyObject)>, _>(e),
                    Ok(object) => values_given(
                        host,
                        context,
                        source,
                        kwargs.drop_first(),
                        with_value(before, span(source, kwargs[0].0), object),
                        outcome,
                    ),
                }
            };
        assert(first is Ok);
        let next = with_value(before, span(source, kwargs[0].0), first->Ok_0);
        let rest = kwargs.drop_first();
        lemma_values_have_their_keywords(host, context, source, rest, next, all);
        assert forall|i: int| 0 <= i < before.len() implies #[trigger] all[i] == before[i] by {
            assert(all[i] == next[i]);
        }
        assert forall|i: int| before.len() <= i < all.len() implies exists|j: int|
            {
                &&& 0 <= j < kwargs.len()
                &&& span(source, (#[trigger] kwargs[j]).0) == (#[trigger] all[i]).0
                &&& optional_gives(host, context, kwargs[j].1, Ok(Some(all[i].1)))
            } by {
            if i < next.len() {
                assert(all[i] == next[i]);
                assert(span(source, kwargs[0].0) == all[i].0);
            } else {
                let j = choose|j: int|
                    {
                        &&& 0 <= j < rest.len()
                        &&& span(source, (#[trigger] rest[j]).0) == all[i].0
                        &&& optional_gives(host, context, rest[j].1, Ok(Some(all[i].1)))
                    };
                assert(kwargs[j + 1] == rest[j]);
            }
        }
    }
}

/// A key of the map of some pairs is the key of the last pair that has it.
proof fn lemma_keys_are_those_of_pairs(pairs: Seq<(String, PyObject)>, name: Seq<char>)
    ensures
        map_of(pairs).contains_key(name) ==> exists|i: int|
            0 <= i < pairs.len() && (#[trigger] pairs[i]).0@ == name && pairs[i].1 == map_of(
                pairs,
            )[name],
    decreases pairs.len(),
{
    if pairs.len() > 0 && map_of(pairs).contains_key(name) {
        if pairs.last().0@ == name {
            assert(pairs[pairs.len() - 1].0@ == name);
        } else {
            lemma_keys_are_those_of_pairs(pairs.drop_last(), name);
            let i = choose|i: int|
                0 <= i < pairs.drop_last().len() && (#[trigger] pairs.drop_last()[i]).0@ == name
                    && pairs.drop_last()[i].1 == map_of(pairs.drop_last())[name];
            assert(pairs[i] == pairs.drop_last()[i]);
        }
    }
}

/// A template that sees nothing but the keywords of its tag reads no other name, and under a
/// keyword the value of its element; what it leaves behind is not seen afterwards.
pub proof fn law_only_keywords_are_seen<H: Host>(
    host: &H,
    source: Seq<char>,
    tag: Include,
    template: IncludeTemplate,
    context: Context,
    out: Seq<char>,
)
    requires
        renders_alone(host, source, tag, template, context, Ok(out)),
    ensures
        exists|fresh: Context, last: Context|
            {
                &&& #[trigger] template_renders(
                    host,
                    template,
                    template_location(tag.template_name),
                    fresh,
                    last,
                    Ok(out),
                )
                &&& fresh@.autoescape == context@.autoescape
                &&& forall|name: Seq<char>|
                    (#[trigger] fresh@.lookup(name)) matches Some(object) ==> exists|j: int|
                        {
                            &&& 0 <= j < tag.kwargs@.len()
                            &&& span(source, (#[trigger] tag.kwargs@[j]).0) == name
                            &&& optional_gives(
                                host,
                                context,
                                tag.kwargs@[j].1,
                                Ok(Some(object)),
                            )
                        }
            },
{
    let outcome: Shown = Ok(out);
    let given = choose|given: Result<Seq<(Seq<char>, PyObject)>, Fault>|
        {
            &&& #[trigger] values_given(host, context, source, tag.kwargs@, Seq::empty(), given)
            &&& match given {
                Err(e) => outcome == Err::<Seq<char>, _>(e),
                Ok(given) => exists|
                    pairs: Vec<(String, PyObject)>,
                    fresh: Context,
                    last: Context,
                |
                    {
                        &&& pair_views(pairs@) == given
                        &&& #[trigger] is_fresh(fresh, context@, pairs)
                        &&& #[trigger] template_renders(
                            host,
                            template,
                            template_location(tag.template_name),
                            fresh,
                            last,
                            outcome,
                        )
                    },
            }
        };
    assert(given is Ok);
    let all = given->Ok_0;
    let (pairs, fresh, last) = choose|
        pairs: Vec<(String, PyObject)>,
        fresh: Context,
        last: Context,
    |
        {
            &&& pair_views(pairs@) == all
            &&& #[trigger] is_fresh(fresh, context@, pairs)
            &&& #[trigger] template_renders(
                host,
                template,
                template_location(tag.template_name),
                fresh,
                last,
                outcome,
            )
        };
    lemma_values_have_their_keywords(host, context, source, tag.kwargs@, Seq::empty(), all);
    assert forall|name: Seq<char>| (#[trigger] fresh@.lookup(name)) is Some implies exists|j: int|
        {
            &&& 0 <= j < tag.kwargs@.len()
            &&& span(source, (#[trigger] tag.kwargs@[j]).0) == name
            &&& optional_gives(
                host,
                context,
                tag.kwargs@[j].1,
                Ok(Some(fresh@.lookup(name)->0)),
            )
        } by {
        law_fresh_contexts_hold_what_is_given(context@, pairs@, name);
        lemma_keys_are_those_of_pairs(pairs@, name);
        let i = choose|i: int|
            0 <= i < pairs@.len() && (#[trigger] pairs@[i]).0@ == name && pairs@[i].1 == map_of(
                pairs@,
            )[name];
        assert(all[i] == (pairs@[i].0@, pairs@[i].1));
    }
    law_fresh_contexts_hold_what_is_given(context@, pairs@, Seq::empty());
    assert(template_renders(
        host,
        template,
        template_location(tag.template_name),
        fresh,
        last,
        Ok(out),
    ));
}

/// Any other template sees what is around its tag, and under each keyword the value of its element.
pub proof fn law_keywords_are_seen_besides<H: Host>(
    host: &H,
    source: Seq<char>,
    tag: Include,
    template: IncludeTemplate,
    before: Context,
    after: Context,
    out: Seq<char>,
)
    requires
        renders_with_keywords(host, source, tag, template, before, after, Ok(out)),
    ensures
        exists|opened: Context, inner: Context|
            {
                &&& #[trigger] template_renders(
                    host,
                    template,
                    template_location(tag.template_name),
                    opened,
                    inner,
                    Ok(out),
                )
                &&& forall|name: Seq<char>|
                    !keyword_texts(source, tag.kwargs@).contains(name) ==> #[trigger] opened@.lookup(
                        name,
                    ) == before@.lookup(name)
                &&& forall|i: int|
                    0 <= i < tag.kwargs@.len() && (forall|j: int|
                        i < j < tag.kwargs@.len() ==> span(source, (#[trigger] tag.kwargs@[j]).0)
                            != span(source, tag.kwargs@[i].0)) ==> (opened@.lookup(
                        span(source, (#[trigger] tag.kwargs@[i]).0),
                    ) matches Some(object) && argument_gives(
                        host,
                        before,
                        tag.kwargs@[i].1,
                        keyword_conversion(),
                        Ok(object),
                    ))
            },
{
    let outcome: Shown = Ok(out);
    let names = keyword_texts(source, tag.kwargs@);
    let values = choose|values: Result<Seq<PyObject>, Fault>|
        {
            &&& #[trigger] arguments_give(
                host,
                before,
                located_elements(tag.kwargs@),
                keyword_conversion(),
                Seq::empty(),
                values,
            )
            &&& match values {
                Err(e) => after@ == before@ && outcome == Err::<Seq<char>, _>(e),
                Ok(values) => exists|opened: Context, inner: Context, text: Shown|
                    {
                        &&& opened@ == before@.inserted_all(names, values, false)
                        &&& #[trigger] template_renders(
                            host,
                            template,
                            template_location(tag.template_name),
                            opened,
                            inner,
                            text,
                        )
                        &&& if all_known(names, inner@) {
                            after@ == popped_in_turn(inner@, names) && outcome == text
                        } else {
                            after@ == inner@ && outcome == broken()
                        }
                    },
            }
        };
    assert(values is Ok);
    let objects = values->Ok_0;
    law_arguments_come_in_order(
        host,
        before,
        located_elements(tag.kwargs@),
        keyword_conversion(),
        Seq::empty(),
        objects,
    );
    let (opened, inner, text) = choose|opened: Context, inner: Context, text: Shown|
        {
            &&& opened@ == before@.inserted_all(names, objects, false)
            &&& #[trigger] template_renders(
                host,
                template,
                template_location(tag.template_name),
                opened,
                inner,
                text,
            )
            &&& if all_known(names, inner@) {
                after@ == popped_in_turn(inner@, names) && outcome == text
            } else {
                after@ == inner@ && outcome == broken()
            }
        };
    assert forall|name: Seq<char>| !names.contains(name) implies #[trigger] opened@.lookup(name)
        == before@.lookup(name) by {
        lemma_other_names_stay(before@, names, objects, name);
    }
    assert forall|i: int|
        0 <= i < tag.kwargs@.len() && (forall|j: int|
            i < j < tag.kwargs@.len() ==> span(source, (#[trigger] tag.kwargs@[j]).0) != span(
                source,
                tag.kwargs@[i].0,
            )) implies (opened@.lookup(span(source, (#[trigger] tag.kwargs@[i]).0)) matches Some(
        object,
    ) && argument_gives(
        host,
        before,
        tag.kwargs@[i].1,
        keyword_conversion(),
        Ok(object),
    )) by {
        assert forall|j: int| i < j < names.len() implies #[trigger] names[j] != names[i] by {
            assert(span(source, tag.kwargs@[j].0) != span(source, tag.kwargs@[i].0));
        }
        law_names_are_bound_to_their_values(before@, names, objects, false, i);
        assert(names[i] == span(source, tag.kwargs@[i].0));
        assert(located_elements(tag.kwargs@)[i] == tag.kwargs@[i].1);
        assert(objects[Seq::<PyObject>::empty().len() + i] == objects[i]);
    }
    assert(template_renders(
        host,
        template,
        template_location(tag.template_name),
        opened,
        inner,
        Ok(out),
    ));
}

proof fn lemma_other_names_stay(
    context: ContextView,
    names: Seq<Seq<char>>,
    values: Seq<PyObject>,
    name: Seq<char>,
)
    requires
        names.len() == values.len(),
        !names.contains(name),
    ensures
        context.inserted_all(names, values, false).lookup(name) == context.lookup(name),
    decreases names.len(),
{
    if names.len() > 0 {
        assert(names[names.len() - 1] != name);
        assert forall|i: int| 0 <= i < names.drop_last().len() implies names.drop_last()[i] != name by {
            assert(names.drop_last()[i] == names[i]);
        }
        lemma_other_names_stay(context, names.drop_last(), values.drop_last(), name);
    }
}

/// A tag whose template is to see nothing else has it rendered so, and no other tag has.
pub proof fn law_only_decides_what_is_seen<H: Host>(
    host: &H,
    source: Seq<char>,
    tag: Include,
    choice: TemplateChoice,
    before: Context,
    after: Context,
    out: Seq<char>,
)
    requires
        chosen_renders(host, source, tag, choice, before, after, Ok(out)),
    ensures
        exists|middle: Context, template: IncludeTemplate|
            {
                &&& #[trigger] template_found(
                    host,
                    tag,
                    choice,
                    before@,
                    middle@,
                    Ok(template),
                )
                &&& tag.only ==> after@ == middle@ && renders_alone(
                    host,
                    source,
                    tag,
                    template,
                    middle,
                    Ok(out),
                )
                &&& !tag.only ==> renders_with_keywords(
                    host,
                    source,
                    tag,
                    template,
                    middle,
                    after,
                    Ok(out),
                )
            },
{
}

/// A template that is found by a key is kept, and is what is found by this key from then on;
/// nothing else is forgotten.
pub proof fn law_found_templates_are_kept<H: Host>(
    host: &H,
    engine: PyObject,
    key: IncludeTemplateKey,
    before: ContextView,
    after: ContextView,
    template: TemplateRef,
    other: IncludeTemplateKeyView,
)
    requires
        template_known(host, engine, key, before, after, Ok(template)),
    ensures
        after.include_cache.contains_key(key@),
        after.include_cache[key@] == template,
        before.include_cache.contains_key(key@) ==> before.include_cache[key@] == template,
        !before.include_cache.contains_key(key@) ==> call_ensures(
            H::load_template,
            (host, engine, &key),
            Ok(template),
        ),
        other != key@ && before.include_cache.contains_key(other)
            ==> after.include_cache.contains_key(other) && after.include_cache[other]
            == before.include_cache[other],
        after.context == before.context,
{
}

/// A text names the template to be found; a number or a truth value names none.
pub proof fn law_texts_name_templates<H: Host>(
    host: &H,
    tag: Include,
    content: Content,
    choice: Result<TemplateChoiceView, Fault>,
)
    requires
        chosen(host, tag, content, choice),
    ensures
        content matches Content::String(s) ==> (choice matches Ok(TemplateChoiceView::Key(key))
            && (key matches IncludeTemplateKeyView::String(path) && (!(s is HtmlUnsafe) ==> path
            == s@.raw()))),
        content is Int || content is Float || content is Bool ==> (choice matches Err(
            PyRenderError::Raised { exception, at, .. },
        ) && exception is TypeError && at == template_location(tag.template_name)),
{
}

/// The name of a template is its path where it is relative, and else what it resolves to; where it
/// is a value that is missing, there is no such template.
pub proof fn law_names_resolve(
    tag: Include,
    resolved: Result<Option<Content>, PyRenderError<String>>,
    outcome: Result<Content, PyRenderError<String>>,
)
    requires
        template_content(tag, resolved, outcome),
    ensures
        tag.template_name matches IncludeTemplateName::Relative(relative) ==> (outcome matches Ok(
            Content::String(s),
        ) && s@.raw() == relative.path@),
        !(tag.template_name is Relative) ==> match resolved {
            Ok(Some(content)) => outcome == Ok::<_, PyRenderError<String>>(content),
            Ok(None) => outcome matches Err(e) && (e@ matches PyRenderError::Raised {
                exception,
                at,
                ..
            } && exception is TemplateDoesNotExist && at == template_location(tag.template_name)),
            Err(e) => outcome == Err::<Content, _>(e),
        },
{
}

} // verus!
