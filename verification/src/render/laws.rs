//! What holds of rendering as a whole.
use vstd::prelude::*;
use crate::dict::views;
use crate::lexer::tokens::{AutoescapeEnabled, TemplateTag};
use crate::parse::tree::{Comment, For, Include, Tag, TokenTree};
use crate::render::context::{
    lemma_first_turn, lemma_later_turn, same_stacks, unpacked, Context, ContextView, LoopItem,
};
use crate::render::host::{nothing, Fault, Host, Shown};
use crate::render::inclusion::include_renders;
use crate::render::renderer::{
    can_end, ended, item_given, item_in_turn, loop_renders, node_renders, nodes_render, stage,
    started, tag_renders, turn_begun, turns_render, Turns,
};
use crate::render::tags::{finished, names_bound};
use crate::types::PyObject;

verus! {

/// Nodes render one after the other: what stands before the second part is rendered first, and the
/// second part goes on from there.
pub proof fn law_nodes_render_in_turn<H: Host>(
    host: &H,
    source: Seq<char>,
    first: Seq<TokenTree>,
    second: Seq<TokenTree>,
    text: Seq<char>,
    before: Context,
    middle: Context,
    part: Seq<char>,
    after: Context,
    outcome: Shown,
)
    requires
        nodes_render(host, source, first, text, before, middle, Ok(part)),
        nodes_render(host, source, second, part, middle, after, outcome),
    ensures
        nodes_render(host, source, first + second, text, before, after, outcome),
    decreases first.len(),
{
    if first.len() == 0 {
        assert(first + second =~= second);
    } else {
        let (reached, shown) = choose|reached: Context, shown: Shown|
            {
                &&& #[trigger] stage(reached, shown)
                &&& node_renders(host, source, first[0], before, reached, shown)
                &&& match shown {
                    Err(e) => middle == reached && Ok::<_, Fault>(part) == Err::<Seq<char>, _>(e),
                    Ok(more) => nodes_render(
                        host,
                        source,
                        first.drop_first(),
                        text + more,
                        reached,
                        middle,
                        Ok(part),
                    ),
                }
            };
        law_nodes_render_in_turn(
            host,
            source,
            first.drop_first(),
            second,
            text + shown->Ok_0,
            reached,
            middle,
            part,
            after,
            outcome,
        );
        assert((first + second)[0] == first[0]);
        assert((first + second).drop_first() =~= first.drop_first() + second);
        assert(stage(reached, shown));
    }
}

/// A node that fails is the last one that is rendered.
pub proof fn law_first_error_ends_rendering<H: Host>(
    host: &H,
    source: Seq<char>,
    first: Seq<TokenTree>,
    second: Seq<TokenTree>,
    text: Seq<char>,
    before: Context,
    after: Context,
    fault: Fault,
)
    requires
        nodes_render(host, source, first, text, before, after, Err(fault)),
    ensures
        nodes_render(host, source, first + second, text, before, after, Err(fault)),
    decreases first.len(),
{
    let failed: Shown = Err(fault);
    let (reached, shown) = choose|reached: Context, shown: Shown|
        {
            &&& #[trigger] stage(reached, shown)
            &&& node_renders(host, source, first[0], before, reached, shown)
            &&& match shown {
                Err(e) => after == reached && failed == Err::<Seq<char>, _>(e),
                Ok(more) => nodes_render(
                    host,
                    source,
                    first.drop_first(),
                    text + more,
                    reached,
                    after,
                    failed,
                ),
            }
        };
    assert((first + second)[0] == first[0]);
    assert((first + second).drop_first() =~= first.drop_first() + second);
    if let Ok(more) = shown {
        law_first_error_ends_rendering(
            host,
            source,
            first.drop_first(),
            second,
            text + more,
            reached,
            after,
            fault,
        );
    }
    assert(stage(reached, shown));
}

/// What was written stays: rendering more nodes only adds to it.
pub proof fn law_text_only_grows<H: Host>(
    host: &H,
    source: Seq<char>,
    nodes: Seq<TokenTree>,
    text: Seq<char>,
    before: Context,
    after: Context,
    all: Seq<char>,
)
    requires
        nodes_render(host, source, nodes, text, before, after, Ok(all)),
    ensures
        text.is_prefix_of(all),
    decreases nodes.len(),
{
    if nodes.len() > 0 {
        let (reached, shown) = choose|reached: Context, shown: Shown|
            {
                &&& #[trigger] stage(reached, shown)
                &&& node_renders(host, source, nodes[0], before, reached, shown)
                &&& match shown {
                    Err(e) => after == reached && Ok::<_, Fault>(all) == Err::<Seq<char>, _>(e),
                    Ok(more) => nodes_render(
                        host,
                        source,
                        nodes.drop_first(),
                        text + more,
                        reached,
                        after,
                        Ok(all),
                    ),
                }
            };
        let more = shown->Ok_0;
        law_text_only_grows(
            host,
            source,
            nodes.drop_first(),
            text + more,
            reached,
            after,
            all,
        );
        assert(text =~= (text + more).take(text.len() as int));
        assert(all.take(text.len() as int) =~= all.take((text + more).len() as int).take(
            text.len() as int,
        ));
    }
}

/// Loading a library and commenting leave nothing behind, and a tag that stands for a delimiter
/// leaves the delimiter behind; none of them touches the context.
pub proof fn law_fixed_tags_keep_context<H: Host>(
    host: &H,
    source: Seq<char>,
    tag: Tag,
    before: Context,
    after: Context,
    outcome: Shown,
)
    requires
        tag is Load || tag is Comment || tag is TemplateTag,
        tag_renders(host, source, tag, before, after, outcome),
    ensures
        after == before,
        outcome == (match tag {
            Tag::TemplateTag(template_tag) => Ok(template_tag.replacement()),
            _ => nothing(),
        }),
{
}

/// Escaping is what it was once the nodes with other escaping are rendered.
pub proof fn law_autoescape_ends_with_its_nodes<H: Host>(
    host: &H,
    source: Seq<char>,
    enabled: AutoescapeEnabled,
    nodes: Vec<TokenTree>,
    before: Context,
    after: Context,
    text: Seq<char>,
)
    requires
        tag_renders(host, source, Tag::Autoescape { enabled, nodes }, before, after, Ok(text)),
    ensures
        after@.autoescape == before@.autoescape,
{
}

/// A template that sees nothing but the keywords of its tag changes nothing in the context of the
/// tag: at most the template itself is kept there.
pub proof fn law_only_keeps_context<H: Host>(
    host: &H,
    source: Seq<char>,
    tag: Include,
    before: Context,
    after: Context,
    outcome: Shown,
)
    requires
        tag.only,
        include_renders(host, source, tag, before, after, outcome),
    ensures
        after@ == (ContextView { include_cache: after@.include_cache, ..before@ }),
{
}

/// A context holds the loops, the names and the values of another one, and escapes as it does.
pub open spec fn kept(before: ContextView, after: ContextView) -> bool {
    &&& after.loops == before.loops
    &&& after.names == before.names
    &&& same_stacks(after, before)
    &&& after.request == before.request
    &&& after.autoescape == before.autoescape
}

/// Nodes keep the context whenever they are rendered without an error.
pub open spec fn nodes_keep<H: Host>(host: &H, source: Seq<char>, nodes: Seq<TokenTree>) -> bool {
    forall|text: Seq<char>, before: Context, after: Context, all: Seq<char>| #[trigger]
        nodes_render(host, source, nodes, text, before, after, Ok(all)) ==> kept(before@, after@)
}

/// Nodes that are not tags leave the context as it is.
pub proof fn law_values_keep_context<H: Host>(
    host: &H,
    source: Seq<char>,
    nodes: Seq<TokenTree>,
    text: Seq<char>,
    before: Context,
    after: Context,
    outcome: Shown,
)
    requires
        forall|i: int| 0 <= i < nodes.len() ==> !((#[trigger] nodes[i]) is Tag),
        nodes_render(host, source, nodes, text, before, after, outcome),
    ensures
        after == before,
    decreases nodes.len(),
{
    if nodes.len() > 0 {
        let (reached, shown) = choose|reached: Context, shown: Shown|
            {
                &&& #[trigger] stage(reached, shown)
                &&& node_renders(host, source, nodes[0], before, reached, shown)
                &&& match shown {
                    Err(e) => after == reached && outcome == Err::<Seq<char>, _>(e),
                    Ok(more) => nodes_render(
                        host,
                        source,
                        nodes.drop_first(),
                        text + more,
                        reached,
                        after,
                        outcome,
                    ),
                }
            };
        assert(!(nodes[0] is Tag));
        if let Ok(more) = shown {
            assert forall|i: int| 0 <= i < nodes.drop_first().len() implies !((
            #[trigger] nodes.drop_first()[i]) is Tag) by {
                assert(nodes.drop_first()[i] == nodes[i + 1]);
            }
            law_values_keep_context(
                host,
                source,
                nodes.drop_first(),
                text + more,
                reached,
                after,
                outcome,
            );
        }
    }
}

/// The context in a for loop before turn number `index`, for a context before the loop.
spec fn in_loop(
    base: ContextView,
    names: Seq<Seq<char>>,
    index: int,
    context: ContextView,
) -> bool {
    &&& context.loops.len() == base.loops.len() + 1
    &&& context.loops.drop_last() == base.loops
    &&& context.request == base.request
    &&& context.autoescape == base.autoescape
    &&& if index == 0 {
        context.names == base.names && same_stacks(context, base)
    } else {
        &&& context.names == base.names.push(names.to_set())
        &&& forall|key: Seq<char>|
            {
                &&& names.contains(key) ==> (#[trigger] context.stack(key)).len() > 0
                    && context.stack(key).drop_last() == base.stack(key)
                &&& !names.contains(key) ==> context.stack(key) == base.stack(key)
            }
    }
}

proof fn lemma_inserting_keeps_the_rest(
    context: ContextView,
    names: Seq<Seq<char>>,
    values: Seq<PyObject>,
    replace: bool,
)
    ensures
        ({
            let after = context.inserted_all(names, values, replace);
            &&& after.loops == context.loops
            &&& after.names == context.names
            &&& after.request == context.request
            &&& after.autoescape == context.autoescape
        }),
    decreases names.len(),
{
    if names.len() > 0 {
        lemma_inserting_keeps_the_rest(context, names.drop_last(), values.drop_last(), replace);
    }
}

proof fn lemma_names_are_bound(
    base: ContextView,
    names: Seq<Seq<char>>,
    values: Seq<PyObject>,
    index: int,
    context: ContextView,
)
    requires
        names.no_duplicates(),
        names.len() == values.len(),
        index >= 0,
        in_loop(base, names, index, context),
    ensures
        ({
            let named = if index == 0 {
                context.with_names(names.to_set())
            } else {
                context
            };
            in_loop(base, names, index + 1, named.inserted_all(names, values, index != 0))
        }),
{
    let named = if index == 0 {
        context.with_names(names.to_set())
    } else {
        context
    };
    let after = named.inserted_all(names, values, index != 0);
    lemma_inserting_keeps_the_rest(named, names, values, index != 0);
    assert forall|key: Seq<char>| true implies {
        &&& names.contains(key) ==> (#[trigger] after.stack(key)).len() > 0 && after.stack(
            key,
        ).drop_last() == base.stack(key)
        &&& !names.contains(key) ==> after.stack(key) == base.stack(key)
    } by {
        assert(named.stack(key) == context.stack(key));
        if index == 0 {
            assert(context.stack(key) == base.stack(key));
            lemma_first_turn(named, names, values, key);
        } else {
            assert(names.contains(key) ==> context.stack(key).len() > 0);
            lemma_later_turn(named, names, values, key);
        }
    }
}

proof fn lemma_turn_is_begun<H: Host>(
    host: &H,
    base: ContextView,
    tag: For,
    turns: Turns,
    index: nat,
    before: Context,
    bound: Context,
)
    requires
        views(tag.variables.names@).no_duplicates(),
        turns is Characters ==> tag.variables.names@.len() == 1,
        turn_begun(host, tag, turns, index as int, before, bound, Ok(())),
        in_loop(base, views(tag.variables.names@), index as int, before@),
    ensures
        in_loop(base, views(tag.variables.names@), index as int + 1, bound@),
{
    let names = views(tag.variables.names@);
    match turns {
        Turns::Items(items) => {
            let object = item_in_turn(tag, items@, index as int)->Ok_0;
            let item = choose|item: LoopItem|
                {
                    &&& #[trigger] item_given(host, tag, object, item)
                    &&& names_bound(tag, Ok(item), index as int, before@, bound@, Ok(()))
                };
            let values = unpacked(
                names.len() as int,
                tag.variables.at,
                item,
                tag.iterable.at,
            )->Ok_0;
            lemma_names_are_bound(base, names, values, index as int, before@);
        },
        Turns::Characters(characters) => {
            let name = tag.variables.names@[0]@;
            assert(names =~= seq![name]);
            assert(names.to_set() =~= set![name]) by {
                assert forall|key: Seq<char>| names.to_set().contains(key) == set![name].contains(
                    key,
                ) by {
                    assert(names[0] == name);
                }
            }
            let named = if index == 0 {
                before@.with_names(set![name])
            } else {
                before@
            };
            let character = choose|character: PyObject|
                {
                    &&& #[trigger] call_ensures(
                        H::character,
                        (host, characters@[index as int]),
                        character,
                    )
                    &&& bound@ == named.inserted(name, character, index != 0)
                };
            let values = seq![character];
            reveal_with_fuel(ContextView::inserted_all, 2);
            assert(names.drop_last() =~= Seq::empty());
            assert(values.drop_last() =~= Seq::empty());
            assert(named.inserted_all(names, values, index != 0) == named.inserted(
                name,
                character,
                index != 0,
            ));
            lemma_names_are_bound(base, names, values, index as int, before@);
        },
    }
}

proof fn lemma_loop_is_finished(base: ContextView, names: Seq<Seq<char>>, context: ContextView)
    requires
        in_loop(base, names, 1, context),
    ensures
        kept(base, finished(context)),
{
    let after = finished(context);
    assert(context.names.last() == names.to_set());
    assert(after.names =~= base.names);
    assert forall|key: Seq<char>| #[trigger] after.stack(key) == base.stack(key) by {
        assert(names.to_set().contains(key) == names.contains(key));
        let values = context.stack(key);
        assert(names.contains(key) ==> values.len() > 0);
    }
}

proof fn lemma_turns_keep<H: Host>(
    host: &H,
    source: Seq<char>,
    base: ContextView,
    tag: For,
    turns: Turns,
    index: nat,
    text: Seq<char>,
    before: Context,
    after: Context,
    all: Seq<char>,
)
    requires
        views(tag.variables.names@).no_duplicates(),
        turns is Characters ==> tag.variables.names@.len() == 1,
        turns.count() > 0,
        index <= turns.count(),
        nodes_keep(host, source, tag.body@),
        in_loop(base, views(tag.variables.names@), index as int, before@),
        turns_render(host, source, tag, turns, index, text, before, after, Ok(all)),
    ensures
        kept(base, after@),
    decreases turns.count() - index,
{
    let names = views(tag.variables.names@);
    let outcome: Shown = Ok(all);
    if index >= turns.count() {
        assert(in_loop(base, names, 1, before@));
        lemma_loop_is_finished(base, names, before@);
    } else {
        let (bound, binding) = choose|bound: Context, binding: Result<(), Fault>|
            {
                &&& #[trigger] turn_begun(host, tag, turns, index as int, before, bound, binding)
                &&& match binding {
                    Err(e) => after == bound && outcome == Err::<Seq<char>, _>(e),
                    Ok(_) => exists|middle: Context, part: Shown|
                        {
                            &&& #[trigger] stage(middle, part)
                            &&& nodes_render(host, source, tag.body@, ""@, bound, middle, part)
                            &&& match part {
                                Err(e) => after == middle && outcome == Err::<Seq<char>, _>(e),
                                Ok(part) => can_end(middle@) && exists|next: Context|
                                    {
                                        &&& #[trigger] ended(middle, next)
                                        &&& turns_render(
                                            host,
                                            source,
                                            tag,
                                            turns,
                                            index + 1,
                                            text + part,
                                            next,
                                            after,
                                            outcome,
                                        )
                                    },
                            }
                        },
                }
            };
        lemma_turn_is_begun(host, base, tag, turns, index, before, bound);
        let (middle, part) = choose|middle: Context, part: Shown|
            {
                &&& #[trigger] stage(middle, part)
                &&& nodes_render(host, source, tag.body@, ""@, bound, middle, part)
                &&& match part {
                    Err(e) => after == middle && outcome == Err::<Seq<char>, _>(e),
                    Ok(part) => can_end(middle@) && exists|next: Context|
                        {
                            &&& #[trigger] ended(middle, next)
                            &&& turns_render(
                                host,
                                source,
                                tag,
                                turns,
                                index + 1,
                                text + part,
                                next,
                                after,
                                outcome,
                            )
                        },
                }
            };
        let part = part->Ok_0;
        assert(kept(bound@, middle@));
        let next = choose|next: Context|
            {
                &&& #[trigger] ended(middle, next)
                &&& turns_render(
                    host,
                    source,
                    tag,
                    turns,
                    index + 1,
                    text + part,
                    next,
                    after,
                    outcome,
                )
            };
        assert(in_loop(base, names, index as int + 1, next@)) by {
            assert(next@.loops.drop_last() =~= middle@.loops.drop_last());
            assert forall|key: Seq<char>| true implies #[trigger] next@.stack(key) == bound@.stack(
                key,
            ) by {
                assert(middle@.stack(key) == bound@.stack(key));
            }
        }
        lemma_turns_keep(
            host,
            source,
            base,
            tag,
            turns,
            index + 1,
            text + part,
            next,
            after,
            all,
        );
    }
}

/// A for loop with different names, one turn or more and a body that keeps the context keeps the
/// context as well: the loop, its names and their values are gone once it has been rendered.
pub proof fn law_for_loop_keeps_context<H: Host>(
    host: &H,
    source: Seq<char>,
    tag: For,
    turns: Turns,
    before: Context,
    after: Context,
    text: Seq<char>,
)
    requires
        views(tag.variables.names@).no_duplicates(),
        turns is Characters ==> tag.variables.names@.len() == 1,
        turns.count() > 0,
        nodes_keep(host, source, tag.body@),
        loop_renders(host, source, tag, turns, before, after, Ok(text)),
    ensures
        kept(before@, after@),
{
    let outcome: Shown = Ok(text);
    let begun = choose|begun: Context|
        {
            &&& #[trigger] started(turns, before, begun)
            &&& turns_render(host, source, tag, turns, 0, ""@, begun, after, outcome)
        };
    assert(begun@.loops.drop_last() =~= before@.loops);
    assert(same_stacks(begun@, before@));
    lemma_turns_keep(host, source, before@, tag, turns, 0, ""@, begun, after, text);
}

} // verus!
