//! Which parts of a tag are rendered, and in which order.
use vstd::prelude::*;
use crate::dict::views;
use crate::integer::Integer;
use crate::lexer::tokens::AutoescapeEnabled;
use crate::parse::tree::{For, IfCondition, SimpleBlockTag, Tag, TokenTree};
use crate::render::condition::{answer, evaluates, resolves, Failures, Side};
use crate::render::content::Content;
use crate::render::context::{
    law_items_are_unpacked, law_names_are_bound_to_their_values, unpacked, Context, ContextView,
    LoopItem,
};
use crate::render::host::{nothing, Fault, Host, Shown};
use crate::render::leaves::{broken, call_concluded, tag_called, target_stored};
use crate::render::renderer::{
    block_concluded, can_end, ended, for_renders, inside_renders, item_in_turn, nodes_render,
    object_renders, ordered, part_renders, stage, tag_renders, text_renders, turn_begun, turns_render, Turns,
};
use crate::render::tags::{character_bound, loop_begun, names_bound, turn_ended, with_autoescape};
use crate::types::PyObject;

verus! {

/// A condition always gives the same answer.
pub open spec fn always_answers<H: Host>(
    host: &H,
    context: Context,
    condition: IfCondition<Integer>,
    said: Option<bool>,
) -> bool {
    forall|a: Option<bool>| #[trigger] answer(a) ==> (evaluates(host, context, condition, a) <==> a
        == said)
}

/// An if tag renders its first part just if its condition holds. Where it does not hold, or is a
/// value that is missing, it renders the other part, or nothing where there is none.
pub proof fn law_conditions_choose<H: Host>(
    host: &H,
    source: Seq<char>,
    condition: IfCondition<Integer>,
    truthy: Vec<TokenTree>,
    falsey: Option<Vec<TokenTree>>,
    before: Context,
    after: Context,
    outcome: Shown,
    said: Option<bool>,
)
    requires
        always_answers(host, before, condition, said),
    ensures
        said == Some(true) ==> tag_renders(
            host,
            source,
            Tag::If { condition, truthy, falsey },
            before,
            after,
            outcome,
        ) == nodes_render(host, source, truthy@, ""@, before, after, outcome),
        said != Some(true) && falsey is Some ==> tag_renders(
            host,
            source,
            Tag::If { condition, truthy, falsey },
            before,
            after,
            outcome,
        ) == nodes_render(host, source, falsey->0@, ""@, before, after, outcome),
        said != Some(true) && falsey is None ==> tag_renders(
            host,
            source,
            Tag::If { condition, truthy, falsey },
            before,
            after,
            outcome,
        ) == (after == before && outcome == Ok::<_, Fault>(""@)),
{
    reveal_with_fuel(tag_renders, 2);
    reveal_with_fuel(part_renders, 2);
    assert(answer(said));
    assert(evaluates(host, before, condition, said));
    let tag = Tag::If { condition, truthy, falsey };
    if tag_renders(host, source, tag, before, after, outcome) {
        let a = choose|a: Option<bool>|
            {
                &&& #[trigger] answer(a)
                &&& evaluates(host, before, condition, a)
                &&& if a == Some(true) {
                    nodes_render(host, source, truthy@, ""@, before, after, outcome)
                } else {
                    part_renders(host, source, falsey, before, after, outcome)
                }
            };
        assert(a == said);
    }
}

/// The nodes of an autoescape tag are rendered with escaping on or off, as it says; what is around
/// it is rendered as before.
pub proof fn law_escaping_is_switched<H: Host>(
    host: &H,
    source: Seq<char>,
    enabled: AutoescapeEnabled,
    nodes: Vec<TokenTree>,
    before: Context,
    after: Context,
    outcome: Shown,
)
    requires
        tag_renders(host, source, Tag::Autoescape { enabled, nodes }, before, after, outcome),
    ensures
        exists|entered: Context, middle: Context|
            {
                &&& #[trigger] nodes_render(
                    host,
                    source,
                    nodes@,
                    ""@,
                    entered,
                    middle,
                    outcome,
                )
                &&& entered@.autoescape <==> enabled is On
                &&& entered@.context == before@.context
                &&& outcome is Ok ==> after@.autoescape == before@.autoescape && after@.context
                    == middle@.context
            },
{
    reveal_with_fuel(tag_renders, 2);
    let (entered, middle) = choose|entered: Context, middle: Context|
        {
            &&& #[trigger] stage(entered, nothing())
            &&& #[trigger] stage(middle, outcome)
            &&& entered@ == with_autoescape(before@, enabled is On)
            &&& nodes_render(host, source, nodes@, ""@, entered, middle, outcome)
            &&& after@ == (if outcome is Ok {
                with_autoescape(middle@, before@.autoescape)
            } else {
                middle@
            })
        };
    assert(nodes_render(host, source, nodes@, ""@, entered, middle, outcome));
}

/// A loop that runs backwards has in each turn the item that it would have in the turn as far from
/// the end, if it ran forwards.
pub proof fn law_loops_run_backwards(
    tag: For,
    other: For,
    items: Seq<Result<PyObject, PyObject>>,
    text: Seq<char>,
    i: int,
)
    requires
        !tag.reversed,
        other.reversed,
    ensures
        0 <= i < items.len() ==> item_in_turn(tag, items, i) == items[i] && item_in_turn(
            other,
            items,
            i,
        ) == item_in_turn(tag, items, items.len() - 1 - i),
        ordered(tag, text) == text,
        ordered(other, text).len() == text.len(),
        0 <= i < text.len() ==> ordered(other, text)[i] == text[text.len() - 1 - i],
{
}

/// The texts of some turns, one after the other.
pub open spec fn put_together(parts: Seq<Seq<char>>) -> Seq<char>
    decreases parts.len(),
{
    if parts.len() == 0 {
        Seq::empty()
    } else {
        parts[0] + put_together(parts.drop_first())
    }
}

/// The body of a loop was rendered in a turn, with the names bound for this turn.
pub open spec fn rendered_in_turn<H: Host>(
    host: &H,
    source: Seq<char>,
    tag: For,
    turns: Turns,
    index: int,
    part: Seq<char>,
) -> bool {
    exists|before: Context, bound: Context, middle: Context, binding: Result<(), Fault>|
        {
            &&& #[trigger] turn_begun(host, tag, turns, index, before, bound, binding)
            &&& binding is Ok
            &&& #[trigger] nodes_render(host, source, tag.body@, ""@, bound, middle, Ok(part))
        }
}

/// Each part is what the body of a loop rendered in the turn at its place.
pub open spec fn rendered_in_turns<H: Host>(
    host: &H,
    source: Seq<char>,
    tag: For,
    turns: Turns,
    index: nat,
    parts: Seq<Seq<char>>,
) -> bool {
    forall|i: int|
        0 <= i < parts.len() ==> rendered_in_turn(
            host,
            source,
            tag,
            turns,
            index + i,
            #[trigger] parts[i],
        )
}

/// What a loop renders is what its body renders in each turn, in order, after what was there
/// before.
pub proof fn law_turns_render_in_order<H: Host>(
    host: &H,
    source: Seq<char>,
    tag: For,
    turns: Turns,
    index: nat,
    text: Seq<char>,
    before: Context,
    after: Context,
    all: Seq<char>,
) -> (parts: Seq<Seq<char>>)
    requires
        index <= turns.count(),
        turns_render(host, source, tag, turns, index, text, before, after, Ok(all)),
    ensures
        parts.len() == turns.count() - index,
        all == text + put_together(parts),
        rendered_in_turns(host, source, tag, turns, index, parts),
    decreases turns.count() - index,
{
    reveal_with_fuel(turns_render, 2);
    if index >= turns.count() {
        assert(text + put_together(Seq::empty()) =~= text);
        Seq::empty()
    } else {
        let outcome: Shown = Ok(all);
        let (bound, binding) = choose|bound: Context, binding: Result<(), Fault>|
            {
                &&& #[trigger] turn_begun(host, tag, turns, index as int, before, bound, binding)
                &&& match binding {
                    Err(e) => after == bound && outcome == Err::<Seq<char>, _>(e),
                    Ok(_) => exists|middle: Context, part: Shown|
                        {
                            &&& #[trigger] stage(middle, part)
                            &&& nodes_render(host, source, tag.body@, ""@, bound, middle, part)
                            &&& match part {
                                Err(e) => after == middle && outcome == Err::<Seq<char>, _>(e),
                                Ok(part) => if can_end(middle@) {
                                    exists|next: Context|
                                        {
                                            &&& #[trigger] ended(middle, next)
                                            &&& turns_render(
                                                host,
                                                source,
                                                tag,
                                                turns,
                                                index + 1,
                                                text + part,
                                                next,
                                                after,
                                                outcome,
                                            )
                                        }
                                } else {
                                    after == middle && outcome
                                        == broken()
                                },
                            }
                        },
                }
            };
        assert(binding is Ok);
        let (middle, shown) = choose|middle: Context, part: Shown|
            {
                &&& #[trigger] stage(middle, part)
                &&& nodes_render(host, source, tag.body@, ""@, bound, middle, part)
                &&& match part {
                    Err(e) => after == middle && outcome == Err::<Seq<char>, _>(e),
                    Ok(part) => if can_end(middle@) {
                        exists|next: Context|
                            {
                                &&& #[trigger] ended(middle, next)
                                &&& turns_render(
                                    host,
                                    source,
                                    tag,
                                    turns,
                                    index + 1,
                                    text + part,
                                    next,
                                    after,
                                    outcome,
                                )
                            }
                    } else {
                        after == middle && outcome == broken()
                    },
                }
            };
        let part = shown->Ok_0;
        let next = choose|next: Context|
            {
                &&& #[trigger] ended(middle, next)
                &&& turns_render(
                    host,
                    source,
                    tag,
                    turns,
                    index + 1,
                    text + part,
                    next,
                    after,
                    outcome,
                )
            };
        let rest = law_turns_render_in_order(
            host,
            source,
            tag,
            turns,
            index + 1,
            text + part,
            next,
            after,
            all,
        );
        let parts = seq![part] + rest;
        assert(parts.drop_first() =~= rest);
        assert(text + part + put_together(rest) =~= text + put_together(parts));
        assert forall|i: int| 0 <= i < parts.len() implies rendered_in_turn(
            host,
            source,
            tag,
            turns,
            index + i,
            #[trigger] parts[i],
        ) by {
            if i == 0 {
                assert(turn_begun(host, tag, turns, index as int, before, bound, binding));
                assert(nodes_render(host, source, tag.body@, ""@, bound, middle, Ok(part)));
            } else {
                assert(parts[i] == rest[i - 1]);
                assert(index + i == (index + 1) + (i - 1));
            }
        }
        parts
    }
}

/// A loop goes through what stands after `in`: the items of a Python object, the characters of a
/// text; and where this is a value that is missing, it renders what follows `empty`.
pub proof fn law_loops_choose<H: Host>(
    host: &H,
    source: Seq<char>,
    tag: For,
    before: Context,
    after: Context,
    outcome: Shown,
    side: Side,
)
    requires
        forall|s: Side| #[trigger]
            resolves(host, tag.iterable.iterable, Failures::Raise, before, s) <==> s == side,
    ensures
        for_renders(host, source, tag, before, after, outcome) == (match side {
            Err(e) => after == before && outcome == Err::<Seq<char>, _>(e@),
            Ok(None) => match tag.empty {
                Some(nodes) => nodes_render(host, source, nodes@, ""@, before, after, outcome),
                None => after == before && outcome == Ok::<_, Fault>(""@),
            },
            Ok(Some(Content::Py(object))) => object_renders(
                host,
                source,
                tag,
                object,
                before,
                after,
                outcome,
            ),
            Ok(Some(Content::String(s))) => text_renders(
                host,
                source,
                tag,
                s@.raw(),
                before,
                after,
                outcome,
            ),
            Ok(Some(_)) => after == before && outcome == broken(),
        }),
{
    reveal_with_fuel(for_renders, 2);
    reveal_with_fuel(part_renders, 2);
    assert(resolves(host, tag.iterable.iterable, Failures::Raise, before, side));
}

/// In each turn the names of a loop are bound to what the item of this turn holds, in order, and a
/// single name to the item itself.
pub proof fn law_names_are_bound_in_each_turn(
    tag: For,
    item: LoopItem,
    index: int,
    before: ContextView,
    after: ContextView,
    outcome: Result<(), Fault>,
    i: int,
)
    requires
        names_bound(tag, Ok(item), index, before, after, outcome),
        outcome is Ok,
        tag.variables.names@.len() <= usize::MAX,
        0 <= i < tag.variables.names@.len(),
        forall|j: int|
            i < j < tag.variables.names@.len() ==> (#[trigger] tag.variables.names@[j])@
                != tag.variables.names@[i]@,
    ensures
        after.lookup(tag.variables.names@[i]@) == Some(
            if tag.variables.names@.len() == 1 {
                item.object
            } else {
                item.items->Ok_0@[i]
            },
        ),
        tag.variables.names@.len() != 1 ==> item.items is Ok && item.items->Ok_0@.len()
            == tag.variables.names@.len(),
{
    let names = views(tag.variables.names@);
    let base = if index == 0 {
        before.with_names(names.to_set())
    } else {
        before
    };
    law_items_are_unpacked(names.len() as int, tag.variables.at, item, tag.iterable.at);
    let values = unpacked(names.len() as int, tag.variables.at, item, tag.iterable.at)->Ok_0;
    assert forall|j: int| i < j < names.len() implies #[trigger] names[j] != names[i] by {
        assert(tag.variables.names@[j]@ != tag.variables.names@[i]@);
    }
    law_names_are_bound_to_their_values(base, names, values, index != 0, i);
    assert(names[i] == tag.variables.names@[i]@);
    assert(values[i] == if names.len() == 1 {
        item.object
    } else {
        item.items->Ok_0@[i]
    });
}

/// In each turn of a loop over text the name of the loop is bound to the character of this turn.
pub proof fn law_characters_are_bound_in_each_turn(
    tag: For,
    character: PyObject,
    index: int,
    before: ContextView,
    after: ContextView,
    other: Seq<char>,
)
    requires
        character_bound(tag, character, index, before, after),
    ensures
        after.lookup(tag.variables.names@[0]@) == Some(character),
        other != tag.variables.names@[0]@ ==> after.lookup(other) == before.lookup(other),
        after.loops == before.loops,
{
}

/// A loop that begins is the innermost one, with none of its items done; a turn that ends is one
/// more item done of the innermost loop alone.
pub proof fn law_turns_are_counted(
    count: int,
    before: ContextView,
    begun: ContextView,
    running: ContextView,
    next: ContextView,
)
    requires
        loop_begun(count, before, begun),
        turn_ended(running, next),
        running.loops.len() > 0,
    ensures
        begun.loops.len() == before.loops.len() + 1,
        begun.loops.last().done() == 0,
        begun.loops.last().length() == count,
        begun.loops.drop_last() == before.loops,
        begun.context == before.context,
        next.loops.last().done() == running.loops.last().done() + 1,
        next.loops.last().length() == running.loops.last().length(),
        next.loops.drop_last() == running.loops.drop_last(),
        next.context == running.context,
{
    assert(begun.loops.drop_last() =~= before.loops);
    assert(next.loops.drop_last() =~= running.loops.drop_last());
}

/// A tag around a block renders its nodes, and hands what they render to its function before its
/// arguments; what the function gives is written or stored.
pub proof fn law_blocks_hand_their_nodes_over<H: Host>(
    host: &H,
    source: Seq<char>,
    tag: SimpleBlockTag,
    args: Seq<PyObject>,
    kwargs: Seq<(String, PyObject)>,
    before: Context,
    after: Context,
    out: Seq<char>,
)
    requires
        inside_renders(host, source, tag, args, kwargs, before, after, Ok(out)),
    ensures
        exists|
            middle: Context,
            text: Seq<char>,
            held: String,
            object: PyObject,
            last: Context,
            given: Seq<char>,
        |
            {
                &&& #[trigger] nodes_render(
                    host,
                    source,
                    tag.nodes@,
                    ""@,
                    before,
                    middle,
                    Ok(text),
                )
                &&& #[trigger] call_ensures(H::string, (host, &held), object)
                &&& held@ == text
                &&& #[trigger] tag_called(
                    host,
                    tag.func,
                    tag.takes_context,
                    tag.at,
                    seq![object] + args,
                    kwargs,
                    middle,
                    last,
                    Ok(given),
                )
                &&& target_stored(host, tag.target_var, given, last@, after@, Ok(out))
            },
{
    reveal_with_fuel(inside_renders, 2);
    let outcome: Shown = Ok(out);
    let (middle, content) = choose|middle: Context, content: Shown|
        {
            &&& #[trigger] stage(middle, content)
            &&& nodes_render(host, source, tag.nodes@, ""@, before, middle, content)
            &&& match content {
                Err(e) => after == middle && outcome == Err::<Seq<char>, _>(e),
                Ok(text) => block_concluded(
                    host,
                    tag,
                    args,
                    kwargs,
                    text,
                    middle,
                    after,
                    outcome,
                ),
            }
        };
    assert(content is Ok);
    let text = content->Ok_0;
    let (held, object, last, called) = choose|
        held: String,
        object: PyObject,
        last: Context,
        called: Shown,
    |
        {
            &&& held@ == text
            &&& #[trigger] call_ensures(H::string, (host, &held), object)
            &&& #[trigger] tag_called(
                host,
                tag.func,
                tag.takes_context,
                tag.at,
                seq![object] + args,
                kwargs,
                middle,
                last,
                called,
            )
            &&& call_concluded(host, tag.target_var, called, last@, after@, outcome)
        };
    assert(called is Ok);
    assert(nodes_render(host, source, tag.nodes@, ""@, before, middle, Ok(text)));
    assert(tag_called(
        host,
        tag.func,
        tag.takes_context,
        tag.at,
        seq![object] + args,
        kwargs,
        middle,
        last,
        Ok(called->Ok_0),
    ));
}

/// What Python raises while it iterates is told of where the loop says what it goes through, and
/// nothing is bound.
pub proof fn law_interrupted_loops_are_told_of<H: Host>(
    host: &H,
    source: Seq<char>,
    tag: For,
    object: PyObject,
    error: PyObject,
    index: int,
    before: Context,
    after: Context,
    binding: Result<(), Fault>,
    outcome: Shown,
)
    requires
        names_bound(tag, Err(error), index, before@, after@, binding),
        object_renders(host, source, tag, object, before, after, outcome),
        forall|items: Result<Vec<Result<PyObject, PyObject>>, PyObject>| #[trigger]
            call_ensures(H::iterate, (host, object), items) ==> items == Err::<
                Vec<Result<PyObject, PyObject>>,
                _,
            >(error),
    ensures
        after@ == before@,
        binding matches Err(Fault::Annotated { error: raised, at, .. }) && raised == error && at
            == tag.iterable.at,
        outcome matches Err(Fault::Annotated { error: raised, at, .. }) && raised == error && at
            == tag.iterable.at,
{
    reveal_with_fuel(object_renders, 2);
}

} // verus!
