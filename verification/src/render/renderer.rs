//! Rendering the nodes of a template.
use vstd::prelude::*;
use vstd::string::*;
use crate::parse::tree::{For, SimpleBlockTag, Tag, TokenTree};
use crate::render::condition::{
    answer, evaluates, resolve_element, resolves, Failures, Side,
};
use crate::render::content::Content;
use crate::render::context::{unpack_error, Context, ContextView, LoopItem};
use crate::render::errors::PyRenderError;
use crate::render::host::{
    arguments_give, arguments_view, keywords_give, keywords_view, make_arguments, make_keywords,
    nothing, shown, Conversion, Fault, Host, Rendered, Shown,
};
use crate::render::inclusion::include_renders;
use crate::render::leaves::{
    broken, call_concluded, call_tag, conclude_tag, csrf_renders, cycle_renders, firstof_renders,
    lorem_renders, now_renders, simple_tag_renders, tag_called, url_renders,
};
use crate::render::tags::{
    block_arguments, character_bound, enter_autoescape, finished, leave_autoescape, loop_begun,
    names_bound, turn_ended, with_autoescape, ForPlan,
};
use crate::text::TemplateString;
use crate::types::PyObject;

verus! {

/// Whatever rendering a part leaves behind is left behind.
pub open spec fn stage(after: Context, outcome: Shown) -> bool {
    true
}

/// What becomes of nodes that follow some text, and of the context: the first one that is an error
/// ends it.
pub open spec fn nodes_render<H: Host>(
    host: &H,
    source: Seq<char>,
    nodes: Seq<TokenTree>,
    text: Seq<char>,
    before: Context,
    after: Context,
    outcome: Shown,
) -> bool
    decreases nodes, 0int, 0int,
{
    if nodes.len() == 0 {
        after == before && outcome == Ok::<_, Fault>(text)
    } else {
        exists|middle: Context, first: Shown|
            {
                &&& #[trigger] stage(middle, first)
                &&& node_renders(host, source, nodes[0], before, middle, first)
                &&& match first {
                    Err(e) => after == middle && outcome == Err::<Seq<char>, _>(e),
                    Ok(part) => nodes_render(
                        host,
                        source,
                        nodes.drop_first(),
                        text + part,
                        middle,
                        after,
                        outcome,
                    ),
                }
            }
    }
}

/// What becomes of a node, and of the context.
pub open spec fn node_renders<H: Host>(
    host: &H,
    source: Seq<char>,
    node: TokenTree,
    before: Context,
    after: Context,
    outcome: Shown,
) -> bool
    decreases node, 0int, 0int,
{
    match node {
        TokenTree::Tag(tag) => tag_renders(host, source, tag, before, after, outcome),
        _ => after == before && leaf_renders(host, node, before, outcome),
    }
}

/// What becomes of a node that is not a tag.
pub open spec fn leaf_renders<H: Host>(
    host: &H,
    node: TokenTree,
    context: Context,
    outcome: Shown,
) -> bool {
    exists|rendered: Rendered|
        {
            &&& #[trigger] call_ensures(H::render_node, (host, &node, &context), rendered)
            &&& outcome == shown(rendered)
        }
}

/// What becomes of a part that may be missing, and of the context.
pub open spec fn part_renders<H: Host>(
    host: &H,
    source: Seq<char>,
    part: Option<Vec<TokenTree>>,
    before: Context,
    after: Context,
    outcome: Shown,
) -> bool
    decreases part, 0int, 0int,
{
    match part {
        Some(nodes) => nodes_render(host, source, nodes@, ""@, before, after, outcome),
        None => after == before && outcome == nothing(),
    }
}

/// What becomes of a tag, and of the context.
pub open spec fn tag_renders<H: Host>(
    host: &H,
    source: Seq<char>,
    tag: Tag,
    before: Context,
    after: Context,
    outcome: Shown,
) -> bool
    decreases tag, 0int, 0int,
{
    match tag {
        Tag::Cycle(cycle) => cycle_renders(host, cycle, before, after, outcome),
        Tag::Autoescape { enabled, nodes } => exists|entered: Context, middle: Context|
            {
                &&& #[trigger] stage(entered, nothing())
                &&& #[trigger] stage(middle, outcome)
                &&& entered@ == with_autoescape(before@, enabled is On)
                &&& nodes_render(host, source, nodes@, ""@, entered, middle, outcome)
                &&& after@ == (if outcome is Ok {
                    with_autoescape(middle@, before@.autoescape)
                } else {
                    middle@
                })
            },
        Tag::If { condition, truthy, falsey } => exists|said: Option<bool>|
            {
                &&& #[trigger] answer(said)
                &&& evaluates(host, before, condition, said)
                &&& if said == Some(true) {
                    nodes_render(host, source, truthy@, ""@, before, after, outcome)
                } else {
                    part_renders(host, source, falsey, before, after, outcome)
                }
            },
        Tag::For(tag) => for_renders(host, source, tag, before, after, outcome),
        Tag::Include(tag) => include_renders(host, source, tag, before, after, outcome),
        Tag::SimpleTag(tag) => simple_tag_renders(host, tag, before, after, outcome),
        Tag::SimpleBlockTag(tag) => block_renders(host, source, tag, before, after, outcome),
        Tag::Url(tag) => url_renders(host, tag, before, after, outcome),
        Tag::CsrfToken(_) => after == before && csrf_renders(host, before@, outcome),
        Tag::Lorem(lorem) => after == before && lorem_renders(host, lorem, before, outcome),
        Tag::Now(now) => now_renders(host, source, now, before@, after@, outcome),
        Tag::FirstOf(tag) => firstof_renders(host, tag, before, after, outcome),
        Tag::Load | Tag::Comment(_) => after == before && outcome == nothing(),
        Tag::TemplateTag(template_tag) => after == before && outcome == Ok::<_, Fault>(
            template_tag.replacement(),
        ),
    }
}

/// What a for loop goes through, turn by turn.
#[derive(Debug)]
pub enum Turns {
    /// The items that iterating gave.
    Items(Vec<Result<PyObject, PyObject>>),
    /// Characters, in the order of the loop.
    Characters(Vec<char>),
}

impl Turns {
    /// The number of turns.
    pub open spec fn count(self) -> nat {
        match self {
            Turns::Items(items) => items@.len(),
            Turns::Characters(characters) => characters@.len(),
        }
    }

    /// The number of turns.
    pub fn len(&self) -> (r: usize)
        ensures
            r == self.count(),
    {
        match self {
            Turns::Items(items) => items.len(),
            Turns::Characters(characters) => characters.len(),
        }
    }
}

/// The item of a loop for turn number `index`.
pub open spec fn item_in_turn(
    tag: For,
    items: Seq<Result<PyObject, PyObject>>,
    index: int,
) -> Result<PyObject, PyObject> {
    if tag.reversed {
        items[items.len() - 1 - index]
    } else {
        items[index]
    }
}

/// What is bound to the names of a loop: an item is not iterated over where there is one name.
pub open spec fn item_given<H: Host>(host: &H, tag: For, object: PyObject, item: LoopItem) -> bool {
    &&& item.object == object
    &&& tag.variables.names@.len() != 1 ==> call_ensures(H::unpack, (host, object), item.items)
}

/// The names of a loop have been bound for turn number `index`, or could not be.
pub open spec fn turn_begun<H: Host>(
    host: &H,
    tag: For,
    turns: Turns,
    index: int,
    before: Context,
    after: Context,
    outcome: Result<(), Fault>,
) -> bool {
    match turns {
        Turns::Items(items) => match item_in_turn(tag, items@, index) {
            Err(error) => names_bound(tag, Err(error), index, before@, after@, outcome),
            Ok(object) => exists|item: LoopItem|
                {
                    &&& #[trigger] item_given(host, tag, object, item)
                    &&& names_bound(tag, Ok(item), index, before@, after@, outcome)
                },
        },
        Turns::Characters(characters) => exists|object: PyObject|
            {
                &&& #[trigger] call_ensures(H::character, (host, characters@[index]), object)
                &&& character_bound(tag, object, index, before@, after@)
                &&& outcome is Ok
            },
    }
}

/// A loop has been started.
pub open spec fn started(turns: Turns, before: Context, after: Context) -> bool {
    loop_begun(turns.count() as int, before@, after@)
}

/// A turn of a loop has ended.
pub open spec fn ended(before: Context, after: Context) -> bool {
    turn_ended(before@, after@)
}

/// A turn of a loop can be ended.
pub open spec fn can_end(context: ContextView) -> bool {
    context.loops.len() > 0 && context.loops.last().done() < usize::MAX
}

/// What becomes of the turns of a loop from number `index` on, and of the context.
pub open spec fn turns_render<H: Host>(
    host: &H,
    source: Seq<char>,
    tag: For,
    turns: Turns,
    index: nat,
    text: Seq<char>,
    before: Context,
    after: Context,
    outcome: Shown,
) -> bool
    decreases tag, 0int, turns.count() - index,
{
    if index >= turns.count() {
        if before@.can_pop() && before@.loops.len() > 0 {
            after@ == finished(before@) && outcome == Ok::<_, Fault>(text)
        } else {
            after == before && outcome == broken()
        }
    } else {
        exists|bound: Context, binding: Result<(), Fault>|
            {
                &&& #[trigger] turn_begun(host, tag, turns, index as int, before, bound, binding)
                &&& match binding {
                    Err(e) => after == bound && outcome == Err::<Seq<char>, _>(e),
                    Ok(_) => exists|middle: Context, part: Shown|
                        {
                            &&& #[trigger] stage(middle, part)
                            &&& nodes_render(host, source, tag.body@, ""@, bound, middle, part)
                            &&& match part {
                                Err(e) => after == middle && outcome == Err::<Seq<char>, _>(e),
                                Ok(part) => if can_end(middle@) {
                                    exists|next: Context|
                                        {
                                            &&& #[trigger] ended(middle, next)
                                            &&& turns_render(
                                                host,
                                                source,
                                                tag,
                                                turns,
                                                index + 1,
                                                text + part,
                                                next,
                                                after,
                                                outcome,
                                            )
                                        }
                                } else {
                                    after == middle && outcome == broken()
                                },
                            }
                        },
                }
            }
    }
}

/// What becomes of a loop over items or characters, and of the context.
pub open spec fn loop_renders<H: Host>(
    host: &H,
    source: Seq<char>,
    tag: For,
    turns: Turns,
    before: Context,
    after: Context,
    outcome: Shown,
) -> bool
    decreases tag, 1int, 0int,
{
    exists|begun: Context|
        {
            &&& #[trigger] started(turns, before, begun)
            &&& turns_render(host, source, tag, turns, 0, ""@, begun, after, outcome)
        }
}

/// The characters that a loop over text goes through.
pub open spec fn ordered(tag: For, text: Seq<char>) -> Seq<char> {
    if tag.reversed {
        text.reverse()
    } else {
        text
    }
}

/// What becomes of a loop over the items of a Python object, and of the context.
pub open spec fn object_renders<H: Host>(
    host: &H,
    source: Seq<char>,
    tag: For,
    object: PyObject,
    before: Context,
    after: Context,
    outcome: Shown,
) -> bool
    decreases tag, 2int, 0int,
{
    exists|items: Result<Vec<Result<PyObject, PyObject>>, PyObject>|
        {
            &&& #[trigger] call_ensures(H::iterate, (host, object), items)
            &&& match items {
                Err(error) => {
                    &&& after == before
                    &&& outcome == Err::<Seq<char>, _>(
                        Fault::Annotated { error, at: tag.iterable.at, label: "here"@ },
                    )
                },
                Ok(items) => loop_renders(
                    host,
                    source,
                    tag,
                    Turns::Items(items),
                    before,
                    after,
                    outcome,
                ),
            }
        }
}

/// Characters that are those of a loop over a text.
pub open spec fn are_ordered(tag: For, text: Seq<char>, characters: Vec<char>) -> bool {
    characters@ == ordered(tag, text)
}

/// What becomes of a loop over the characters of a text, and of the context: there must be one name
/// for them.
pub open spec fn text_renders<H: Host>(
    host: &H,
    source: Seq<char>,
    tag: For,
    text: Seq<char>,
    before: Context,
    after: Context,
    outcome: Shown,
) -> bool
    decreases tag, 2int, 0int,
{
    let count = tag.variables.names@.len();
    if count > 1 {
        &&& after == before
        &&& outcome == Err::<Seq<char>, _>(
            unpack_error(count as int, 1, tag.variables.at, tag.iterable.at),
        )
    } else if count == 0 {
        after == before && outcome == broken()
    } else {
        exists|characters: Vec<char>|
            {
                &&& #[trigger] are_ordered(tag, text, characters)
                &&& loop_renders(
                    host,
                    source,
                    tag,
                    Turns::Characters(characters),
                    before,
                    after,
                    outcome,
                )
            }
    }
}

/// What becomes of a for loop, and of the context.
pub open spec fn for_renders<H: Host>(
    host: &H,
    source: Seq<char>,
    tag: For,
    before: Context,
    after: Context,
    outcome: Shown,
) -> bool
    decreases tag, 3int, 0int,
{
    exists|side: Side|
        {
            &&& #[trigger] resolves(host, tag.iterable.iterable, Failures::Raise, before, side)
            &&& match side {
                Err(e) => after == before && outcome == Err::<Seq<char>, _>(e@),
                Ok(None) => part_renders(host, source, tag.empty, before, after, outcome),
                Ok(Some(Content::Py(object))) => object_renders(
                    host,
                    source,
                    tag,
                    object,
                    before,
                    after,
                    outcome,
                ),
                Ok(Some(Content::String(s))) => text_renders(
                    host,
                    source,
                    tag,
                    s@.raw(),
                    before,
                    after,
                    outcome,
                ),
                Ok(Some(_)) => after == before && outcome == broken(),
            }
        }
}

/// What becomes of a tag of a library around other nodes, and of the context.
pub open spec fn block_renders<H: Host>(
    host: &H,
    source: Seq<char>,
    tag: SimpleBlockTag,
    before: Context,
    after: Context,
    outcome: Shown,
) -> bool
    decreases tag, 1int, 0int,
{
    exists|args: Result<Seq<PyObject>, Fault>|
        {
            &&& #[trigger] arguments_give(
                host,
                before,
                tag.args@,
                Conversion::Text(Failures::Raise),
                Seq::empty(),
                args,
            )
            &&& match args {
                Err(e) => after == before && outcome == Err::<Seq<char>, _>(e),
                Ok(args) => exists|kwargs: Result<Seq<(String, PyObject)>, Fault>|
                    {
                        &&& #[trigger] keywords_give(host, before, tag.kwargs@, kwargs)
                        &&& match kwargs {
                            Err(e) => after == before && outcome == Err::<Seq<char>, _>(e),
                            Ok(kwargs) => inside_renders(
                                host,
                                source,
                                tag,
                                args,
                                kwargs,
                                before,
                                after,
                                outcome,
                            ),
                        }
                    },
            }
        }
}

/// What becomes of a tag of a library around other nodes once its arguments are known.
pub open spec fn inside_renders<H: Host>(
    host: &H,
    source: Seq<char>,
    tag: SimpleBlockTag,
    args: Seq<PyObject>,
    kwargs: Seq<(String, PyObject)>,
    before: Context,
    after: Context,
    outcome: Shown,
) -> bool
    decreases tag, 0int, 0int,
{
    exists|middle: Context, content: Shown|
        {
            &&& #[trigger] stage(middle, content)
            &&& nodes_render(host, source, tag.nodes@, ""@, before, middle, content)
            &&& match content {
                Err(e) => after == middle && outcome == Err::<Seq<char>, _>(e),
                Ok(text) => block_concluded(
                    host,
                    tag,
                    args,
                    kwargs,
                    text,
                    middle,
                    after,
                    outcome,
                ),
            }
        }
}

/// What becomes of a tag of a library once the nodes in it are rendered: they come before its
/// arguments.
pub open spec fn block_concluded<H: Host>(
    host: &H,
    tag: SimpleBlockTag,
    args: Seq<PyObject>,
    kwargs: Seq<(String, PyObject)>,
    text: Seq<char>,
    before: Context,
    after: Context,
    outcome: Shown,
) -> bool {
    exists|held: String, object: PyObject, middle: Context, called: Shown|
        {
            &&& held@ == text
            &&& #[trigger] call_ensures(H::string, (host, &held), object)
            &&& #[trigger] tag_called(
                host,
                tag.func,
                tag.takes_context,
                tag.at,
                seq![object] + args,
                kwargs,
                before,
                middle,
                called,
            )
            &&& call_concluded(host, tag.target_var, called, middle@, after@, outcome)
        }
}

/// Renders a node that is not a tag.
fn render_leaf<H: Host>(host: &H, node: &TokenTree, context: &Context) -> (r: Rendered)
    ensures
        leaf_renders(host, *node, *context, shown(r)),
{
    let rendered = host.render_node(node, context);
    assert(call_ensures(H::render_node, (host, node, context), rendered));
    rendered
}

/// Iterates over a Python object.
fn iterate<H: Host>(host: &H, object: PyObject) -> (r: Result<
    Vec<Result<PyObject, PyObject>>,
    PyObject,
>)
    ensures
        call_ensures(H::iterate, (host, object), r),
{
    host.iterate(object)
}

/// What is to be bound to the names of a loop.
fn give_item<H: Host>(host: &H, tag: &For, object: PyObject) -> (r: LoopItem)
    ensures
        item_given(host, *tag, object, r),
{
    let items = if tag.variables.names.len() == 1 {
        Ok(Vec::new())
    } else {
        host.unpack(object)
    };
    LoopItem { object, items }
}

/// The view of the outcome of binding names.
pub open spec fn binding_view(outcome: Result<(), PyRenderError<String>>) -> Result<(), Fault> {
    match outcome {
        Ok(_) => Ok(()),
        Err(e) => Err(e@),
    }
}

/// Binds the names of a loop for turn number `index`.
fn begin_turn<H: Host>(
    host: &H,
    tag: &For,
    turns: &Turns,
    index: usize,
    context: &mut Context,
) -> (r: Result<(), PyRenderError<String>>)
    requires
        index < turns.count(),
        turns is Characters ==> tag.variables.names@.len() > 0,
    ensures
        turn_begun(
            host,
            *tag,
            *turns,
            index as int,
            *old(context),
            *final(context),
            binding_view(r),
        ),
{
    match turns {
        Turns::Items(items) => {
            let position = tag.item_position(items.len(), index);
            match items[position] {
                Err(error) => tag.bind(context, &Err(error), index),
                Ok(object) => {
                    let item = give_item(host, tag, object);
                    assert(item_given(host, *tag, object, item));
                    tag.bind(context, &Ok(item), index)
                },
            }
        },
        Turns::Characters(characters) => {
            let object = host.character(characters[index]);
            assert(call_ensures(H::character, (host, characters@[index as int]), object));
            tag.bind_character(context, object, index);
            Ok(())
        },
    }
}

/// Ends a turn of a loop, if there is one.
fn end_turn(tag: &For, context: &mut Context) -> (r: bool)
    ensures
        r == can_end(old(context)@),
        if r {
            ended(*old(context), *final(context))
        } else {
            *final(context) == *old(context)
        },
{
    match context.get_for_loop(0) {
        Some(innermost) => {
            if innermost.counter0() < usize::MAX {
                tag.turn_done(context);
                true
            } else {
                false
            }
        },
        None => false,
    }
}

/// Ends a loop, if there is one and the names that were bound last are known.
fn end_loop(tag: &For, context: &mut Context) -> (r: bool)
    ensures
        r == (old(context)@.can_pop() && old(context)@.loops.len() > 0),
        if r {
            final(context)@ == finished(old(context)@)
        } else {
            *final(context) == *old(context)
        },
{
    if !context.can_pop_variables() {
        return false;
    }
    match context.get_for_loop(0) {
        Some(_) => {
            tag.finish(context);
            true
        },
        None => false,
    }
}

/// Calls the function behind a tag with the nodes in it, and writes or stores what it gives.
fn conclude_block<H: Host>(
    host: &H,
    tag: &SimpleBlockTag,
    args: &Vec<PyObject>,
    kwargs: &Vec<(String, PyObject)>,
    text: &String,
    context: &mut Context,
) -> (r: Rendered)
    ensures
        block_concluded(
            host,
            *tag,
            args@,
            kwargs@,
            text@,
            *old(context),
            *final(context),
            shown(r),
        ),
{
    let object = host.string(text);
    assert(call_ensures(H::string, (host, text), object));
    let all = block_arguments(object, args);
    let called = call_tag(
        host,
        tag.func,
        tag.takes_context,
        tag.at,
        &all,
        kwargs,
        context,
    );
    let ghost middle = *context;
    assert(tag_called(
        host,
        tag.func,
        tag.takes_context,
        tag.at,
        seq![object] + args@,
        kwargs@,
        *old(context),
        middle,
        shown(called),
    ));
    conclude_tag(host, &tag.target_var, called, context)
}

/// Renders nodes one after the other.
pub fn render_nodes<H: Host>(
    host: &H,
    source: TemplateString<'_>,
    nodes: &Vec<TokenTree>,
    context: &mut Context,
) -> (r: Rendered)
    ensures
        nodes_render(host, source@, nodes@, ""@, *old(context), *final(context), shown(r)),
    decreases nodes@, 0int, 0int,
{
    let mut text = "".to_owned();
    let ghost all = nodes@;
    let ghost initial = *context;
    let mut i: usize = 0;
    assert(all.skip(0) =~= all);
    while i < nodes.len()
        invariant
            0 <= i <= all.len(),
            all == nodes@,
            initial == *old(context),
            forall|after: Context, outcome: Shown| #[trigger]
                nodes_render(
                    host,
                    source@,
                    all.skip(i as int),
                    text@,
                    *context,
                    after,
                    outcome,
                ) ==> nodes_render(host, source@, all, ""@, initial, after, outcome),
        decreases all.len() - i,
    {
        let ghost rest = all.skip(i as int);
        let ghost before = text@;
        let ghost reached = *context;
        assert(rest[0] == all[i as int]);
        assert(rest.drop_first() =~= all.skip(i + 1));
        let rendered = render_node(host, source, &nodes[i], context);
        let ghost middle = *context;
        assert(stage(middle, shown(rendered)));
        match rendered {
            Err(e) => {
                assert(nodes_render(host, source@, rest, before, reached, middle, Err(e@)));
                return Err(e);
            },
            Ok(part) => {
                text.append(part.as_str());
                assert forall|after: Context, outcome: Shown| #[trigger]
                    nodes_render(
                        host,
                        source@,
                        all.skip(i + 1),
                        text@,
                        *context,
                        after,
                        outcome,
                    ) implies nodes_render(host, source@, all, ""@, initial, after, outcome) by {
                    assert(nodes_render(host, source@, rest, before, reached, after, outcome));
                }
            },
        }
        i += 1;
    }
    assert(all.skip(i as int) =~= Seq::empty());
    assert(nodes_render(
        host,
        source@,
        all.skip(i as int),
        text@,
        *context,
        *context,
        Ok(text@),
    ));
    Ok(text)
}

/// Renders a node.
pub fn render_node<H: Host>(
    host: &H,
    source: TemplateString<'_>,
    node: &TokenTree,
    context: &mut Context,
) -> (r: Rendered)
    ensures
        node_renders(host, source@, *node, *old(context), *final(context), shown(r)),
    decreases *node, 0int, 0int,
{
    match node {
        TokenTree::Tag(tag) => render_tag(host, source, tag, context),
        _ => render_leaf(host, node, context),
    }
}

/// Renders a part that may be missing.
fn render_part<H: Host>(
    host: &H,
    source: TemplateString<'_>,
    part: &Option<Vec<TokenTree>>,
    context: &mut Context,
) -> (r: Rendered)
    ensures
        part_renders(host, source@, *part, *old(context), *final(context), shown(r)),
    decreases *part, 0int, 0int,
{
    match part {
        Some(nodes) => render_nodes(host, source, nodes, context),
        None => Ok("".to_owned()),
    }
}

/// Renders a tag.
pub fn render_tag<H: Host>(
    host: &H,
    source: TemplateString<'_>,
    tag: &Tag,
    context: &mut Context,
) -> (r: Rendered)
    ensures
        tag_renders(host, source@, *tag, *old(context), *final(context), shown(r)),
    decreases *tag, 0int, 0int,
{
    match tag {
        Tag::Cycle(cycle) => cycle.render(host, context),
        Tag::Autoescape { enabled, nodes } => {
            let autoescape = enter_autoescape(context, *enabled);
            let ghost entered = *context;
            assert(stage(entered, nothing()));
            let rendered = render_nodes(host, source, nodes, context);
            let ghost middle = *context;
            assert(stage(middle, shown(rendered)));
            if rendered.is_ok() {
                leave_autoescape(context, autoescape);
            }
            rendered
        },
        Tag::If { condition, truthy, falsey } => {
            let said = condition.evaluate(host, context);
            assert(answer(said));
            match said {
                Some(true) => render_nodes(host, source, truthy, context),
                _ => render_part(host, source, falsey, context),
            }
        },
        Tag::For(tag) => render_for(host, source, tag, context),
        Tag::Include(tag) => tag.render(host, source, context),
        Tag::SimpleTag(tag) => tag.render(host, context),
        Tag::SimpleBlockTag(tag) => render_block(host, source, tag, context),
        Tag::Url(tag) => tag.render(host, context),
        Tag::CsrfToken(tag) => tag.render(host, context),
        Tag::Lorem(lorem) => lorem.render(host, context),
        Tag::Now(now) => now.render(host, source, context),
        Tag::FirstOf(tag) => tag.render(host, context),
        Tag::Load => Ok("".to_owned()),
        Tag::Comment(_) => Ok("".to_owned()),
        Tag::TemplateTag(template_tag) => Ok(template_tag.output().to_owned()),
    }
}

/// Renders the turns of a loop.
fn render_turns<H: Host>(
    host: &H,
    source: TemplateString<'_>,
    tag: &For,
    turns: &Turns,
    context: &mut Context,
) -> (r: Rendered)
    requires
        turns is Characters ==> tag.variables.names@.len() > 0,
    ensures
        loop_renders(host, source@, *tag, *turns, *old(context), *final(context), shown(r)),
    decreases *tag, 1int, 0int,
{
    let count = turns.len();
    tag.begin(context, count);
    let ghost begun = *context;
    assert(started(*turns, *old(context), begun));
    let mut text = "".to_owned();
    let mut index: usize = 0;
    while index < count
        invariant
            0 <= index <= count,
            count == turns.count(),
            turns is Characters ==> tag.variables.names@.len() > 0,
            started(*turns, *old(context), begun),
            forall|after: Context, outcome: Shown| #[trigger]
                turns_render(
                    host,
                    source@,
                    *tag,
                    *turns,
                    index as nat,
                    text@,
                    *context,
                    after,
                    outcome,
                ) ==> turns_render(host, source@, *tag, *turns, 0, ""@, begun, after, outcome),
        decreases count - index,
    {
        let ghost reached = *context;
        let ghost before = text@;
        let binding = begin_turn(host, tag, turns, index, context);
        let ghost bound = *context;
        assert(turn_begun(
            host,
            *tag,
            *turns,
            index as int,
            reached,
            bound,
            binding_view(binding),
        ));
        if let Err(e) = binding {
            assert(turns_render(
                host,
                source@,
                *tag,
                *turns,
                index as nat,
                before,
                reached,
                bound,
                Err(e@),
            ));
            return Err(e);
        }
        let rendered = render_nodes(host, source, &tag.body, context);
        let ghost middle = *context;
        assert(stage(middle, shown(rendered)));
        let part = match rendered {
            Ok(part) => part,
            Err(e) => {
                assert(turns_render(
                    host,
                    source@,
                    *tag,
                    *turns,
                    index as nat,
                    before,
                    reached,
                    middle,
                    Err(e@),
                ));
                return Err(e);
            },
        };
        if !end_turn(tag, context) {
            assert(turns_render(
                host,
                source@,
                *tag,
                *turns,
                index as nat,
                before,
                reached,
                middle,
                broken(),
            ));
            return Err(PyRenderError::Broken);
        }
        assert(ended(middle, *context));
        text.append(part.as_str());
        let ghost turn = index as nat;
        index += 1;
        assert(index as nat == turn + 1);
        assert forall|after: Context, outcome: Shown| #[trigger]
            turns_render(
                host,
                source@,
                *tag,
                *turns,
                index as nat,
                text@,
                *context,
                after,
                outcome,
            ) implies turns_render(
            host,
            source@,
            *tag,
            *turns,
            0,
            ""@,
            begun,
            after,
            outcome,
        ) by {
            assert(turns_render(
                host,
                source@,
                *tag,
                *turns,
                turn,
                before,
                reached,
                after,
                outcome,
            ));
        }
    }
    let ghost reached = *context;
    if end_loop(tag, context) {
        assert(turns_render(
            host,
            source@,
            *tag,
            *turns,
            index as nat,
            text@,
            reached,
            *context,
            Ok(text@),
        ));
        Ok(text)
    } else {
        assert(turns_render(
            host,
            source@,
            *tag,
            *turns,
            index as nat,
            text@,
            reached,
            *context,
            broken(),
        ));
        Err(PyRenderError::Broken)
    }
}

/// Renders a for loop.
fn render_for<H: Host>(
    host: &H,
    source: TemplateString<'_>,
    tag: &For,
    context: &mut Context,
) -> (r: Rendered)
    ensures
        for_renders(host, source@, *tag, *old(context), *final(context), shown(r)),
    decreases *tag, 3int, 0int,
{
    let side = resolve_element(host, &tag.iterable.iterable, Failures::Raise, context);
    assert(resolves(host, tag.iterable.iterable, Failures::Raise, *old(context), side));
    let iterable = match side {
        Ok(iterable) => iterable,
        Err(e) => {
            return Err(e);
        },
    };
    match &iterable {
        Some(Content::Int(_)) | Some(Content::Float(_)) | Some(Content::Bool(_)) => {
            return Err(PyRenderError::Broken);
        },
        _ => {},
    }
    match tag.plan(iterable) {
        ForPlan::Empty => render_part(host, source, &tag.empty, context),
        ForPlan::Python(object) => {
            let items = iterate(host, object);
            assert(call_ensures(H::iterate, (host, object), items));
            match items {
                Err(error) => Err(
                    PyRenderError::Annotated {
                        error,
                        at: tag.iterable.at,
                        label: "here".to_owned(),
                    },
                ),
                Ok(items) => {
                    let turns = Turns::Items(items);
                    render_turns(host, source, tag, &turns, context)
                },
            }
        },
        ForPlan::Characters(text) => {
            let characters = match tag.characters(text.as_str()) {
                Ok(characters) => characters,
                Err(e) => {
                    return Err(e);
                },
            };
            if tag.variables.names.len() == 0 {
                return Err(PyRenderError::Broken);
            }
            assert(are_ordered(*tag, text@, characters));
            let turns = Turns::Characters(characters);
            render_turns(host, source, tag, &turns, context)
        },
    }
}

/// Renders a tag of a library around other nodes.
fn render_block<H: Host>(
    host: &H,
    source: TemplateString<'_>,
    tag: &SimpleBlockTag,
    context: &mut Context,
) -> (r: Rendered)
    ensures
        block_renders(host, source@, *tag, *old(context), *final(context), shown(r)),
    decreases *tag, 1int, 0int,
{
    let conversion = Conversion::Text(Failures::Raise);
    let args = make_arguments(host, context, &tag.args, conversion);
    assert(arguments_give(
        host,
        *old(context),
        tag.args@,
        Conversion::Text(Failures::Raise),
        Seq::empty(),
        arguments_view(args),
    ));
    let args = match args {
        Ok(args) => args,
        Err(e) => {
            return Err(e);
        },
    };
    let kwargs = make_keywords(host, context, &tag.kwargs);
    assert(keywords_give(host, *old(context), tag.kwargs@, keywords_view(kwargs)));
    let kwargs = match kwargs {
        Ok(kwargs) => kwargs,
        Err(e) => {
            return Err(e);
        },
    };
    let content = render_nodes(host, source, &tag.nodes, context);
    let ghost middle = *context;
    assert(stage(middle, shown(content)));
    let r = match content {
        Err(e) => Err(e),
        Ok(text) => conclude_block(host, tag, &args, &kwargs, &text, context),
    };
    assert(inside_renders(
        host,
        source@,
        *tag,
        args@,
        kwargs@,
        *old(context),
        *context,
        shown(r),
    ));
    r
}

} // verus!
