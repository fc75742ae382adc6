//! What holds of every tree that the parser gives.
use vstd::prelude::*;
use crate::dict::map_of;
use crate::lexer::tokens::{
    source_tag, Arguments, LexerError, LoadToken, TagElementToken, TokenType,
};
use crate::parse::elements::{element_of, variable_of};
use crate::parse::errors::ParseError;
use crate::parse::grammar::{
    advanced, autoescape_at, comment_at, comment_end, cycle_at, cycle_shape, cycle_values, empty_at,
    external_tag_at, falsey_at, first_element_error, for_at, for_ends, if_at, if_ends,
    libraries_loaded, loaded, names_library, names_loaded, nodes_of, nodes_until, read_next, tag_at,
    tags_loaded, EndTagView, Fault, ReadView,
};
use crate::parse::library::{tag_context, with_tag, TagContextView, TagSource};
use crate::parse::parser::{new_state, scope_of, Env, Scope, State};
use crate::parse::tree::{
    element_node, CycleView, EndTagType, SimpleCycleView, TagElement, TagView, TokenTreeView,
};
use crate::text::{span, At};
use crate::types::PyObject;

verus! {

/// The values of a cycle and what it is told by.
pub open spec fn simple_cycle(cycle: CycleView) -> SimpleCycleView {
    match cycle {
        CycleView::Simple(cycle) => cycle,
        CycleView::Named(named) => named.cycle,
        CycleView::SilentNamed(named) => named.cycle,
    }
}

/// What a cycle is told by.
pub open spec fn cycle_id(cycle: CycleView) -> usize {
    simple_cycle(cycle).id.0
}

/// The cycles of some nodes.
pub open spec fn nodes_cycles(nodes: Seq<TokenTreeView>) -> Set<CycleView>
    decreases nodes,
{
    if nodes.len() == 0 {
        Set::empty()
    } else {
        nodes_cycles(nodes.drop_last()).union(node_cycles(nodes.last()))
    }
}

/// The cycles of a node.
pub open spec fn node_cycles(node: TokenTreeView) -> Set<CycleView>
    decreases node,
{
    match node {
        TokenTreeView::Tag(tag) => match tag {
            TagView::Autoescape { nodes, .. } => nodes_cycles(nodes),
            TagView::If { truthy, falsey, .. } => match falsey {
                Some(nodes) => nodes_cycles(truthy).union(nodes_cycles(nodes)),
                None => nodes_cycles(truthy),
            },
            TagView::For(inner) => match inner.empty {
                Some(nodes) => nodes_cycles(inner.body).union(nodes_cycles(nodes)),
                None => nodes_cycles(inner.body),
            },
            TagView::SimpleBlockTag(block) => nodes_cycles(block.nodes),
            TagView::Cycle(cycle) => set![cycle],
            _ => Set::empty(),
        },
        _ => Set::empty(),
    }
}

/// The cycles of what a token stands for.
pub open spec fn read_cycles(read: ReadView) -> Set<CycleView> {
    match read {
        ReadView::Node(node) => node_cycles(node),
        _ => Set::empty(),
    }
}

/// The cycles of nodes that may be missing.
pub open spec fn optional_cycles(nodes: Option<Seq<TokenTreeView>>) -> Set<CycleView> {
    match nodes {
        Some(nodes) => nodes_cycles(nodes),
        None => Set::empty(),
    }
}

/// The name of a cycle.
pub open spec fn cycle_name(cycle: CycleView) -> Option<Seq<char>> {
    match cycle {
        CycleView::Simple(_) => None,
        CycleView::Named(named) => Some(named.asvar),
        CycleView::SilentNamed(named) => Some(named.asvar),
    }
}

/// What names stand for after some nodes: the last cycle of each name, in the order of the source.
pub open spec fn nodes_named(
    nodes: Seq<TokenTreeView>,
    named: Map<Seq<char>, CycleView>,
) -> Map<Seq<char>, CycleView>
    decreases nodes,
{
    if nodes.len() == 0 {
        named
    } else {
        node_named(nodes.last(), nodes_named(nodes.drop_last(), named))
    }
}

/// What names stand for after a node.
pub open spec fn node_named(node: TokenTreeView, named: Map<Seq<char>, CycleView>) -> Map<
    Seq<char>,
    CycleView,
>
    decreases node,
{
    match node {
        TokenTreeView::Tag(tag) => match tag {
            TagView::Autoescape { nodes, .. } => nodes_named(nodes, named),
            TagView::If { truthy, falsey, .. } => match falsey {
                Some(nodes) => nodes_named(nodes, nodes_named(truthy, named)),
                None => nodes_named(truthy, named),
            },
            TagView::For(inner) => match inner.empty {
                Some(nodes) => nodes_named(nodes, nodes_named(inner.body, named)),
                None => nodes_named(inner.body, named),
            },
            TagView::SimpleBlockTag(block) => nodes_named(block.nodes, named),
            TagView::Cycle(cycle) => match cycle_name(cycle) {
                Some(name) => named.insert(name, cycle),
                None => named,
            },
            _ => named,
        },
        _ => named,
    }
}

/// What names stand for after what a token stands for.
pub open spec fn read_named(read: ReadView, named: Map<Seq<char>, CycleView>) -> Map<
    Seq<char>,
    CycleView,
> {
    match read {
        ReadView::Node(node) => node_named(node, named),
        _ => named,
    }
}

/// What names stand for after nodes that may be missing.
spec fn optional_named(
    nodes: Option<Seq<TokenTreeView>>,
    named: Map<Seq<char>, CycleView>,
) -> Map<Seq<char>, CycleView> {
    match nodes {
        Some(nodes) => nodes_named(nodes, named),
        None => named,
    }
}

/// Every cycle is known by its own name.
pub open spec fn own_names(named: Map<Seq<char>, CycleView>) -> bool {
    forall|name: Seq<char>| #[trigger]
        named.contains_key(name) ==> cycle_name(named[name]) == Some(name)
}

/// The names of one state have become others.
spec fn renamed(before: State, after: State, named: Map<Seq<char>, CycleView>) -> bool {
    own_names(before.named_cycles) ==> {
        &&& own_names(after.named_cycles)
        &&& after.named_cycles == named
    }
}

/// The parser has not gone back, nor have the numbers of cycles, unless they have run out. `more`
/// is 1 where the token that a cycle would stand in has been read before.
spec fn climbs(env: Env, before: State, after: State, more: int) -> bool {
    &&& before.pos <= after.pos <= env.tokens.len()
    &&& before.next_cycle_id + (env.tokens.len() - before.pos) + more <= usize::MAX ==> {
        &&& before.next_cycle_id <= after.next_cycle_id
        &&& after.next_cycle_id + (env.tokens.len() - after.pos) <= usize::MAX
    }
}

/// Every cycle that has a name was told by a number that has been given away, and the numbers
/// that are left are enough for the tokens that are left and for `more` cycles besides.
spec fn roomy(env: Env, state: State, more: int) -> bool {
    &&& state.next_cycle_id + (env.tokens.len() - state.pos) + more <= usize::MAX
    &&& forall|c: CycleView| #[trigger]
        state.named_cycles.values().contains(c) ==> cycle_id(c) < state.next_cycle_id
}

/// The cycles that were seen between two states and those that are known by name after it were
/// known by name before it, or are new: they then have two values or more, and a number of their
/// own.
spec fn told_apart(before: State, after: State, seen: Set<CycleView>) -> bool {
    let all = seen.union(after.named_cycles.values());
    &&& before.next_cycle_id <= after.next_cycle_id
    &&& forall|c: CycleView| #[trigger]
        all.contains(c) ==> {
            ||| before.named_cycles.values().contains(c)
            ||| {
                &&& before.next_cycle_id <= cycle_id(c) < after.next_cycle_id
                &&& simple_cycle(c).values.len() >= 2
            }
        }
    &&& forall|c: CycleView, d: CycleView| #[trigger]
        all.contains(c) && #[trigger] all.contains(d) && cycle_id(c) == cycle_id(d) && cycle_id(c)
            >= before.next_cycle_id ==> c == d
}

/// The parser has come from one state to another and has seen some cycles. `more` is 1 where the
/// token that a cycle would stand in has been read before.
spec fn step(env: Env, before: State, after: State, seen: Set<CycleView>, more: int) -> bool {
    &&& before.pos <= after.pos <= env.tokens.len()
    &&& after.forloop_depth == before.forloop_depth
    &&& roomy(env, before, more) ==> {
        &&& roomy(env, after, 0)
        &&& told_apart(before, after, seen)
    }
}

proof fn lemma_steps(
    env: Env,
    first: State,
    second: State,
    third: State,
    seen: Set<CycleView>,
    then_seen: Set<CycleView>,
    more: int,
)
    requires
        step(env, first, second, seen, more),
        step(env, second, third, then_seen, 0),
    ensures
        step(env, first, third, seen.union(then_seen), more),
{
    if roomy(env, first, more) {
        let one = seen.union(second.named_cycles.values());
        let two = then_seen.union(third.named_cycles.values());
        let all = seen.union(then_seen).union(third.named_cycles.values());
        assert forall|c: CycleView| #[trigger] all.contains(c) implies one.contains(c)
            || two.contains(c) by {}
        assert forall|c: CycleView| #[trigger] all.contains(c) && cycle_id(c)
            < second.next_cycle_id implies one.contains(c) by {
            if !one.contains(c) {
                assert(two.contains(c));
                assert(second.named_cycles.values().contains(c));
            }
        }
        assert forall|c: CycleView| #[trigger] all.contains(c) && cycle_id(c)
            >= second.next_cycle_id implies two.contains(c) by {
            if !two.contains(c) {
                assert(one.contains(c));
                assert(first.named_cycles.values().contains(c));
            }
        }
        assert forall|c: CycleView| #[trigger] all.contains(c) implies {
            ||| first.named_cycles.values().contains(c)
            ||| {
                &&& first.next_cycle_id <= cycle_id(c) < third.next_cycle_id
                &&& simple_cycle(c).values.len() >= 2
            }
        } by {
            if !one.contains(c) {
                assert(two.contains(c));
                assert(second.named_cycles.values().contains(c) ==> one.contains(c));
            }
        }
        assert(told_apart(first, third, seen.union(then_seen)));
    }
}

/// Nothing but the position, the tags and the filters has changed.
spec fn keeps_cycles(before: State, after: State) -> bool {
    &&& after.forloop_depth == before.forloop_depth
    &&& after.named_cycles == before.named_cycles
    &&& after.next_cycle_id == before.next_cycle_id
}

proof fn lemma_quiet_step(env: Env, before: State, after: State, more: int)
    requires
        before.pos <= after.pos <= env.tokens.len(),
        0 <= more,
        keeps_cycles(before, after),
    ensures
        step(env, before, after, Set::empty(), more),
{
    let all = Set::<CycleView>::empty().union(after.named_cycles.values());
    assert(all =~= before.named_cycles.values());
}

proof fn lemma_tags_loaded(state: State, at: At, tags: Seq<(String, TagSource)>)
    ensures
        tags_loaded(state, at, tags).0.pos == state.pos,
        keeps_cycles(state, tags_loaded(state, at, tags).0),
    decreases tags.len(),
{
    if tags.len() > 0 {
        if let Ok(context) = tag_context(at, tags[0].0@, tags[0].1) {
            let next = State {
                external_tags: with_tag(
                    state.external_tags,
                    tags[0].0@,
                    context,
                ),
                ..state
            };
            lemma_tags_loaded(next, at, tags.drop_first());
        }
    }
}

proof fn lemma_libraries_loaded(env: Env, state: State, at: At, tokens: Seq<LoadToken>)
    ensures
        libraries_loaded(env, state, at, tokens).0.pos == state.pos,
        keeps_cycles(state, libraries_loaded(env, state, at, tokens).0),
    decreases tokens.len(),
{
    if tokens.len() > 0 {
        let name = span(env.template, tokens[0].at);
        if env.libraries.contains_key(name) {
            if let (Ok(filters), Ok(tags)) = (
                env.libraries[name].filters,
                env.libraries[name].tags,
            ) {
                let with_filters = State {
                    external_filters: state.external_filters.union_prefer_right(
                        map_of(filters@),
                    ),
                    ..state
                };
                lemma_tags_loaded(with_filters, at, tags@);
                lemma_libraries_loaded(
                    env,
                    tags_loaded(with_filters, at, tags@).0,
                    at,
                    tokens.drop_first(),
                );
            }
        }
    }
}

proof fn lemma_names_loaded(
    env: Env,
    state: State,
    library_at: At,
    filters: Seq<(String, PyObject)>,
    tags: Seq<(String, TagSource)>,
    tokens: Seq<LoadToken>,
)
    ensures
        names_loaded(env, state, library_at, filters, tags, tokens).0.pos == state.pos,
        keeps_cycles(state, names_loaded(env, state, library_at, filters, tags, tokens).0),
    decreases tokens.len(),
{
    if tokens.len() > 0 {
        let at = tokens.last().at;
        let name = span(env.template, at);
        let map = map_of(filters);
        let rest = tokens.drop_last();
        if map.contains_key(name) {
            let next = State {
                external_filters: state.external_filters.insert(name, map[name]),
                ..state
            };
            lemma_names_loaded(env, next, library_at, filters, tags, rest);
        } else if map_of(tags).contains_key(name) {
            if let Ok(context) = tag_context(at, name, map_of(tags)[name]) {
                let next = State {
                    external_tags: with_tag(
                        state.external_tags,
                        name,
                        context,
                    ),
                    ..state
                };
                lemma_names_loaded(env, next, library_at, filters, tags, rest);
            }
        }
    }
}

proof fn lemma_loaded(env: Env, state: State, at: At, tokens: Seq<LoadToken>)
    ensures
        loaded(env, state, at, tokens).0.pos == state.pos,
        keeps_cycles(state, loaded(env, state, at, tokens).0),
{
    if names_library(env.template, tokens) {
        let library_at = tokens.last().at;
        let name = span(env.template, library_at);
        if env.libraries.contains_key(name) {
            if let (Ok(filters), Ok(tags)) = (
                env.libraries[name].filters,
                env.libraries[name].tags,
            ) {
                lemma_names_loaded(
                    env,
                    state,
                    library_at,
                    filters@,
                    tags@,
                    tokens.take(tokens.len() - 2),
                );
            }
        }
    } else {
        lemma_libraries_loaded(env, state, at, tokens);
    }
}

proof fn lemma_comment_end(env: Env, pos: int)
    ensures
        comment_end(env, pos) matches Some(end) ==> pos <= end < env.tokens.len(),
    decreases env.tokens.len() - pos,
{
    if 0 <= pos < env.tokens.len() {
        lemma_comment_end(env, pos + 1);
    }
}

proof fn lemma_cycle_values(
    scope: Scope,
    tokens: Seq<Result<TagElementToken, LexerError>>,
    values: Seq<TagElement<int>>,
)
    ensures
        cycle_values(scope, tokens, values) matches Ok(all) ==> all.len() == values.len()
            + tokens.len(),
    decreases tokens.len(),
{
    if tokens.len() > 0 {
        let token = tokens[0]->Ok_0;
        if let Ok(element) = element_of(scope, token.at, token.token_type) {
            lemma_cycle_values(scope, tokens.drop_first(), values.push(element));
        }
    }
}

proof fn lemma_cycle(
    env: Env,
    state: State,
    parts_at: At,
    tokens: Seq<Result<TagElementToken, LexerError>>,
)
    requires
        0 <= state.pos <= env.tokens.len(),
    ensures
        ({
            let (next, outcome) = cycle_at(env, state, parts_at, tokens);
            &&& climbs(env, state, next, 1)
            &&& outcome matches Ok(cycle) ==> {
                &&& step(env, state, next, set![cycle], 1)
                &&& renamed(
                    state,
                    next,
                    node_named(TokenTreeView::Tag(TagView::Cycle(cycle)), state.named_cycles),
                )
            }
        }),
{
    let (next, outcome) = cycle_at(env, state, parts_at, tokens);
    if let Ok(cycle) = outcome {
        let all = set![cycle].union(next.named_cycles.values());
        if tokens.len() == 1 {
            let name = span(env.template, tokens[0]->Ok_0.at);
            assert(state.named_cycles.contains_key(name));
            assert(state.named_cycles.values().contains(cycle));
            assert(all =~= state.named_cycles.values());
            assert(state.named_cycles.insert(name, cycle) =~= state.named_cycles);
        } else {
            let (count, name_at, silent) = cycle_shape(env.template, tokens)->Ok_0;
            lemma_cycle_values(scope_of(env, state), tokens.take(count), Seq::empty());
            assert(simple_cycle(cycle).values.len() >= 2);
            assert(cycle_id(cycle) == state.next_cycle_id);
            assert forall|c: CycleView| #[trigger] all.contains(c) implies c == cycle
                || state.named_cycles.values().contains(c) by {
                if c != cycle {
                    let name = choose|name: Seq<char>| #[trigger]
                        next.named_cycles.contains_key(name) && next.named_cycles[name] == c;
                    assert(state.named_cycles.contains_key(name) && state.named_cycles[name] == c);
                }
            }
            if roomy(env, state, 1) {
                assert forall|c: CycleView| #[trigger]
                    next.named_cycles.values().contains(c) implies cycle_id(c)
                    < next.next_cycle_id by {
                    assert(all.contains(c));
                }
            }
        }
    }
}

proof fn lemma_nodes_until(
    env: Env,
    state: State,
    until: Seq<EndTagType<Seq<char>>>,
    start: Seq<char>,
    start_at: At,
    nodes: Seq<TokenTreeView>,
    first: State,
)
    requires
        0 <= state.pos <= env.tokens.len(),
        step(env, first, state, nodes_cycles(nodes), 0),
        renamed(first, state, nodes_named(nodes, first.named_cycles)),
    ensures
        ({
            let (next, outcome) = nodes_until(env, state, until, start, start_at, nodes);
            &&& climbs(env, state, next, 0)
            &&& outcome matches Ok((all, end)) ==> {
                &&& state.pos < next.pos
                &&& step(env, first, next, nodes_cycles(all), 0)
                &&& renamed(first, next, nodes_named(all, first.named_cycles))
            }
        }),
    decreases env.tokens.len() - state.pos, 1int,
{
    if state.pos < env.tokens.len() {
        lemma_read_next(env, state);
        let (next, outcome) = read_next(env, state);
        if let Ok(read) = outcome {
            lemma_steps(env, first, state, next, nodes_cycles(nodes), read_cycles(read), 0);
            match read {
                ReadView::Node(node) => {
                    assert(nodes.push(node).drop_last() =~= nodes);
                    lemma_nodes_until(
                        env,
                        next,
                        until,
                        start,
                        start_at,
                        nodes.push(node),
                        first,
                    );
                },
                ReadView::Nothing => {
                    assert(nodes_cycles(nodes).union(Set::empty()) =~= nodes_cycles(nodes));
                    lemma_nodes_until(env, next, until, start, start_at, nodes, first);
                },
                ReadView::End(_) => {
                    assert(nodes_cycles(nodes).union(Set::empty()) =~= nodes_cycles(nodes));
                },
            }
        }
    }
}

/// What is inside a tag is read in a step.
proof fn lemma_inside(
    env: Env,
    state: State,
    until: Seq<EndTagType<Seq<char>>>,
    start: Seq<char>,
    start_at: At,
)
    requires
        0 <= state.pos <= env.tokens.len(),
    ensures
        ({
            let (next, outcome) = nodes_until(env, state, until, start, start_at, Seq::empty());
            &&& climbs(env, state, next, 0)
            &&& outcome matches Ok((nodes, end)) ==> {
                &&& state.pos < next.pos
                &&& step(env, state, next, nodes_cycles(nodes), 0)
                &&& renamed(state, next, nodes_named(nodes, state.named_cycles))
            }
        }),
    decreases env.tokens.len() - state.pos, 2int,
{
    lemma_quiet_step(env, state, state, 0);
    assert(nodes_cycles(Seq::empty()) == Set::<CycleView>::empty());
    assert(nodes_named(Seq::empty(), state.named_cycles) == state.named_cycles);
    lemma_nodes_until(env, state, until, start, start_at, Seq::empty(), state);
}

proof fn lemma_read_next(env: Env, state: State)
    requires
        0 <= state.pos < env.tokens.len(),
    ensures
        ({
            let (next, outcome) = read_next(env, state);
            &&& climbs(env, state, next, 0)
            &&& outcome matches Ok(read) ==> {
                &&& advanced(env, state, next)
                &&& step(env, state, next, read_cycles(read), 0)
                &&& renamed(state, next, read_named(read, state.named_cycles))
            }
        }),
    decreases env.tokens.len() - state.pos, 0int,
{
    let token = env.tokens[state.pos];
    let next = State { pos: state.pos + 1, ..state };
    lemma_quiet_step(env, state, next, 0);
    match token.token_type {
        TokenType::Tag(tag) => {
            lemma_tag(env, next, token.at, tag);
            let (last, outcome) = tag_at(env, next, token.at, tag);
            if let Ok(read) = outcome {
                assert(roomy(env, state, 0) ==> roomy(env, next, 1));
                assert(step(env, state, last, read_cycles(read), 0));
            }
        },
        TokenType::Variable(variable) => {
            let outcome = variable_of(
                scope_of(env, next),
                variable,
                token.at,
            );
            if let Ok(element) = outcome {
                assert(node_cycles(element_node(element)) == Set::<CycleView>::empty());
                assert(node_named(element_node(element), state.named_cycles)
                    == state.named_cycles);
            }
        },
        _ => {},
    }
}

#[verifier::rlimit(60)]
proof fn lemma_tag(env: Env, state: State, at: At, arguments: Arguments)
    requires
        0 <= state.pos <= env.tokens.len(),
    ensures
        ({
            let (next, outcome) = tag_at(env, state, at, arguments);
            &&& climbs(env, state, next, 1)
            &&& outcome matches Ok(read) ==> {
                &&& step(env, state, next, read_cycles(read), 1)
                &&& renamed(state, next, read_named(read, state.named_cycles))
            }
        }),
    decreases env.tokens.len() - state.pos, 5int,
{
    lemma_quiet_step(env, state, state, 1);
    if let Ok(tag) = source_tag(env.template, at) {
        let name = span(env.template, tag.at);
        if name == "load"@ {
            lemma_loaded(env, state, at, arguments->Load_0@);
            lemma_quiet_step(env, state, loaded(env, state, at, arguments->Load_0@).0, 1);
        } else if name == "autoescape"@ {
            lemma_autoescape(env, state, at, arguments);
        } else if name == "if"@ {
            lemma_if(env, state, at, arguments, "if"@);
        } else if name == "for"@ {
            lemma_for(env, state, at, arguments);
        } else if name == "comment"@ {
            lemma_comment_end(env, state.pos);
            lemma_quiet_step(env, state, comment_at(env, state, at).0, 1);
        } else if name == "cycle"@ {
            lemma_cycle(env, state, tag.parts.at, arguments->Elements_0@);
        } else {
            lemma_external_tag(env, state, at, tag.parts.at, arguments, name);
        }
    }
}

proof fn lemma_external_tag(
    env: Env,
    state: State,
    at: At,
    parts_at: At,
    arguments: Arguments,
    name: Seq<char>,
)
    requires
        0 <= state.pos <= env.tokens.len(),
    ensures
        ({
            let (next, outcome) = external_tag_at(env, state, at, parts_at, arguments, name);
            &&& climbs(env, state, next, 1)
            &&& outcome matches Ok(read) ==> {
                &&& step(env, state, next, read_cycles(read), 1)
                &&& renamed(state, next, read_named(read, state.named_cycles))
            }
        }),
    decreases env.tokens.len() - state.pos, 4int,
{
    lemma_quiet_step(env, state, state, 1);
    if state.external_tags.contains_key(name) {
        match state.external_tags[name] {
            TagContextView::SimpleBlock { end_tag_name, context } => {
                lemma_inside(env, state, seq![EndTagType::Custom(end_tag_name)], name, at);
            },
            _ => {},
        }
    }
}

proof fn lemma_autoescape(env: Env, state: State, at: At, arguments: Arguments)
    requires
        0 <= state.pos <= env.tokens.len(),
    ensures
        ({
            let (next, outcome) = autoescape_at(env, state, at, arguments);
            &&& climbs(env, state, next, 1)
            &&& outcome matches Ok(read) ==> {
                &&& step(env, state, next, read_cycles(read), 1)
                &&& renamed(state, next, read_named(read, state.named_cycles))
            }
        }),
    decreases env.tokens.len() - state.pos, 3int,
{
    lemma_inside(env, state, seq![EndTagType::Autoescape], "autoescape"@, at);
}

proof fn lemma_if(env: Env, state: State, at: At, arguments: Arguments, start: Seq<char>)
    requires
        0 <= state.pos <= env.tokens.len(),
    ensures
        ({
            let (next, outcome) = if_at(env, state, at, arguments, start);
            &&& climbs(env, state, next, 0)
            &&& outcome matches Ok(read) ==> {
                &&& read is Node
                &&& step(env, state, next, read_cycles(read), 0)
                &&& renamed(state, next, read_named(read, state.named_cycles))
            }
        }),
    decreases env.tokens.len() - state.pos, 3int,
{
    lemma_inside(env, state, if_ends(), start, at);
    let (next, outcome) = nodes_until(env, state, if_ends(), start, at, Seq::empty());
    if let Ok((truthy, end)) = outcome {
        lemma_falsey(env, next, end);
        let (last, falsey) = falsey_at(env, next, end);
        if let Ok(falsey) = falsey {
            lemma_steps(
                env,
                state,
                next,
                last,
                nodes_cycles(truthy),
                optional_cycles(falsey),
                0,
            );
            assert(nodes_cycles(truthy).union(Set::empty()) =~= nodes_cycles(truthy));
        }
    }
}

proof fn lemma_falsey(env: Env, state: State, end: EndTagView)
    requires
        0 <= state.pos <= env.tokens.len(),
    ensures
        ({
            let (next, outcome) = falsey_at(env, state, end);
            &&& climbs(env, state, next, 0)
            &&& outcome matches Ok(nodes) ==> {
                &&& step(env, state, next, optional_cycles(nodes), 0)
                &&& renamed(state, next, optional_named(nodes, state.named_cycles))
            }
        }),
    decreases env.tokens.len() - state.pos, 4int,
{
    lemma_quiet_step(env, state, state, 0);
    match end.end {
        EndTagType::Elif => {
            let arguments = env.tokens[end.token].token_type->Tag_0;
            lemma_if(env, state, end.at, arguments, "elif"@);
            let (next, outcome) = if_at(env, state, end.at, arguments, "elif"@);
            if let Ok(ReadView::Node(node)) = outcome {
                assert(seq![node].drop_last() =~= Seq::empty());
                assert(nodes_cycles(Seq::empty()) == Set::<CycleView>::empty());
                assert(nodes_cycles(seq![node]) =~= node_cycles(node));
                assert(nodes_named(Seq::empty(), state.named_cycles) == state.named_cycles);
                assert(nodes_named(seq![node], state.named_cycles) == node_named(
                    node,
                    state.named_cycles,
                ));
            }
        },
        EndTagType::Else => {
            lemma_inside(env, state, seq![EndTagType::EndIf], "else"@, end.at);
        },
        _ => {},
    }
}

proof fn lemma_for(env: Env, state: State, at: At, arguments: Arguments)
    requires
        0 <= state.pos <= env.tokens.len(),
    ensures
        ({
            let (next, outcome) = for_at(env, state, at, arguments);
            &&& climbs(env, state, next, 0)
            &&& outcome matches Ok(read) ==> {
                &&& step(env, state, next, read_cycles(read), 0)
                &&& renamed(state, next, read_named(read, state.named_cycles))
            }
        }),
    decreases env.tokens.len() - state.pos, 3int,
{
    let inner = State { forloop_depth: state.forloop_depth + 1, ..state };
    lemma_inside(env, inner, for_ends(), "for"@, at);
    let (next, outcome) = nodes_until(env, inner, for_ends(), "for"@, at, Seq::empty());
    if let Ok((body, end)) = outcome {
        let outer = State { forloop_depth: next.forloop_depth - 1, ..next };
        assert(step(env, state, outer, nodes_cycles(body), 0));
        lemma_empty(env, outer, end);
        let (last, empty) = empty_at(env, outer, end);
        if let Ok(empty) = empty {
            lemma_steps(env, state, outer, last, nodes_cycles(body), optional_cycles(empty), 0);
            assert(nodes_cycles(body).union(Set::empty()) =~= nodes_cycles(body));
        }
    }
}

proof fn lemma_empty(env: Env, state: State, end: EndTagView)
    requires
        0 <= state.pos <= env.tokens.len(),
    ensures
        ({
            let (next, outcome) = empty_at(env, state, end);
            &&& climbs(env, state, next, 0)
            &&& outcome matches Ok(nodes) ==> {
                &&& step(env, state, next, optional_cycles(nodes), 0)
                &&& renamed(state, next, optional_named(nodes, state.named_cycles))
            }
        }),
    decreases env.tokens.len() - state.pos, 3int,
{
    lemma_quiet_step(env, state, state, 0);
    if end.end is Empty {
        lemma_inside(env, state, seq![EndTagType::EndFor], "empty"@, end.at);
    }
}

proof fn lemma_nodes_of(env: Env, state: State, nodes: Seq<TokenTreeView>, first: State)
    requires
        0 <= state.pos <= env.tokens.len(),
        step(env, first, state, nodes_cycles(nodes), 0),
        renamed(first, state, nodes_named(nodes, first.named_cycles)),
    ensures
        ({
            let (last, outcome) = nodes_of(env, state, nodes);
            &&& climbs(env, state, last, 0)
            &&& outcome matches Ok(all) ==> {
                &&& last.pos == env.tokens.len()
                &&& step(env, first, last, nodes_cycles(all), 0)
                &&& renamed(first, last, nodes_named(all, first.named_cycles))
            }
        }),
    decreases env.tokens.len() - state.pos,
{
    if state.pos < env.tokens.len() {
        lemma_read_next(env, state);
        let (next, outcome) = read_next(env, state);
        if let Ok(read) = outcome {
            lemma_steps(env, first, state, next, nodes_cycles(nodes), read_cycles(read), 0);
            match read {
                ReadView::Node(node) => {
                    assert(nodes.push(node).drop_last() =~= nodes);
                    lemma_nodes_of(env, next, nodes.push(node), first);
                },
                ReadView::Nothing => {
                    assert(nodes_cycles(nodes).union(Set::empty()) =~= nodes_cycles(nodes));
                    lemma_nodes_of(env, next, nodes, first);
                },
                ReadView::End(_) => {},
            }
        }
    }
}

/// What is inside a tag takes up a token or more, and no for loop is left open in it.
pub proof fn lemma_inside_advances(
    env: Env,
    state: State,
    until: Seq<EndTagType<Seq<char>>>,
    start: Seq<char>,
    start_at: At,
)
    requires
        0 <= state.pos <= env.tokens.len(),
    ensures
        ({
            let (next, outcome) = nodes_until(env, state, until, start, start_at, Seq::empty());
            outcome is Ok ==> advanced(env, state, next) && next.forloop_depth
                == state.forloop_depth
        }),
{
    lemma_inside(env, state, until, start, start_at);
}

/// What the next token stands for takes up a token or more.
pub proof fn lemma_reading_advances(env: Env, state: State)
    requires
        0 <= state.pos < env.tokens.len(),
    ensures
        read_next(env, state).1 is Ok ==> advanced(env, state, read_next(env, state).0),
{
    lemma_read_next(env, state);
}

/// An if tag is a node.
pub proof fn lemma_if_is_a_node(
    env: Env,
    state: State,
    at: At,
    arguments: Arguments,
    start: Seq<char>,
)
    requires
        0 <= state.pos <= env.tokens.len(),
    ensures
        if_at(env, state, at, arguments, start).1 matches Ok(read) ==> read is Node,
{
    lemma_if(env, state, at, arguments, start);
}

/// A tree stands for all the tokens of its template, and every for loop of it has been ended.
pub proof fn law_all_tokens_are_read(env: Env, state: State)
    requires
        0 <= state.pos <= env.tokens.len(),
    ensures
        ({
            let (last, outcome) = nodes_of(env, state, Seq::empty());
            outcome is Ok ==> {
                &&& last.pos == env.tokens.len()
                &&& last.forloop_depth == state.forloop_depth
            }
        }),
{
    lemma_quiet_step(env, state, state, 0);
    assert(nodes_cycles(Seq::empty()) == Set::<CycleView>::empty());
    assert(nodes_named(Seq::empty(), state.named_cycles) == state.named_cycles);
    lemma_nodes_of(env, state, Seq::empty(), state);
}

/// Two cycle tags of a template are told by the same number only where they are the same cycle,
/// unless the numbers have run out.
pub proof fn law_cycles_are_told_apart(
    env: Env,
    next_cycle_id: usize,
    external_filters: Map<Seq<char>, PyObject>,
)
    requires
        next_cycle_id + env.tokens.len() <= usize::MAX,
    ensures
        ({
            let state = new_state(next_cycle_id, external_filters);
            nodes_of(env, state, Seq::empty()).1 matches Ok(nodes) ==> {
                forall|c: CycleView, d: CycleView| #[trigger]
                    nodes_cycles(nodes).contains(c) && #[trigger] nodes_cycles(nodes).contains(d)
                        && cycle_id(c) == cycle_id(d) ==> c == d
            }
        }),
{
    lemma_new_parser(env, next_cycle_id, external_filters);
}

/// Every cycle tag of a template goes through two values or more.
pub proof fn law_cycles_have_two_values(
    env: Env,
    next_cycle_id: usize,
    external_filters: Map<Seq<char>, PyObject>,
)
    requires
        next_cycle_id + env.tokens.len() <= usize::MAX,
    ensures
        ({
            let state = new_state(next_cycle_id, external_filters);
            nodes_of(env, state, Seq::empty()).1 matches Ok(nodes) ==> {
                forall|c: CycleView| #[trigger]
                    nodes_cycles(nodes).contains(c) ==> simple_cycle(c).values.len() >= 2
            }
        }),
{
    lemma_new_parser(env, next_cycle_id, external_filters);
}

/// The number of every cycle of a template lies from the one that the parser was given up to the
/// one that it leaves for the next template, which never goes back, unless the numbers have run
/// out.
pub proof fn law_cycle_numbers_lie_between(
    env: Env,
    next_cycle_id: usize,
    external_filters: Map<Seq<char>, PyObject>,
)
    requires
        next_cycle_id + env.tokens.len() <= usize::MAX,
    ensures
        ({
            let state = new_state(next_cycle_id, external_filters);
            let (last, outcome) = nodes_of(env, state, Seq::empty());
            &&& next_cycle_id <= last.next_cycle_id
            &&& outcome matches Ok(nodes) ==> {
                forall|c: CycleView| #[trigger]
                    nodes_cycles(nodes).contains(c) ==> next_cycle_id <= cycle_id(c)
                        < last.next_cycle_id
            }
        }),
{
    lemma_new_parser(env, next_cycle_id, external_filters);
}

/// The cycles of two templates are told by different numbers, where the parser of the second one
/// goes on at the number that the parser of the first one left, or at a later one.
pub proof fn law_templates_share_no_cycle_numbers(
    first: Env,
    first_cycle_id: usize,
    first_filters: Map<Seq<char>, PyObject>,
    second: Env,
    second_cycle_id: usize,
    second_filters: Map<Seq<char>, PyObject>,
)
    requires
        first_cycle_id + first.tokens.len() <= usize::MAX,
        second_cycle_id + second.tokens.len() <= usize::MAX,
        nodes_of(first, new_state(first_cycle_id, first_filters), Seq::empty()).0.next_cycle_id
            <= second_cycle_id,
    ensures
        ({
            let one = nodes_of(first, new_state(first_cycle_id, first_filters), Seq::empty()).1;
            let two = nodes_of(second, new_state(second_cycle_id, second_filters), Seq::empty()).1;
            one is Ok && two is Ok ==> {
                forall|c: CycleView, d: CycleView| #[trigger]
                    nodes_cycles(one->Ok_0).contains(c) && #[trigger] nodes_cycles(
                        two->Ok_0,
                    ).contains(d) ==> cycle_id(c) < cycle_id(d)
            }
        }),
{
    lemma_new_parser(first, first_cycle_id, first_filters);
    lemma_new_parser(second, second_cycle_id, second_filters);
}

/// A cycle tag that only refers to a cycle by its name gives the cycle that the name stands for,
/// and neither takes a number nor changes what any name stands for.
pub proof fn law_references_take_no_number(
    env: Env,
    state: State,
    parts_at: At,
    reference: TagElementToken,
)
    requires
        reference.token_type is Variable,
        state.named_cycles.contains_key(span(env.template, reference.at)),
    ensures
        cycle_at(env, state, parts_at, seq![Ok(reference)]) == (
            state,
            Ok::<_, ParseError<Seq<char>>>(
                state.named_cycles[span(env.template, reference.at)],
            ),
        ),
{
    let tokens = seq![Ok::<_, LexerError>(reference)];
    assert(tokens.drop_first() =~= Seq::empty());
    assert(first_element_error(Seq::empty()) is None);
    assert(first_element_error(tokens) is None);
}

/// Once nodes have been read, every name stands for the last of their cycles that has it, in the
/// order of the source, or else for what it stood for before.
pub proof fn law_names_stand_for_the_latest_cycle(env: Env, state: State)
    requires
        0 <= state.pos <= env.tokens.len(),
        own_names(state.named_cycles),
    ensures
        ({
            let (last, outcome) = nodes_of(env, state, Seq::empty());
            outcome matches Ok(nodes) ==> {
                &&& own_names(last.named_cycles)
                &&& last.named_cycles == nodes_named(nodes, state.named_cycles)
            }
        }),
{
    lemma_quiet_step(env, state, state, 0);
    assert(nodes_cycles(Seq::empty()) == Set::<CycleView>::empty());
    assert(nodes_named(Seq::empty(), state.named_cycles) == state.named_cycles);
    lemma_nodes_of(env, state, Seq::empty(), state);
}

/// What names stand for changes with the cycles of what is read, and with nothing else.
pub proof fn law_names_change_with_cycles_only(env: Env, state: State)
    requires
        0 <= state.pos < env.tokens.len(),
        own_names(state.named_cycles),
    ensures
        ({
            let (next, outcome) = read_next(env, state);
            outcome matches Ok(read) ==> {
                &&& own_names(next.named_cycles)
                &&& next.named_cycles == read_named(read, state.named_cycles)
            }
        }),
{
    lemma_read_next(env, state);
}

/// A cycle tag with two values or more takes the next number, unless the numbers have run out, and
/// the name that it gives stands for it from then on; other names stand for what they did before.
pub proof fn law_definitions_take_the_next_number(
    env: Env,
    state: State,
    parts_at: At,
    tokens: Seq<Result<TagElementToken, LexerError>>,
)
    requires
        tokens.len() >= 2,
        state.next_cycle_id < usize::MAX,
    ensures
        ({
            let (next, outcome) = cycle_at(env, state, parts_at, tokens);
            outcome matches Ok(cycle) ==> {
                &&& cycle_id(cycle) == state.next_cycle_id
                &&& next.next_cycle_id == state.next_cycle_id + 1
                &&& next.named_cycles == (match cycle_name(cycle) {
                    Some(name) => state.named_cycles.insert(name, cycle),
                    None => state.named_cycles,
                })
            }
        }),
{
}

/// What the parser does between two of its steps: it reads what the next tokens stand for, or it
/// goes into or out of a tag that is around other nodes.
pub enum Turn {
    Read(ReadView),
    Pass { pos: int, forloop_depth: int },
}

/// The cycles that are seen in a turn.
pub open spec fn turn_cycles(turn: Turn) -> Set<CycleView> {
    match turn {
        Turn::Read(read) => read_cycles(read),
        Turn::Pass { .. } => Set::empty(),
    }
}

/// The parser may come from one state to another by a turn.
pub open spec fn takes_turn(env: Env, before: State, turn: Turn, after: State) -> bool {
    match turn {
        Turn::Read(read) => {
            &&& before.pos < env.tokens.len()
            &&& read_next(env, before) == (after, Ok::<_, Fault>(read))
        },
        Turn::Pass { pos, forloop_depth } => {
            &&& before.pos <= pos <= env.tokens.len()
            &&& after == (State { pos, forloop_depth, ..before })
        },
    }
}

/// The parser may come from one state to another by turns, through the states in between.
pub open spec fn takes_turns(env: Env, states: Seq<State>, turns: Seq<Turn>) -> bool {
    &&& states.len() == turns.len() + 1
    &&& forall|i: int|
        0 <= i < turns.len() ==> takes_turn(env, states[i], #[trigger] turns[i], states[i + 1])
}

/// A cycle is a given one, or has not a given name.
pub open spec fn is_the_one(c: CycleView, name: Seq<char>, cycle: CycleView) -> bool {
    cycle_name(c) == Some(name) ==> c == cycle
}

/// No cycle of some turns has a name, other than the one that has it already.
pub open spec fn define_no_other(turns: Seq<Turn>, name: Seq<char>, cycle: CycleView) -> bool {
    forall|i: int, c: CycleView|
        0 <= i < turns.len() && #[trigger] turn_cycles(turns[i]).contains(c) ==> is_the_one(
            c,
            name,
            cycle,
        )
}

/// Nodes without another cycle of some name leave what it stands for.
proof fn lemma_nodes_pass_over(
    nodes: Seq<TokenTreeView>,
    named: Map<Seq<char>, CycleView>,
    name: Seq<char>,
    cycle: CycleView,
)
    requires
        forall|c: CycleView| #[trigger]
            nodes_cycles(nodes).contains(c) ==> is_the_one(c, name, cycle),
        named.contains_key(name),
        named[name] == cycle,
    ensures
        nodes_named(nodes, named).contains_key(name),
        nodes_named(nodes, named)[name] == cycle,
    decreases nodes,
{
    if nodes.len() > 0 {
        let before = nodes.drop_last();
        assert forall|c: CycleView| #[trigger] nodes_cycles(before).contains(c) implies is_the_one(
            c,
            name,
            cycle,
        ) by {
            assert(nodes_cycles(nodes).contains(c));
        }
        assert forall|c: CycleView| #[trigger]
            node_cycles(nodes.last()).contains(c) implies is_the_one(c, name, cycle) by {
            assert(nodes_cycles(nodes).contains(c));
        }
        lemma_nodes_pass_over(before, named, name, cycle);
        lemma_node_passes_over(nodes.last(), nodes_named(before, named), name, cycle);
    }
}

/// A node without another cycle of some name leaves what it stands for.
proof fn lemma_node_passes_over(
    node: TokenTreeView,
    named: Map<Seq<char>, CycleView>,
    name: Seq<char>,
    cycle: CycleView,
)
    requires
        forall|c: CycleView| #[trigger]
            node_cycles(node).contains(c) ==> is_the_one(c, name, cycle),
        named.contains_key(name),
        named[name] == cycle,
    ensures
        node_named(node, named).contains_key(name),
        node_named(node, named)[name] == cycle,
    decreases node,
{
    if let TokenTreeView::Tag(tag) = node {
        match tag {
            TagView::Autoescape { nodes, .. } => {
                assert forall|c: CycleView| #[trigger]
                    nodes_cycles(nodes).contains(c) implies is_the_one(c, name, cycle) by {
                    assert(node_cycles(node).contains(c));
                }
                lemma_nodes_pass_over(nodes, named, name, cycle);
            },
            TagView::If { truthy, falsey, .. } => {
                assert forall|c: CycleView| #[trigger]
                    nodes_cycles(truthy).contains(c) implies is_the_one(c, name, cycle) by {
                    assert(node_cycles(node).contains(c));
                }
                lemma_nodes_pass_over(truthy, named, name, cycle);
                if let Some(nodes) = falsey {
                    assert forall|c: CycleView| #[trigger]
                        nodes_cycles(nodes).contains(c) implies is_the_one(c, name, cycle) by {
                        assert(node_cycles(node).contains(c));
                    }
                    lemma_nodes_pass_over(nodes, nodes_named(truthy, named), name, cycle);
                }
            },
            TagView::For(inner) => {
                assert forall|c: CycleView| #[trigger]
                    nodes_cycles(inner.body).contains(c) implies is_the_one(c, name, cycle) by {
                    assert(node_cycles(node).contains(c));
                }
                lemma_nodes_pass_over(inner.body, named, name, cycle);
                if let Some(nodes) = inner.empty {
                    assert forall|c: CycleView| #[trigger]
                        nodes_cycles(nodes).contains(c) implies is_the_one(c, name, cycle) by {
                        assert(node_cycles(node).contains(c));
                    }
                    lemma_nodes_pass_over(nodes, nodes_named(inner.body, named), name, cycle);
                }
            },
            TagView::SimpleBlockTag(block) => {
                assert forall|c: CycleView| #[trigger]
                    nodes_cycles(block.nodes).contains(c) implies is_the_one(c, name, cycle) by {
                    assert(node_cycles(node).contains(c));
                }
                lemma_nodes_pass_over(block.nodes, named, name, cycle);
            },
            TagView::Cycle(c) => {
                assert(node_cycles(node).contains(c));
            },
            _ => {},
        }
    }
}

/// The numbers of cycles go on, the names stay those of the cycles that they stand for, and a name
/// that no other cycle has been given in between stands for what it did.
proof fn lemma_turns(
    env: Env,
    states: Seq<State>,
    turns: Seq<Turn>,
    name: Seq<char>,
    cycle: CycleView,
)
    requires
        takes_turns(env, states, turns),
        0 <= states[0].pos <= env.tokens.len(),
        states[0].next_cycle_id + (env.tokens.len() - states[0].pos) <= usize::MAX,
        own_names(states[0].named_cycles),
    ensures
        ({
            let (first, last) = (states[0], states.last());
            &&& first.next_cycle_id <= last.next_cycle_id
            &&& own_names(last.named_cycles)
            &&& first.named_cycles.contains_key(name) && first.named_cycles[name] == cycle
                && define_no_other(turns, name, cycle) ==> {
                &&& last.named_cycles.contains_key(name)
                &&& last.named_cycles[name] == cycle
            }
        }),
    decreases turns.len(),
{
    if turns.len() > 0 {
        let (first, second) = (states[0], states[1]);
        let rest = states.drop_first();
        let later = turns.drop_first();
        assert(takes_turn(env, states[0], turns[0], states[1]));
        assert forall|i: int| 0 <= i < later.len() implies takes_turn(
            env,
            rest[i],
            #[trigger] later[i],
            rest[i + 1],
        ) by {
            assert(later[i] == turns[i + 1]);
        }
        if let Turn::Read(read) = turns[0] {
            lemma_read_next(env, first);
            if first.named_cycles.contains_key(name) && first.named_cycles[name] == cycle
                && define_no_other(turns, name, cycle) {
                if let ReadView::Node(node) = read {
                    assert forall|c: CycleView| #[trigger]
                        node_cycles(node).contains(c) implies is_the_one(c, name, cycle) by {
                        assert(turn_cycles(turns[0]).contains(c));
                    }
                    lemma_node_passes_over(node, first.named_cycles, name, cycle);
                }
            }
        }
        lemma_turns(env, rest, later, name, cycle);
        if define_no_other(turns, name, cycle) {
            assert forall|i: int, c: CycleView|
                0 <= i < later.len() && #[trigger] turn_cycles(later[i]).contains(
                    c,
                ) implies is_the_one(c, name, cycle) by {
                assert(later[i] == turns[i + 1]);
                assert(turn_cycles(turns[i + 1]).contains(c));
            }
        }
        assert(rest.last() == states.last());
    }
}

/// A cycle that is defined differs by its number from every cycle that is defined later on, by the
/// same parser after any turns, or by a parser that goes on at the number that is left then or at a
/// later one. If it has a name, a later reference to the name, before another cycle of that name
/// is defined, gives that very cycle and takes no number.
///
/// The numbers must not have run out: there is one for the cycle and for each token that is left.
pub proof fn law_definitions_differ_and_are_referred_to(
    env: Env,
    state: State,
    parts_at: At,
    tokens: Seq<Result<TagElementToken, LexerError>>,
    states: Seq<State>,
    turns: Seq<Turn>,
    other_env: Env,
    other_state: State,
    other_at: At,
    other_tokens: Seq<Result<TagElementToken, LexerError>>,
    reference: TagElementToken,
)
    requires
        tokens.len() >= 2,
        0 <= state.pos <= env.tokens.len(),
        state.next_cycle_id + (env.tokens.len() - state.pos) + 1 <= usize::MAX,
        own_names(state.named_cycles),
        takes_turns(env, states, turns),
        states[0] == cycle_at(env, state, parts_at, tokens).0,
    ensures
        ({
            let later = states.last();
            let other = cycle_at(other_env, other_state, other_at, other_tokens).1;
            let referred = cycle_at(env, later, other_at, seq![Ok(reference)]);
            cycle_at(env, state, parts_at, tokens).1 matches Ok(cycle) ==> {
                &&& cycle_id(cycle) < later.next_cycle_id
                &&& other_tokens.len() >= 2 && later.next_cycle_id <= other_state.next_cycle_id
                    ==> (other matches Ok(another) ==> cycle_id(cycle) < cycle_id(another))
                &&& reference.token_type is Variable && cycle_name(cycle) == Some(
                    span(env.template, reference.at),
                ) && define_no_other(turns, span(env.template, reference.at), cycle) ==> referred
                    == (later, Ok::<_, ParseError<Seq<char>>>(cycle))
            }
        }),
{
    let name = span(env.template, reference.at);
    let (next, outcome) = cycle_at(env, state, parts_at, tokens);
    lemma_cycle(env, state, parts_at, tokens);
    if let Ok(cycle) = outcome {
        law_definitions_take_the_next_number(env, state, parts_at, tokens);
        lemma_turns(env, states, turns, name, cycle);
        let later = states.last();
        if reference.token_type is Variable && later.named_cycles.contains_key(name) {
            law_references_take_no_number(env, later, other_at, reference);
        }
    }
}

proof fn lemma_new_parser(
    env: Env,
    next_cycle_id: usize,
    external_filters: Map<Seq<char>, PyObject>,
)
    requires
        next_cycle_id + env.tokens.len() <= usize::MAX,
    ensures
        ({
            let state = new_state(next_cycle_id, external_filters);
            let (last, outcome) = nodes_of(env, state, Seq::empty());
            &&& next_cycle_id <= last.next_cycle_id
            &&& outcome matches Ok(nodes) ==> {
                &&& last.named_cycles == nodes_named(nodes, Map::empty())
                &&& forall|c: CycleView| #[trigger]
                    nodes_cycles(nodes).contains(c) ==> {
                        &&& next_cycle_id <= cycle_id(c) < last.next_cycle_id
                        &&& simple_cycle(c).values.len() >= 2
                    }
                &&& forall|c: CycleView, d: CycleView| #[trigger]
                    nodes_cycles(nodes).contains(c) && #[trigger] nodes_cycles(nodes).contains(d)
                        && cycle_id(c) == cycle_id(d) ==> c == d
            }
        }),
{
    let state = new_state(next_cycle_id, external_filters);
    lemma_quiet_step(env, state, state, 0);
    assert(nodes_cycles(Seq::empty()) == Set::<CycleView>::empty());
    assert(nodes_named(Seq::empty(), state.named_cycles) == state.named_cycles);
    lemma_nodes_of(env, state, Seq::empty(), state);
    let (last, outcome) = nodes_of(env, state, Seq::empty());
    if let Ok(nodes) = outcome {
        let all = nodes_cycles(nodes).union(last.named_cycles.values());
        assert forall|c: CycleView| #[trigger] nodes_cycles(nodes).contains(c) implies all.contains(
            c,
        ) by {}
    }
}

} // verus!
