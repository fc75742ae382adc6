//! How tags make up the tree of a template.
use vstd::prelude::*;
use crate::lexer::tokens::{source_tag, Arguments, TokenType};
use crate::parse::condition::condition_of;
use crate::parse::elements::variable_of;
use crate::parse::errors::{ParseError, PyParseError};
use crate::parse::grammar::{
    autoescape_at, comment_at, comment_end, cycle_at, end_tag_text, end_tag_texts, ends_comment,
    external_tag_at, for_at, for_ends, if_at, if_ends, loaded, nodes_of, nodes_until, read_next,
    tag_at, Fault, ReadView,
};
use crate::parse::laws::{lemma_if_is_a_node, lemma_inside_advances, lemma_reading_advances};
use crate::parse::library::TagContextView;
use crate::parse::parser::{new_state, scope_of, Env, State};
use crate::parse::tags::{firstof_of, for_loop_of, include_of, lorem_of, now_of, url_of};
use crate::parse::tree::{EndTagType, TagElement, TagView, TokenTreeView};
use crate::text::{span, At};
use crate::types::PyObject;

verus! {

/// The name of a built-in tag, as it stands in a template.
pub open spec fn tag_name(tag: TagView) -> Option<Seq<char>> {
    match tag {
        TagView::Autoescape { .. } => Some("autoescape"@),
        TagView::If { .. } => Some("if"@),
        TagView::For(_) => Some("for"@),
        TagView::Include(_) => Some("include"@),
        TagView::Load => Some("load"@),
        TagView::SimpleTag(_) => None,
        TagView::SimpleBlockTag(_) => None,
        TagView::Url(_) => Some("url"@),
        TagView::CsrfToken(_) => Some("csrf_token"@),
        TagView::Lorem(_) => Some("lorem"@),
        TagView::Comment(_) => Some("comment"@),
        TagView::Now(_) => Some("now"@),
        TagView::FirstOf(_) => Some("firstof"@),
        TagView::TemplateTag(_) => Some("templatetag"@),
        TagView::Cycle(_) => Some("cycle"@),
    }
}

/// The names of the built-in tags can be told apart.
proof fn lemma_names_differ()
    ensures
        "url"@.len() == 3,
        "url"@[0] == 'u',
        "firstof"@.len() == 7,
        "firstof"@[0] == 'f',
        "csrf_token"@.len() == 10,
        "csrf_token"@[0] == 'c',
        "load"@.len() == 4,
        "load"@[0] == 'l',
        "autoescape"@.len() == 10,
        "autoescape"@[0] == 'a',
        "endautoescape"@.len() == 13,
        "endautoescape"@[0] == 'e',
        "endverbatim"@.len() == 11,
        "endverbatim"@[0] == 'e',
        "if"@.len() == 2,
        "if"@[0] == 'i',
        "elif"@.len() == 4,
        "elif"@[0] == 'e',
        "else"@.len() == 4,
        "else"@[0] == 'e',
        "endif"@.len() == 5,
        "endif"@[0] == 'e',
        "for"@.len() == 3,
        "for"@[0] == 'f',
        "empty"@.len() == 5,
        "empty"@[0] == 'e',
        "endfor"@.len() == 6,
        "endfor"@[0] == 'e',
        "include"@.len() == 7,
        "include"@[0] == 'i',
        "lorem"@.len() == 5,
        "lorem"@[0] == 'l',
        "comment"@.len() == 7,
        "comment"@[0] == 'c',
        "now"@.len() == 3,
        "now"@[0] == 'n',
        "templatetag"@.len() == 11,
        "templatetag"@[0] == 't',
        "cycle"@.len() == 5,
        "cycle"@[0] == 'c',
        "elif"@[2] == 'i',
        "else"@[2] == 's',
        "endif"@[1] == 'n',
        "empty"@[1] == 'm',
{
    reveal_strlit("url");
    reveal_strlit("firstof");
    reveal_strlit("csrf_token");
    reveal_strlit("load");
    reveal_strlit("autoescape");
    reveal_strlit("endautoescape");
    reveal_strlit("endverbatim");
    reveal_strlit("if");
    reveal_strlit("elif");
    reveal_strlit("else");
    reveal_strlit("endif");
    reveal_strlit("for");
    reveal_strlit("empty");
    reveal_strlit("endfor");
    reveal_strlit("include");
    reveal_strlit("lorem");
    reveal_strlit("comment");
    reveal_strlit("now");
    reveal_strlit("templatetag");
    reveal_strlit("cycle");
}

/// What is read of a tag with a name is what the name says.
pub open spec fn is_called(
    state: State,
    at: At,
    name: Seq<char>,
    outcome: Result<ReadView, Fault>,
) -> bool {
    match outcome {
        Ok(ReadView::Node(TokenTreeView::Tag(tag))) => match tag_name(tag) {
            Some(called) => name == called,
            None => state.external_tags.contains_key(name) && match state.external_tags[name] {
                TagContextView::Simple(context) => tag matches TagView::SimpleTag(simple)
                    && simple.func == context.func && simple.at == at && simple.takes_context
                    == context.takes_context,
                TagContextView::SimpleBlock { context, .. } => tag matches
                    TagView::SimpleBlockTag(block) && block.func == context.func && block.at == at
                    && block.takes_context == context.takes_context,
                TagContextView::EndSimpleBlock => false,
            },
        },
        Ok(ReadView::Node(_)) => false,
        Ok(ReadView::Nothing) => false,
        Ok(ReadView::End(end)) => {
            &&& end_tag_text(end.end) == name
            &&& end.at == at
            &&& end.token == state.pos - 1
            &&& end.end is Custom ==> state.external_tags.contains_key(name)
                && state.external_tags[name] is EndSimpleBlock
        },
        Err(_) => true,
    }
}

proof fn lemma_external_is_called(
    env: Env,
    state: State,
    at: At,
    parts_at: At,
    arguments: Arguments,
    name: Seq<char>,
)
    ensures
        is_called(
            state,
            at,
            name,
            external_tag_at(env, state, at, parts_at, arguments, name).1,
        ),
{
}

proof fn lemma_parts_are_called(env: Env, state: State, at: At, arguments: Arguments)
    requires
        0 <= state.pos <= env.tokens.len(),
    ensures
        is_called(state, at, "if"@, if_at(env, state, at, arguments, "if"@).1),
        is_called(state, at, "for"@, for_at(env, state, at, arguments).1),
        is_called(state, at, "autoescape"@, autoescape_at(env, state, at, arguments).1),
{
    law_ifs_are_made_of_their_parts(env, state, at, arguments, "if"@);
    law_fors_are_made_of_their_parts(env, state, at, arguments);
    law_autoescapes_are_made_of_their_nodes(env, state, at, arguments);
}

/// A tag is what its name says: a built-in one is called by its own name, one that ends a part of
/// the tree by what it ends, and any other by the name that a library gave to it.
#[verifier::rlimit(60)]
pub proof fn law_tags_are_what_they_are_called(env: Env, state: State, at: At, arguments: Arguments)
    requires
        0 <= state.pos <= env.tokens.len(),
    ensures
        source_tag(env.template, at) matches Ok(source) ==> is_called(
            state,
            at,
            span(env.template, source.at),
            tag_at(env, state, at, arguments).1,
        ),
        source_tag(env.template, at) is Err ==> tag_at(env, state, at, arguments).1 is Err,
{
    if let Ok(source) = source_tag(env.template, at) {
        let name = span(env.template, source.at);
        lemma_parts_are_called(env, state, at, arguments);
        lemma_external_is_called(env, state, at, source.parts.at, arguments, name);
    }
}

/// An if tag is made of its condition, of what is read up to `elif`, `else` or `endif`, and of what
/// follows from there: one more if tag, the nodes up to `endif`, or nothing.
pub proof fn law_ifs_are_made_of_their_parts(
    env: Env,
    state: State,
    at: At,
    arguments: Arguments,
    start: Seq<char>,
)
    requires
        0 <= state.pos <= env.tokens.len(),
    ensures
        if_at(env, state, at, arguments, start).1 matches Ok(read) ==> {
            let (next, first) = nodes_until(env, state, if_ends(), start, at, Seq::empty());
            read matches ReadView::Node(
                TokenTreeView::Tag(TagView::If { condition, truthy, falsey }),
            ) && {
                &&& condition_of(scope_of(env, state), arguments->If_0@, at) == Ok::<
                    _,
                    ParseError<Seq<char>>,
                >(condition)
                &&& first matches Ok((nodes, end)) && truthy == nodes && match end.end {
                    EndTagType::Elif => falsey is Some && falsey->0.len() == 1
                        && falsey->0[0] is Tag && falsey->0[0]->Tag_0 is If && if_at(
                        env,
                        next,
                        end.at,
                        env.tokens[end.token].token_type->Tag_0,
                        "elif"@,
                    ).1 == Ok::<_, Fault>(ReadView::Node(falsey->0[0])),
                    EndTagType::Else => falsey is Some && (nodes_until(
                        env,
                        next,
                        seq![EndTagType::EndIf],
                        "else"@,
                        end.at,
                        Seq::empty(),
                    ).1 matches Ok((others, _)) && others == falsey->0),
                    EndTagType::EndIf => falsey is None,
                    _ => false,
                }
            }
        },
    decreases env.tokens.len() - state.pos,
{
    lemma_inside_advances(env, state, if_ends(), start, at);
    let (next, first) = nodes_until(env, state, if_ends(), start, at, Seq::empty());
    if let Ok((nodes, end)) = first {
        lemma_ended(env, state, if_ends(), start, at, Seq::empty());
        assert(if_ends().contains(end.end));
        let i = choose|i: int| 0 <= i < if_ends().len() && if_ends()[i] == end.end;
        if end.end is Elif {
            let more = env.tokens[end.token].token_type->Tag_0;
            lemma_if_is_a_node(env, next, end.at, more, "elif"@);
            law_ifs_are_made_of_their_parts(env, next, end.at, more, "elif"@);
        }
    }
}

/// What ends some nodes is one of the tags that may.
proof fn lemma_ended(
    env: Env,
    state: State,
    until: Seq<EndTagType<Seq<char>>>,
    start: Seq<char>,
    start_at: At,
    nodes: Seq<TokenTreeView>,
)
    requires
        0 <= state.pos <= env.tokens.len(),
    ensures
        nodes_until(env, state, until, start, start_at, nodes).1 matches Ok((_, end))
            ==> until.contains(end.end),
    decreases env.tokens.len() - state.pos,
{
    if state.pos < env.tokens.len() {
        lemma_reading_advances(env, state);
        let (next, outcome) = read_next(env, state);
        match outcome {
            Ok(ReadView::Nothing) => {
                lemma_ended(env, next, until, start, start_at, nodes);
            },
            Ok(ReadView::Node(node)) => {
                lemma_ended(env, next, until, start, start_at, nodes.push(node));
            },
            _ => {},
        }
    }
}

/// A for tag is made of what it says, read within one more loop, of what is read up to `empty` or
/// `endfor` within this loop, and of the nodes from `empty` up to `endfor` outside of it, if there
/// are any.
pub proof fn law_fors_are_made_of_their_parts(env: Env, state: State, at: At, arguments: Arguments)
    requires
        0 <= state.pos <= env.tokens.len(),
    ensures
        for_at(env, state, at, arguments).1 matches Ok(read) ==> {
            let inner = State { forloop_depth: state.forloop_depth + 1, ..state };
            let (next, first) = nodes_until(env, inner, for_ends(), "for"@, at, Seq::empty());
            let outer = State { forloop_depth: state.forloop_depth, ..next };
            read matches ReadView::Node(TokenTreeView::Tag(TagView::For(tag))) && {
                &&& for_loop_of(scope_of(env, inner), arguments->For_0, at) matches Ok(said)
                    && said.0 == tag.iterable && said.1 == tag.variables && said.2 == tag.reversed
                &&& first matches Ok((nodes, end)) && tag.body == nodes && match end.end {
                    EndTagType::Empty => tag.empty is Some && (nodes_until(
                        env,
                        outer,
                        seq![EndTagType::EndFor],
                        "empty"@,
                        end.at,
                        Seq::empty(),
                    ).1 matches Ok((others, _)) && others == tag.empty->0),
                    EndTagType::EndFor => tag.empty is None,
                    _ => false,
                }
            }
        },
{
    let inner = State { forloop_depth: state.forloop_depth + 1, ..state };
    lemma_inside_advances(env, inner, for_ends(), "for"@, at);
    let (next, first) = nodes_until(env, inner, for_ends(), "for"@, at, Seq::empty());
    if let Ok((nodes, end)) = first {
        lemma_ended(env, inner, for_ends(), "for"@, at, Seq::empty());
        let i = choose|i: int| 0 <= i < for_ends().len() && for_ends()[i] == end.end;
        assert(State { forloop_depth: next.forloop_depth - 1, ..next } == State {
            forloop_depth: state.forloop_depth,
            ..next
        });
    }
}

/// An autoescape tag switches escaping as it says, for the nodes up to the tag that ends it.
pub proof fn law_autoescapes_are_made_of_their_nodes(
    env: Env,
    state: State,
    at: At,
    arguments: Arguments,
)
    requires
        0 <= state.pos <= env.tokens.len(),
    ensures
        autoescape_at(env, state, at, arguments).1 matches Ok(read) ==> {
            &&& read matches ReadView::Node(
                TokenTreeView::Tag(TagView::Autoescape { enabled, nodes }),
            ) && (arguments->Autoescape_0 matches Ok(said) && said == enabled) && (nodes_until(
                env,
                state,
                seq![EndTagType::Autoescape],
                "autoescape"@,
                at,
                Seq::empty(),
            ).1 matches Ok((inside, _)) && inside == nodes)
        },
{
}

/// The names that are built in.
pub open spec fn is_built_in(name: Seq<char>) -> bool {
    ||| exists|tag: TagView| #[trigger] tag_name(tag) == Some(name)
    ||| name == "endautoescape"@
    ||| name == "endverbatim"@
    ||| name == "elif"@
    ||| name == "else"@
    ||| name == "endif"@
    ||| name == "empty"@
    ||| name == "endfor"@
}

/// A tag that ends a part of the tree is read wherever its name stands.
pub proof fn law_end_tags_are_read_by_name(
    env: Env,
    state: State,
    at: At,
    arguments: Arguments,
    end: EndTagType<Seq<char>>,
)
    requires
        source_tag(env.template, at) matches Ok(source) && span(env.template, source.at)
            == end_tag_text(end),
        end is Custom ==> state.external_tags.contains_key(end->Custom_0)
            && state.external_tags[end->Custom_0] is EndSimpleBlock && !is_built_in(end->Custom_0),
    ensures
        tag_at(env, state, at, arguments).0 == state,
        tag_at(env, state, at, arguments).1 matches Ok(ReadView::End(read)) && read.end == end
            && read.at == at,
{
    lemma_names_differ();
    if end is Custom {
        let name = end->Custom_0;
        lemma_every_name_is_built_in(name);
    }
}

/// Each name that is told apart is that of some tag.
proof fn lemma_every_name_is_built_in(name: Seq<char>)
    requires
        !is_built_in(name),
    ensures
        name != "url"@,
        name != "firstof"@,
        name != "csrf_token"@,
        name != "load"@,
        name != "autoescape"@,
        name != "endautoescape"@,
        name != "endverbatim"@,
        name != "if"@,
        name != "elif"@,
        name != "else"@,
        name != "endif"@,
        name != "for"@,
        name != "empty"@,
        name != "endfor"@,
        name != "include"@,
        name != "lorem"@,
        name != "comment"@,
        name != "now"@,
        name != "templatetag"@,
        name != "cycle"@,
{
    assert(tag_name(TagView::Autoescape { enabled: arbitrary(), nodes: arbitrary() }) == Some(
        "autoescape"@,
    ));
    assert(tag_name(
        TagView::If { condition: arbitrary(), truthy: arbitrary(), falsey: arbitrary() },
    ) == Some("if"@));
    assert(tag_name(TagView::For(arbitrary())) == Some("for"@));
    assert(tag_name(TagView::Include(arbitrary())) == Some("include"@));
    assert(tag_name(TagView::Load) == Some("load"@));
    assert(tag_name(TagView::Url(arbitrary())) == Some("url"@));
    assert(tag_name(TagView::CsrfToken(arbitrary())) == Some("csrf_token"@));
    assert(tag_name(TagView::Lorem(arbitrary())) == Some("lorem"@));
    assert(tag_name(TagView::Comment(arbitrary())) == Some("comment"@));
    assert(tag_name(TagView::Now(arbitrary())) == Some("now"@));
    assert(tag_name(TagView::FirstOf(arbitrary())) == Some("firstof"@));
    assert(tag_name(TagView::TemplateTag(arbitrary())) == Some("templatetag"@));
    assert(tag_name(TagView::Cycle(arbitrary())) == Some("cycle"@));
}

/// A node that is a tag.
pub open spec fn tag_read(tag: TagView) -> Result<ReadView, Fault> {
    Ok(ReadView::Node(TokenTreeView::Tag(tag)))
}

/// A tag that stands on its own is read just where its arguments say what it is.
#[verifier::rlimit(60)]
pub proof fn law_built_in_tags_are_read(env: Env, state: State, at: At, arguments: Arguments)
    requires
        source_tag(env.template, at) is Ok,
    ensures
        ({
            let source = source_tag(env.template, at)->Ok_0;
            let name = span(env.template, source.at);
            let scope = scope_of(env, state);
            let (next, outcome) = tag_at(env, state, at, arguments);
            &&& name == "url"@ ==> match url_of(scope, at, arguments->Kwargs_0@) {
                Ok(url) => outcome == tag_read(TagView::Url(url)),
                Err(_) => outcome is Err,
            }
            &&& name == "firstof"@ ==> match firstof_of(
                scope,
                source.parts.at,
                arguments->Kwargs_0@,
            ) {
                Ok(tag) => outcome == tag_read(TagView::FirstOf(tag)),
                Err(_) => outcome is Err,
            }
            &&& name == "include"@ ==> match include_of(
                scope,
                env.engine,
                env.origin,
                at,
                arguments->Include_0,
            ) {
                Ok(tag) => outcome == tag_read(TagView::Include(tag)),
                Err(_) => outcome is Err,
            }
            &&& name == "lorem"@ ==> match lorem_of(scope, arguments->Lorem_0@) {
                Ok(tag) => outcome == tag_read(TagView::Lorem(tag)),
                Err(_) => outcome is Err,
            }
            &&& name == "now"@ ==> match now_of(env.template, arguments->Now_0) {
                Ok(tag) => outcome == tag_read(TagView::Now(tag)),
                Err(_) => outcome is Err,
            }
            &&& name == "templatetag"@ ==> match arguments->TemplateTag_0 {
                Ok(tag) => outcome == tag_read(TagView::TemplateTag(tag)),
                Err(_) => outcome is Err,
            }
            &&& name == "csrf_token"@ ==> outcome is Ok
            &&& name == "cycle"@ ==> {
                let (after, cycle) = cycle_at(
                    env,
                    state,
                    source.parts.at,
                    arguments->Elements_0@,
                );
                next == after && match cycle {
                    Ok(cycle) => outcome == tag_read(TagView::Cycle(cycle)),
                    Err(_) => outcome is Err,
                }
            }
            &&& name == "load"@ ==> {
                let (after, load) = loaded(env, state, at, arguments->Load_0@);
                next == after && (load is Ok <==> outcome is Ok)
            }
            &&& name == "comment"@ ==> {
                let (after, comment) = comment_at(env, state, at);
                next == after && (comment is Ok <==> outcome is Ok)
            }
            &&& name == "if"@ ==> (next, outcome) == if_at(env, state, at, arguments, "if"@)
            &&& name == "for"@ ==> (next, outcome) == for_at(env, state, at, arguments)
            &&& name == "autoescape"@ ==> (next, outcome) == autoescape_at(
                env,
                state,
                at,
                arguments,
            )
            &&& name == "url"@ || name == "firstof"@ || name == "include"@ || name == "lorem"@
                || name == "now"@ || name == "templatetag"@ || name == "csrf_token"@ ==> next
                == state
        }),
{
    lemma_names_differ();
}

/// Any other tag is one that a library brought, or is not known.
#[verifier::rlimit(60)]
pub proof fn law_other_tags_come_from_libraries(
    env: Env,
    state: State,
    at: At,
    arguments: Arguments,
)
    requires
        source_tag(env.template, at) is Ok,
        !is_built_in(span(env.template, source_tag(env.template, at)->Ok_0.at)),
    ensures
        ({
            let source = source_tag(env.template, at)->Ok_0;
            let name = span(env.template, source.at);
            tag_at(env, state, at, arguments) == external_tag_at(
                env,
                state,
                at,
                source.parts.at,
                arguments,
                name,
            )
        }),
{
    lemma_every_name_is_built_in(span(env.template, source_tag(env.template, at)->Ok_0.at));
}

/// The nodes up to a tag that ends them come in the order in which they are read: those that were
/// before, and then each one that is read.
pub proof fn law_nodes_come_in_order(
    env: Env,
    state: State,
    until: Seq<EndTagType<Seq<char>>>,
    start: Seq<char>,
    start_at: At,
    nodes: Seq<TokenTreeView>,
)
    requires
        0 <= state.pos <= env.tokens.len(),
    ensures
        ({
            let (next, outcome) = nodes_until(env, state, until, start, start_at, nodes);
            let (fresh, alone) = nodes_until(env, state, until, start, start_at, Seq::empty());
            &&& next == fresh
            &&& outcome is Ok <==> alone is Ok
            &&& outcome is Ok ==> outcome->Ok_0.0 == nodes + alone->Ok_0.0 && outcome->Ok_0.1
                == alone->Ok_0.1
        }),
    decreases env.tokens.len() - state.pos,
{
    if state.pos < env.tokens.len() {
        lemma_reading_advances(env, state);
        let (next, outcome) = read_next(env, state);
        match outcome {
            Ok(ReadView::Nothing) => {
                law_nodes_come_in_order(env, next, until, start, start_at, nodes);
            },
            Ok(ReadView::Node(node)) => {
                law_nodes_come_in_order(env, next, until, start, start_at, nodes.push(node));
                law_nodes_come_in_order(env, next, until, start, start_at, seq![node]);
                let alone = nodes_until(env, next, until, start, start_at, Seq::empty()).1;
                assert(Seq::<TokenTreeView>::empty().push(node) =~= seq![node]);
                if alone is Ok {
                    let rest = alone->Ok_0.0;
                    assert(nodes.push(node) + rest =~= nodes + (seq![node] + rest));
                }
            },
            Ok(ReadView::End(_)) => {
                assert(nodes + Seq::<TokenTreeView>::empty() =~= nodes);
            },
            Err(_) => {},
        }
    }
}

/// The first node that is read comes first, and the rest follow it.
pub proof fn law_first_node_comes_first(
    env: Env,
    state: State,
    until: Seq<EndTagType<Seq<char>>>,
    start: Seq<char>,
    start_at: At,
)
    requires
        0 <= state.pos < env.tokens.len(),
        read_next(env, state).1 is Ok,
    ensures
        ({
            let (next, read) = read_next(env, state);
            let whole = nodes_until(env, state, until, start, start_at, Seq::empty()).1;
            let rest = nodes_until(env, next, until, start, start_at, Seq::empty()).1;
            match read->Ok_0 {
                ReadView::Node(node) => {
                    &&& whole is Ok <==> rest is Ok
                    &&& whole is Ok ==> whole->Ok_0.0 == seq![node] + rest->Ok_0.0
                },
                ReadView::Nothing => whole == rest,
                ReadView::End(end) => {
                    &&& whole is Ok <==> until.contains(end.end)
                    &&& whole is Ok ==> whole->Ok_0.0.len() == 0 && whole->Ok_0.1 == end
                },
            }
        }),
{
    lemma_reading_advances(env, state);
    let (next, read) = read_next(env, state);
    if let ReadView::Node(node) = read->Ok_0 {
        law_nodes_come_in_order(env, next, until, start, start_at, seq![node]);
        assert(Seq::<TokenTreeView>::empty().push(node) =~= seq![node]);
    }
}

proof fn lemma_template_goes_on(env: Env, state: State, nodes: Seq<TokenTreeView>)
    requires
        0 <= state.pos <= env.tokens.len(),
    ensures
        ({
            let outcome = nodes_of(env, state, nodes).1;
            let alone = nodes_of(env, state, Seq::empty()).1;
            &&& outcome is Ok <==> alone is Ok
            &&& outcome is Ok ==> outcome->Ok_0 == nodes + alone->Ok_0
        }),
    decreases env.tokens.len() - state.pos,
{
    if state.pos < env.tokens.len() {
        lemma_reading_advances(env, state);
        let (next, read) = read_next(env, state);
        match read {
            Ok(ReadView::Node(node)) => {
                lemma_template_goes_on(env, next, nodes.push(node));
                lemma_template_goes_on(env, next, seq![node]);
                assert(Seq::<TokenTreeView>::empty().push(node) =~= seq![node]);
                let rest = nodes_of(env, next, Seq::empty()).1;
                if rest is Ok {
                    assert(nodes.push(node) + rest->Ok_0 =~= nodes + (seq![node] + rest->Ok_0));
                }
            },
            Ok(ReadView::Nothing) => {
                lemma_template_goes_on(env, next, nodes);
            },
            _ => {},
        }
    } else {
        assert(nodes + Seq::<TokenTreeView>::empty() =~= nodes);
    }
}

/// The nodes of a template come in the order in which they are read, and no tag that ends a part
/// stands among them.
pub proof fn law_template_comes_in_order(env: Env, state: State)
    requires
        0 <= state.pos <= env.tokens.len(),
        nodes_of(env, state, Seq::empty()).1 is Ok,
    ensures
        ({
            let nodes = nodes_of(env, state, Seq::empty()).1->Ok_0;
            let (next, read) = read_next(env, state);
            let rest = nodes_of(env, next, Seq::empty()).1;
            if state.pos == env.tokens.len() {
                nodes.len() == 0
            } else {
                &&& read is Ok
                &&& rest is Ok
                &&& match read->Ok_0 {
                    ReadView::Node(node) => nodes == seq![node] + rest->Ok_0,
                    ReadView::Nothing => nodes == rest->Ok_0,
                    ReadView::End(_) => false,
                }
            }
        }),
{
    if state.pos < env.tokens.len() {
        lemma_reading_advances(env, state);
        let (next, read) = read_next(env, state);
        if let Ok(ReadView::Node(node)) = read {
            lemma_template_goes_on(env, next, seq![node]);
            assert(Seq::<TokenTreeView>::empty().push(node) =~= seq![node]);
        }
    }
}

/// Text is a node where it stands, what is between `{#` and `#}` is nothing, and a variable is the
/// node of its value.
pub proof fn law_tokens_are_nodes(env: Env, state: State)
    requires
        0 <= state.pos < env.tokens.len(),
    ensures
        ({
            let token = env.tokens[state.pos];
            let next = State { pos: state.pos + 1, ..state };
            let (after, read) = read_next(env, state);
            match token.token_type {
                TokenType::Text => after == next && (read matches Ok(
                    ReadView::Node(TokenTreeView::Text(text)),
                ) && text.at == token.at),
                TokenType::Comment => after == next && read == Ok::<_, Fault>(ReadView::Nothing),
                TokenType::Variable(variable) => after == next && match variable_of(
                    scope_of(env, state),
                    variable,
                    token.at,
                ) {
                    Ok(element) => read matches Ok(ReadView::Node(node)) && match element {
                        TagElement::Text(text) => node == TokenTreeView::Text(text),
                        TagElement::TranslatedText(text) => node == TokenTreeView::TranslatedText(
                            text,
                        ),
                        TagElement::Variable(v) => node == TokenTreeView::Variable(v),
                        TagElement::ForVariable(v) => node == TokenTreeView::ForVariable(v),
                        TagElement::Filter(filter) => node == TokenTreeView::Filter(*filter),
                        TagElement::Int(n) => node == TokenTreeView::Int(n),
                        TagElement::Float(f) => node == TokenTreeView::Float(f),
                    },
                    Err(_) => read is Err,
                },
                TokenType::Tag(arguments) => (after, read) == tag_at(
                    env,
                    next,
                    token.at,
                    arguments,
                ),
            }
        }),
{
}

proof fn lemma_comment_end(env: Env, pos: int)
    requires
        0 <= pos <= env.tokens.len(),
    ensures
        match comment_end(env, pos) {
            Some(end) => {
                &&& pos <= end < env.tokens.len()
                &&& ends_comment(env.template, env.tokens[end])
                &&& forall|i: int|
                    pos <= i < end ==> !ends_comment(env.template, #[trigger] env.tokens[i])
            },
            None => forall|i: int|
                pos <= i < env.tokens.len() ==> !ends_comment(
                    env.template,
                    #[trigger] env.tokens[i],
                ),
        },
    decreases env.tokens.len() - pos,
{
    if pos < env.tokens.len() && !ends_comment(env.template, env.tokens[pos]) {
        lemma_comment_end(env, pos + 1);
    }
}

/// A comment goes up to the first tag that ends it, whatever stands before that, and leaves nothing
/// behind; without such a tag it is refused.
pub proof fn law_comments_are_skipped(env: Env, state: State, at: At)
    requires
        0 <= state.pos <= env.tokens.len(),
    ensures
        ({
            let (next, outcome) = comment_at(env, state, at);
            &&& next == (State { pos: next.pos, ..state })
            &&& outcome is Ok ==> {
                &&& state.pos < next.pos <= env.tokens.len()
                &&& ends_comment(env.template, env.tokens[next.pos - 1])
                &&& forall|i: int|
                    state.pos <= i < next.pos - 1 ==> !ends_comment(
                        env.template,
                        #[trigger] env.tokens[i],
                    )
            }
            &&& outcome is Err ==> forall|i: int|
                state.pos <= i < env.tokens.len() ==> !ends_comment(
                    env.template,
                    #[trigger] env.tokens[i],
                )
        }),
{
    lemma_comment_end(env, state.pos);
}

/// A tag that is not ended is told of where it starts, with the tags that would end it; one that
/// is ended by another tag is told of where this stands.
pub proof fn law_wrong_ends_are_told_of(
    env: Env,
    state: State,
    until: Seq<EndTagType<Seq<char>>>,
    start: Seq<char>,
    start_at: At,
    nodes: Seq<TokenTreeView>,
)
    requires
        0 <= state.pos <= env.tokens.len(),
    ensures
        state.pos == env.tokens.len() ==> (nodes_until(
            env,
            state,
            until,
            start,
            start_at,
            nodes,
        ).1 matches Err(PyParseError::ParseError(e)) && (e matches ParseError::MissingEndTag {
            start: name,
            expected,
            at,
        } && name == start && at == start_at && expected == end_tag_texts(until))),
        state.pos < env.tokens.len() ==> (read_next(env, state).1 matches Ok(ReadView::End(end))
            ==> (!until.contains(end.end) ==> (nodes_until(
            env,
            state,
            until,
            start,
            start_at,
            nodes,
        ).1 matches Err(PyParseError::ParseError(e)) && (e matches ParseError::WrongEndTag {
            expected,
            unexpected,
            at,
            start_at: begun,
        } && expected == end_tag_texts(until) && unexpected == end_tag_text(end.end) && at == end.at
            && begun == start_at)))),
{
    if state.pos < env.tokens.len() {
        lemma_reading_advances(env, state);
    }
}

/// A parser begins at the first token, outside of every loop, with no cycle and no tag of a library
/// known, and with the filters that it is given.
pub proof fn law_parsers_begin_at_the_start(
    next_cycle_id: usize,
    filters: Map<Seq<char>, PyObject>,
)
    ensures
        ({
            let state = new_state(next_cycle_id, filters);
            &&& state.pos == 0
            &&& state.forloop_depth == 0
            &&& state.next_cycle_id == next_cycle_id
            &&& state.external_filters == filters
            &&& forall|name: Seq<char>| !(#[trigger] state.external_tags.contains_key(name))
            &&& forall|name: Seq<char>| !(#[trigger] state.named_cycles.contains_key(name))
        }),
{
}

} // verus!
