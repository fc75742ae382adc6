//! What the tokens of a template mean.
//!
//! Every function here takes the surroundings and the state of the parser, and gives the state
//! that it is left in along with the outcome.
use vstd::prelude::*;
use crate::dict::map_of;
use crate::lexer::tokens::{
    source_tag, tag_content, Arguments, LexerError, LoadToken, TagElementToken, Token, TokenType,
};
use crate::parse::arguments::custom_tag_parts;
use crate::parse::condition::condition_of;
use crate::parse::elements::{element_of, variable_of};
use crate::parse::errors::{ParseError, PyParseError, Unsupported};
use crate::parse::library::{
    library_help, tag_context, with_tag, SimpleTagContextView, TagContextView, TagSource,
};
use crate::parse::parser::{scope_of, Env, Scope, State};
use crate::parse::tags::{firstof_of, for_loop_of, include_of, lorem_of, now_of, url_of};
use crate::parse::tree::{
    element_node, Comment, CsrfToken, CycleId, CycleView, EndTagType, ForView, NamedCycleView,
    SimpleBlockTagView, SimpleCycleView, SimpleTagView, TagElement, TagView, TokenTreeView,
};
use crate::text::{span, At};
use crate::types::{PyObject, Text};
use crate::words::{first_word, joined_by};

verus! {

/// What is wrong with a template, or what Python raised.
pub type Fault = PyParseError<Seq<char>>;

/// The outcome of what only the template can be wrong about.
pub open spec fn lifted<T>(outcome: Result<T, ParseError<Seq<char>>>) -> Result<T, Fault> {
    match outcome {
        Ok(x) => Ok(x),
        Err(e) => Err(PyParseError::ParseError(e)),
    }
}

/// A tag that ends a part of the tree: where it stands, what it ends, and the position of its
/// token.
pub struct EndTagView {
    pub at: At,
    pub end: EndTagType<Seq<char>>,
    pub token: int,
}

/// What a token stands for.
pub enum ReadView {
    Nothing,
    Node(TokenTreeView),
    End(EndTagView),
}

/// The name of a tag that ends a part of the tree.
pub open spec fn end_tag_text(end: EndTagType<Seq<char>>) -> Seq<char> {
    match end {
        EndTagType::Autoescape => "endautoescape"@,
        EndTagType::Elif => "elif"@,
        EndTagType::Else => "else"@,
        EndTagType::EndIf => "endif"@,
        EndTagType::Empty => "empty"@,
        EndTagType::EndFor => "endfor"@,
        EndTagType::Verbatim => "endverbatim"@,
        EndTagType::Custom(name) => name,
    }
}

/// The names of tags that would end a part of the tree.
pub open spec fn end_tag_texts(until: Seq<EndTagType<Seq<char>>>) -> Seq<char> {
    joined_by(until.map_values(|end: EndTagType<Seq<char>>| end_tag_text(end)), ", "@)
}

/// The parser has read more tokens.
pub open spec fn advanced(env: Env, before: State, after: State) -> bool {
    before.pos < after.pos <= env.tokens.len()
}

/// What is reported of the first element that could not be read.
pub open spec fn first_element_error(tokens: Seq<Result<TagElementToken, LexerError>>) -> Option<
    LexerError,
>
    decreases tokens.len(),
{
    if tokens.len() == 0 {
        None
    } else {
        match tokens[0] {
            Err(e) => Some(e),
            Ok(_) => first_element_error(tokens.drop_first()),
        }
    }
}

/// The values of the elements up to a position, after some that were before.
pub open spec fn cycle_values(
    scope: Scope,
    tokens: Seq<Result<TagElementToken, LexerError>>,
    values: Seq<TagElement<int>>,
) -> Result<Seq<TagElement<int>>, ParseError<Seq<char>>>
    decreases tokens.len(),
{
    if tokens.len() == 0 {
        Ok(values)
    } else {
        let token = tokens[0]->Ok_0;
        match element_of(scope, token.at, token.token_type) {
            Err(e) => Err(e),
            Ok(element) => cycle_values(scope, tokens.drop_first(), values.push(element)),
        }
    }
}

/// How the elements of a cycle are to be read: the number of those that are values, where the
/// name of the cycle stands if it has one, and whether it is silent.
pub open spec fn cycle_shape(
    template: Seq<char>,
    tokens: Seq<Result<TagElementToken, LexerError>>,
) -> Result<(int, Option<At>, bool), ParseError<Seq<char>>> {
    let n = tokens.len() as int;
    if n >= 5 && span(template, tokens[n - 3]->Ok_0.at) == "as"@ {
        let flag_at = tokens[n - 1]->Ok_0.at;
        if span(template, flag_at) == "silent"@ {
            Ok((n - 3, Some(tokens[n - 2]->Ok_0.at), true))
        } else {
            Err(ParseError::InvalidCycleFlag { flag: span(template, flag_at), at: flag_at })
        }
    } else if n >= 4 && span(template, tokens[n - 2]->Ok_0.at) == "as"@ {
        Ok((n - 2, Some(tokens[n - 1]->Ok_0.at), false))
    } else {
        Ok((n, None, false))
    }
}

/// A cycle of values, under a name if it has one.
pub open spec fn new_cycle(
    id: usize,
    values: Seq<TagElement<int>>,
    name: Option<Seq<char>>,
    silent: bool,
) -> CycleView {
    let cycle = SimpleCycleView { id: CycleId(id), values };
    match name {
        None => CycleView::Simple(cycle),
        Some(asvar) => if silent {
            CycleView::SilentNamed(NamedCycleView { cycle, asvar })
        } else {
            CycleView::Named(NamedCycleView { cycle, asvar })
        },
    }
}

/// The state after a cycle has been defined.
pub open spec fn with_cycle(state: State, name: Option<Seq<char>>, cycle: CycleView) -> State {
    State {
        next_cycle_id: if state.next_cycle_id == usize::MAX {
            0
        } else {
            (state.next_cycle_id + 1) as usize
        },
        named_cycles: match name {
            None => state.named_cycles,
            Some(name) => state.named_cycles.insert(name, cycle),
        },
        ..state
    }
}

/// A cycle: the one with a given name, or a new one.
pub open spec fn cycle_at(
    env: Env,
    state: State,
    parts_at: At,
    tokens: Seq<Result<TagElementToken, LexerError>>,
) -> (State, Result<CycleView, ParseError<Seq<char>>>) {
    let scope = scope_of(env, state);
    match first_element_error(tokens) {
        Some(e) => (state, Err(ParseError::LexerError(e))),
        None => if tokens.len() == 0 {
            (state, Err(ParseError::MissingCycleArguments { at: parts_at }))
        } else if tokens.len() == 1 {
            let reference = tokens[0]->Ok_0;
            let name = span(env.template, reference.at);
            (
                state,
                if !(reference.token_type is Variable) {
                    Err(ParseError::MissingCycleArguments { at: reference.at })
                } else if state.named_cycles.contains_key(name) {
                    Ok(state.named_cycles[name])
                } else {
                    Err(ParseError::UnknownNamedCycle { name, at: reference.at })
                },
            )
        } else {
            match cycle_shape(env.template, tokens) {
                Err(e) => (state, Err(e)),
                Ok((count, name_at, silent)) => match cycle_values(
                    scope,
                    tokens.take(count),
                    Seq::empty(),
                ) {
                    Err(e) => (state, Err(e)),
                    Ok(values) => {
                        let name = match name_at {
                            None => None,
                            Some(at) => Some(span(env.template, at)),
                        };
                        let cycle = new_cycle(state.next_cycle_id, values, name, silent);
                        (with_cycle(state, name, cycle), Ok(cycle))
                    },
                },
            }
        },
    }
}

/// The state after tags have been loaded in turn, up to the first one that cannot be.
pub open spec fn tags_loaded(state: State, at: At, tags: Seq<(String, TagSource)>) -> (
    State,
    Result<(), Fault>,
)
    decreases tags.len(),
{
    if tags.len() == 0 {
        (state, Ok(()))
    } else {
        match tag_context(at, tags[0].0@, tags[0].1) {
            Err(e) => (state, Err(e)),
            Ok(context) => tags_loaded(
                State {
                    external_tags: with_tag(state.external_tags, tags[0].0@, context),
                    ..state
                },
                at,
                tags.drop_first(),
            ),
        }
    }
}

/// What is reported where the name of a library is expected and something else is found.
pub open spec fn missing_library(env: Env, at: At) -> Fault {
    PyParseError::ParseError(
        ParseError::MissingTagLibrary {
            library: span(env.template, at),
            at,
            help: library_help(env.libraries),
        },
    )
}

/// The state after libraries have been loaded in turn, up to the first one that cannot be.
pub open spec fn libraries_loaded(env: Env, state: State, at: At, tokens: Seq<LoadToken>) -> (
    State,
    Result<(), Fault>,
)
    decreases tokens.len(),
{
    if tokens.len() == 0 {
        (state, Ok(()))
    } else {
        let name = span(env.template, tokens[0].at);
        if !env.libraries.contains_key(name) {
            (state, Err(missing_library(env, tokens[0].at)))
        } else {
            match (env.libraries[name].filters, env.libraries[name].tags) {
                (Err(e), _) => (state, Err(PyParseError::PyErr(e))),
                (_, Err(e)) => (state, Err(PyParseError::PyErr(e))),
                (Ok(filters), Ok(tags)) => {
                    let with_filters = State {
                        external_filters: state.external_filters.union_prefer_right(
                            map_of(filters@),
                        ),
                        ..state
                    };
                    match tags_loaded(with_filters, at, tags@) {
                        (next, Err(e)) => (next, Err(e)),
                        (next, Ok(_)) => libraries_loaded(env, next, at, tokens.drop_first()),
                    }
                },
            }
        }
    }
}

/// The state after some of the filters and tags of a library have been loaded, the last one
/// first, up to the first one that cannot be.
pub open spec fn names_loaded(
    env: Env,
    state: State,
    library_at: At,
    filters: Seq<(String, PyObject)>,
    tags: Seq<(String, TagSource)>,
    tokens: Seq<LoadToken>,
) -> (State, Result<(), Fault>)
    decreases tokens.len(),
{
    if tokens.len() == 0 {
        (state, Ok(()))
    } else {
        let at = tokens.last().at;
        let name = span(env.template, at);
        if map_of(filters).contains_key(name) {
            let next = State {
                external_filters: state.external_filters.insert(name, map_of(filters)[name]),
                ..state
            };
            names_loaded(env, next, library_at, filters, tags, tokens.drop_last())
        } else if map_of(tags).contains_key(name) {
            match tag_context(at, name, map_of(tags)[name]) {
                Err(e) => (state, Err(e)),
                Ok(context) => {
                    let next = State {
                        external_tags: with_tag(state.external_tags, name, context),
                        ..state
                    };
                    names_loaded(env, next, library_at, filters, tags, tokens.drop_last())
                },
            }
        } else {
            (
                state,
                Err(
                    PyParseError::ParseError(
                        ParseError::MissingFilterTag {
                            library: span(env.template, library_at),
                            library_at,
                            tag: name,
                            tag_at: at,
                        },
                    ),
                ),
            )
        }
    }
}

/// Whether the last token but one is the word `from`.
pub open spec fn names_library(template: Seq<char>, tokens: Seq<LoadToken>) -> bool {
    tokens.len() >= 2 && span(template, tokens[tokens.len() - 2].at) == "from"@
}

/// The state after a load tag at a location.
pub open spec fn loaded(env: Env, state: State, at: At, tokens: Seq<LoadToken>) -> (
    State,
    Result<(), Fault>,
) {
    if names_library(env.template, tokens) {
        let library_at = tokens.last().at;
        let name = span(env.template, library_at);
        if !env.libraries.contains_key(name) {
            (state, Err(missing_library(env, library_at)))
        } else {
            match (env.libraries[name].filters, env.libraries[name].tags) {
                (Err(e), _) => (state, Err(PyParseError::PyErr(e))),
                (_, Err(e)) => (state, Err(PyParseError::PyErr(e))),
                (Ok(filters), Ok(tags)) => names_loaded(
                    env,
                    state,
                    library_at,
                    filters@,
                    tags@,
                    tokens.take(tokens.len() - 2),
                ),
            }
        }
    } else {
        libraries_loaded(env, state, at, tokens)
    }
}

/// Whether a token ends a comment.
pub open spec fn ends_comment(template: Seq<char>, token: Token) -> bool {
    token.token_type is Tag && first_word(span(template, tag_content(token.at))) == Some(
        "endcomment"@,
    )
}

/// The position of the first token from a position on that ends a comment.
pub open spec fn comment_end(env: Env, pos: int) -> Option<int>
    decreases env.tokens.len() - pos,
{
    if pos < 0 || pos >= env.tokens.len() {
        None
    } else if ends_comment(env.template, env.tokens[pos]) {
        Some(pos)
    } else {
        comment_end(env, pos + 1)
    }
}

/// Skips a comment that starts at a location.
pub open spec fn comment_at(env: Env, state: State, at: At) -> (State, Result<(), Fault>) {
    match comment_end(env, state.pos) {
        Some(pos) => (State { pos: pos + 1, ..state }, Ok(())),
        None => (
            State { pos: env.tokens.len() as int, ..state },
            Err(
                PyParseError::ParseError(
                    ParseError::MissingEndTag { start: "comment"@, expected: "endcomment"@, at },
                ),
            ),
        ),
    }
}

/// A tag that ends a part of the tree, at the token that was read last.
pub open spec fn end_tag(state: State, at: At, end: EndTagType<Seq<char>>) -> (
    State,
    Result<ReadView, Fault>,
) {
    (state, Ok(ReadView::End(EndTagView { at, end, token: state.pos - 1 })))
}

/// The outcome of reading a tag that is a node.
pub open spec fn tag_node<T>(outcome: Result<T, Fault>, tag: spec_fn(T) -> TagView) -> Result<
    ReadView,
    Fault,
> {
    match outcome {
        Ok(x) => Ok(ReadView::Node(TokenTreeView::Tag(tag(x)))),
        Err(e) => Err(e),
    }
}

/// The nodes up to a tag that ends them, after some that were before, and that tag. `start` is
/// the name of the tag at `start_at` that is to be ended.
pub open spec fn nodes_until(
    env: Env,
    state: State,
    until: Seq<EndTagType<Seq<char>>>,
    start: Seq<char>,
    start_at: At,
    nodes: Seq<TokenTreeView>,
) -> (State, Result<(Seq<TokenTreeView>, EndTagView), Fault>)
    decreases env.tokens.len() - state.pos, 1int,
{
    if state.pos >= env.tokens.len() {
        (
            state,
            Err(
                PyParseError::ParseError(
                    ParseError::MissingEndTag {
                        start,
                        expected: end_tag_texts(until),
                        at: start_at,
                    },
                ),
            ),
        )
    } else {
        let (next, outcome) = read_next(env, state);
        match outcome {
            Err(e) => (next, Err(e)),
            Ok(_) if !advanced(env, state, next) => arbitrary(),
            Ok(ReadView::Nothing) => nodes_until(env, next, until, start, start_at, nodes),
            Ok(ReadView::Node(node)) => nodes_until(
                env,
                next,
                until,
                start,
                start_at,
                nodes.push(node),
            ),
            Ok(ReadView::End(end)) => (
                next,
                if until.contains(end.end) {
                    Ok((nodes, end))
                } else {
                    Err(
                        PyParseError::ParseError(
                            ParseError::WrongEndTag {
                                expected: end_tag_texts(until),
                                unexpected: end_tag_text(end.end),
                                at: end.at,
                                start_at,
                            },
                        ),
                    )
                },
            ),
        }
    }
}

/// What the next token stands for.
pub open spec fn read_next(env: Env, state: State) -> (State, Result<ReadView, Fault>)
    decreases env.tokens.len() - state.pos, 0int,
{
    let token = env.tokens[state.pos];
    let next = State { pos: state.pos + 1, ..state };
    if state.pos >= env.tokens.len() {
        arbitrary()
    } else {
        match token.token_type {
            TokenType::Text => (
                next,
                Ok(ReadView::Node(TokenTreeView::Text(Text { at: token.at }))),
            ),
            TokenType::Comment => (next, Ok(ReadView::Nothing)),
            TokenType::Variable(variable) => (
                next,
                match lifted(variable_of(scope_of(env, next), variable, token.at)) {
                    Ok(element) => Ok(ReadView::Node(element_node(element))),
                    Err(e) => Err(e),
                },
            ),
            TokenType::Tag(arguments) => tag_at(env, next, token.at, arguments),
        }
    }
}

/// What a tag stands for, whose token was read last.
pub open spec fn tag_at(env: Env, state: State, at: At, arguments: Arguments) -> (
    State,
    Result<ReadView, Fault>,
)
    decreases env.tokens.len() - state.pos, 5int,
{
    let scope = scope_of(env, state);
    match source_tag(env.template, at) {
        Err(e) => (state, Err(PyParseError::ParseError(ParseError::BlockError(e)))),
        Ok(tag) => {
            let name = span(env.template, tag.at);
            if name == "url"@ {
                (
                    state,
                    tag_node(
                        lifted(url_of(scope, at, arguments->Kwargs_0@)),
                        |url| TagView::Url(url),
                    ),
                )
            } else if name == "firstof"@ {
                (
                    state,
                    tag_node(
                        lifted(firstof_of(scope, tag.parts.at, arguments->Kwargs_0@)),
                        |firstof| TagView::FirstOf(firstof),
                    ),
                )
            } else if name == "csrf_token"@ {
                (state, Ok(ReadView::Node(TokenTreeView::Tag(TagView::CsrfToken(CsrfToken)))))
            } else if name == "load"@ {
                let (next, outcome) = loaded(env, state, at, arguments->Load_0@);
                (next, tag_node(outcome, |nothing: ()| TagView::Load))
            } else if name == "autoescape"@ {
                autoescape_at(env, state, at, arguments)
            } else if name == "endautoescape"@ {
                end_tag(state, at, EndTagType::Autoescape)
            } else if name == "endverbatim"@ {
                end_tag(state, at, EndTagType::Verbatim)
            } else if name == "if"@ {
                if_at(env, state, at, arguments, "if"@)
            } else if name == "elif"@ {
                end_tag(state, at, EndTagType::Elif)
            } else if name == "else"@ {
                end_tag(state, at, EndTagType::Else)
            } else if name == "endif"@ {
                end_tag(state, at, EndTagType::EndIf)
            } else if name == "for"@ {
                for_at(env, state, at, arguments)
            } else if name == "empty"@ {
                end_tag(state, at, EndTagType::Empty)
            } else if name == "endfor"@ {
                end_tag(state, at, EndTagType::EndFor)
            } else if name == "include"@ {
                (
                    state,
                    tag_node(
                        lifted(
                            include_of(scope, env.engine, env.origin, at, arguments->Include_0),
                        ),
                        |included| TagView::Include(included),
                    ),
                )
            } else if name == "lorem"@ {
                (
                    state,
                    tag_node(
                        lifted(lorem_of(scope, arguments->Lorem_0@)),
                        |lorem| TagView::Lorem(lorem),
                    ),
                )
            } else if name == "comment"@ {
                let (next, outcome) = comment_at(env, state, at);
                (next, tag_node(outcome, |nothing: ()| TagView::Comment(Comment)))
            } else if name == "now"@ {
                (
                    state,
                    tag_node(
                        lifted(now_of(env.template, arguments->Now_0)),
                        |now| TagView::Now(now),
                    ),
                )
            } else if name == "templatetag"@ {
                (
                    state,
                    match arguments->TemplateTag_0 {
                        Ok(t) => Ok(ReadView::Node(TokenTreeView::Tag(TagView::TemplateTag(t)))),
                        Err(e) => Err(PyParseError::ParseError(ParseError::TemplateTagError(e))),
                    },
                )
            } else if name == "cycle"@ {
                let (next, outcome) = cycle_at(env, state, tag.parts.at, arguments->Elements_0@);
                (next, tag_node(lifted(outcome), |cycle| TagView::Cycle(cycle)))
            } else {
                external_tag_at(env, state, at, tag.parts.at, arguments, name)
            }
        },
    }
}

/// What a tag that is not built in stands for.
pub open spec fn external_tag_at(
    env: Env,
    state: State,
    at: At,
    parts_at: At,
    arguments: Arguments,
    name: Seq<char>,
) -> (State, Result<ReadView, Fault>)
    decreases env.tokens.len() - state.pos, 4int,
{
    if !state.external_tags.contains_key(name) {
        (state, Err(PyParseError::Unsupported(Unsupported::Tag { name })))
    } else {
        match state.external_tags[name] {
            TagContextView::Simple(context) => (
                state,
                simple_tag(scope_of(env, state), at, parts_at, arguments, context),
            ),
            TagContextView::SimpleBlock { end_tag_name, context } => simple_block_tag_at(
                env,
                state,
                at,
                parts_at,
                arguments,
                name,
                end_tag_name,
                context,
            ),
            TagContextView::EndSimpleBlock => end_tag(state, at, EndTagType::Custom(name)),
        }
    }
}

/// A tag of a library.
pub open spec fn simple_tag(
    scope: Scope,
    at: At,
    parts_at: At,
    arguments: Arguments,
    context: SimpleTagContextView,
) -> Result<ReadView, Fault> {
    match custom_tag_parts(scope, arguments->Kwargs_0@, parts_at, context) {
        Err(e) => Err(PyParseError::ParseError(e)),
        Ok((args, kwargs, target_var)) => Ok(
            ReadView::Node(
                TokenTreeView::Tag(
                    TagView::SimpleTag(
                        SimpleTagView {
                            func: context.func,
                            at,
                            takes_context: context.takes_context,
                            args,
                            kwargs,
                            target_var,
                        },
                    ),
                ),
            ),
        ),
    }
}

/// A tag of a library, around other nodes.
pub open spec fn simple_block_tag_at(
    env: Env,
    state: State,
    at: At,
    parts_at: At,
    arguments: Arguments,
    name: Seq<char>,
    end_tag_name: Seq<char>,
    context: SimpleTagContextView,
) -> (State, Result<ReadView, Fault>)
    decreases env.tokens.len() - state.pos, 3int,
{
    match custom_tag_parts(scope_of(env, state), arguments->Kwargs_0@, parts_at, context) {
        Err(e) => (state, Err(PyParseError::ParseError(e))),
        Ok((args, kwargs, target_var)) => {
            let (next, outcome) = nodes_until(
                env,
                state,
                seq![EndTagType::Custom(end_tag_name)],
                name,
                at,
                Seq::empty(),
            );
            match outcome {
                Err(e) => (next, Err(e)),
                Ok((nodes, _)) => (
                    next,
                    Ok(
                        ReadView::Node(
                            TokenTreeView::Tag(
                                TagView::SimpleBlockTag(
                                    SimpleBlockTagView {
                                        func: context.func,
                                        nodes,
                                        at,
                                        takes_context: context.takes_context,
                                        args,
                                        kwargs,
                                        target_var,
                                    },
                                ),
                            ),
                        ),
                    ),
                ),
            }
        },
    }
}

/// Nodes within which escaping is switched on or off.
pub open spec fn autoescape_at(env: Env, state: State, at: At, arguments: Arguments) -> (
    State,
    Result<ReadView, Fault>,
)
    decreases env.tokens.len() - state.pos, 3int,
{
    match arguments->Autoescape_0 {
        Err(e) => (state, Err(PyParseError::ParseError(ParseError::AutoescapeError(e)))),
        Ok(enabled) => {
            let (next, outcome) = nodes_until(
                env,
                state,
                seq![EndTagType::Autoescape],
                "autoescape"@,
                at,
                Seq::empty(),
            );
            (
                next,
                match outcome {
                    Err(e) => Err(e),
                    Ok((nodes, _)) => Ok(
                        ReadView::Node(
                            TokenTreeView::Tag(TagView::Autoescape { enabled, nodes }),
                        ),
                    ),
                },
            )
        },
    }
}

/// The tags that end the first part of an if tag.
pub open spec fn if_ends() -> Seq<EndTagType<Seq<char>>> {
    seq![EndTagType::Elif, EndTagType::Else, EndTagType::EndIf]
}

/// An if tag, or an elif tag as `start` tells.
pub open spec fn if_at(env: Env, state: State, at: At, arguments: Arguments, start: Seq<char>) -> (
    State,
    Result<ReadView, Fault>,
)
    decreases env.tokens.len() - state.pos, 3int,
{
    match condition_of(scope_of(env, state), arguments->If_0@, at) {
        Err(e) => (state, Err(PyParseError::ParseError(e))),
        Ok(condition) => {
            let (next, outcome) = nodes_until(env, state, if_ends(), start, at, Seq::empty());
            match outcome {
                Err(e) => (next, Err(e)),
                Ok(_) if !advanced(env, state, next) => arbitrary(),
                Ok((truthy, end)) => {
                    let (last, falsey) = falsey_at(env, next, end);
                    (
                        last,
                        match falsey {
                            Err(e) => Err(e),
                            Ok(falsey) => Ok(
                                ReadView::Node(
                                    TokenTreeView::Tag(TagView::If { condition, truthy, falsey }),
                                ),
                            ),
                        },
                    )
                },
            }
        },
    }
}

/// What follows the first part of an if tag.
pub open spec fn falsey_at(env: Env, state: State, end: EndTagView) -> (
    State,
    Result<Option<Seq<TokenTreeView>>, Fault>,
)
    decreases env.tokens.len() - state.pos, 4int,
{
    match end.end {
        EndTagType::Elif => {
            let arguments = env.tokens[end.token].token_type->Tag_0;
            let (next, outcome) = if_at(env, state, end.at, arguments, "elif"@);
            (
                next,
                match outcome {
                    Ok(ReadView::Node(node)) => Ok(Some(seq![node])),
                    Ok(_) => arbitrary(),
                    Err(e) => Err(e),
                },
            )
        },
        EndTagType::Else => {
            let (next, outcome) = nodes_until(
                env,
                state,
                seq![EndTagType::EndIf],
                "else"@,
                end.at,
                Seq::empty(),
            );
            (
                next,
                match outcome {
                    Ok((nodes, _)) => Ok(Some(nodes)),
                    Err(e) => Err(e),
                },
            )
        },
        _ => (state, Ok(None)),
    }
}

/// The tags that end the body of a for loop.
pub open spec fn for_ends() -> Seq<EndTagType<Seq<char>>> {
    seq![EndTagType::Empty, EndTagType::EndFor]
}

/// A for loop. Its body, and its own arguments, lie within one more loop.
pub open spec fn for_at(env: Env, state: State, at: At, arguments: Arguments) -> (
    State,
    Result<ReadView, Fault>,
)
    decreases env.tokens.len() - state.pos, 3int,
{
    let inner = State { forloop_depth: state.forloop_depth + 1, ..state };
    match for_loop_of(scope_of(env, inner), arguments->For_0, at) {
        Err(e) => (inner, Err(PyParseError::ParseError(e))),
        Ok((iterable, variables, reversed)) => {
            let (next, outcome) = nodes_until(env, inner, for_ends(), "for"@, at, Seq::empty());
            match outcome {
                Err(e) => (next, Err(e)),
                Ok(_) if !advanced(env, state, next) => arbitrary(),
                Ok((body, end)) => {
                    let outer = State { forloop_depth: next.forloop_depth - 1, ..next };
                    let (last, empty) = empty_at(env, outer, end);
                    (
                        last,
                        match empty {
                            Err(e) => Err(e),
                            Ok(empty) => Ok(
                                ReadView::Node(
                                    TokenTreeView::Tag(
                                        TagView::For(
                                            ForView { iterable, variables, reversed, body, empty },
                                        ),
                                    ),
                                ),
                            ),
                        },
                    )
                },
            }
        },
    }
}

/// What follows the body of a for loop.
pub open spec fn empty_at(env: Env, state: State, end: EndTagView) -> (
    State,
    Result<Option<Seq<TokenTreeView>>, Fault>,
)
    decreases env.tokens.len() - state.pos, 3int,
{
    if end.end is Empty {
        let (next, outcome) = nodes_until(
            env,
            state,
            seq![EndTagType::EndFor],
            "empty"@,
            end.at,
            Seq::empty(),
        );
        (
            next,
            match outcome {
                Ok((nodes, _)) => Ok(Some(nodes)),
                Err(e) => Err(e),
            },
        )
    } else {
        (state, Ok(None))
    }
}

/// The nodes that the rest of the tokens stand for, after some that were before.
pub open spec fn nodes_of(env: Env, state: State, nodes: Seq<TokenTreeView>) -> (
    State,
    Result<Seq<TokenTreeView>, Fault>,
)
    decreases env.tokens.len() - state.pos,
{
    if state.pos >= env.tokens.len() {
        (state, Ok(nodes))
    } else {
        let (next, outcome) = read_next(env, state);
        match outcome {
            Err(e) => (next, Err(e)),
            Ok(_) if !advanced(env, state, next) => arbitrary(),
            Ok(ReadView::Nothing) => nodes_of(env, next, nodes),
            Ok(ReadView::Node(node)) => nodes_of(env, next, nodes.push(node)),
            Ok(ReadView::End(end)) => (
                next,
                Err(
                    PyParseError::ParseError(
                        ParseError::UnexpectedEndTag {
                            at: end.at,
                            unexpected: end_tag_text(end.end),
                        },
                    ),
                ),
            ),
        }
    }
}

} // verus!
