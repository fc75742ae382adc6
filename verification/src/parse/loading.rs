//! What a template knows once libraries are loaded.
use vstd::prelude::*;
use crate::dict::map_of;
use crate::lexer::tag::white_space;
use crate::lexer::tokens::{tag_content, Arguments, LoadToken, Token};
use crate::parse::arguments::custom_tag_parts;
use crate::parse::calls::law_loaded_tags_are_there;
use crate::parse::errors::{ParseError, PyParseError, Unsupported};
use crate::parse::grammar::{
    ends_comment, external_tag_at, libraries_loaded, loaded, names_loaded, nodes_until,
    simple_block_tag_at, tags_loaded, Fault, ReadView,
};
use crate::parse::library::{tag_context, with_tag, TagContextView, TagSource};
use crate::parse::parser::{scope_of, Env, State};
use crate::parse::tree::{EndTagType, TagView, TokenTreeView};
use crate::text::{span, At};
use crate::types::PyObject;
use crate::words::law_words_stand_apart;

verus! {

/// Nothing but the tags and filters that a template knows has changed.
pub open spec fn only_learns(before: State, after: State) -> bool {
    after == (State {
        external_tags: after.external_tags,
        external_filters: after.external_filters,
        ..before
    })
}

/// A name stands for the same tag, or for none, in two states.
pub open spec fn same_tag(before: State, after: State, name: Seq<char>) -> bool {
    &&& after.external_tags.contains_key(name) == before.external_tags.contains_key(name)
    &&& before.external_tags.contains_key(name) ==> after.external_tags[name]
        == before.external_tags[name]
}

/// A name stands for the same filter, or for none, in two states.
pub open spec fn same_filter(before: State, after: State, name: Seq<char>) -> bool {
    &&& after.external_filters.contains_key(name) == before.external_filters.contains_key(name)
    &&& before.external_filters.contains_key(name) ==> after.external_filters[name]
        == before.external_filters[name]
}

/// A tag that is loaded says what a name is: it has this name, or ends at the tag of this name.
pub open spec fn defines(at: At, tag: (String, TagSource), name: Seq<char>) -> bool {
    ||| tag.0@ == name
    ||| tag_context(at, tag.0@, tag.1) matches Ok(
        TagContextView::SimpleBlock { end_tag_name, .. },
    ) && end_tag_name == name
}

/// Each tag of a library can be loaded.
pub open spec fn tags_can_be_loaded(at: At, tags: Seq<(String, TagSource)>) -> bool {
    forall|i: int|
        0 <= i < tags.len() ==> tag_context(at, (#[trigger] tags[i]).0@, tags[i].1) is Ok
}

/// The tags of a library are loaded just if each of them can be, and nothing else changes.
pub proof fn law_tags_are_loaded_if_they_can_be(
    state: State,
    at: At,
    tags: Seq<(String, TagSource)>,
)
    ensures
        tags_loaded(state, at, tags).1 is Ok <==> tags_can_be_loaded(at, tags),
        only_learns(state, tags_loaded(state, at, tags).0),
        tags_loaded(state, at, tags).0.external_filters == state.external_filters,
    decreases tags.len(),
{
    if tags.len() > 0 {
        let rest = tags.drop_first();
        assert(forall|i: int| 0 <= i < rest.len() ==> #[trigger] rest[i] == tags[i + 1]);
        if let Ok(context) = tag_context(at, tags[0].0@, tags[0].1) {
            let middle = State {
                external_tags: with_tag(state.external_tags, tags[0].0@, context),
                ..state
            };
            law_tags_are_loaded_if_they_can_be(middle, at, rest);
            if tags_can_be_loaded(at, rest) {
                assert forall|i: int| 0 <= i < tags.len() implies tag_context(
                    at,
                    (#[trigger] tags[i]).0@,
                    tags[i].1,
                ) is Ok by {
                    if i > 0 {
                        assert(tags[i] == rest[i - 1]);
                    }
                }
            } else {
                let i = choose|i: int|
                    0 <= i < rest.len() && !(tag_context(
                        at,
                        (#[trigger] rest[i]).0@,
                        rest[i].1,
                    ) is Ok);
                assert(tags[i + 1] == rest[i]);
            }
        }
    }
}

/// What none of some tags defines stays what it was.
pub proof fn law_tags_leave_other_names(
    state: State,
    at: At,
    tags: Seq<(String, TagSource)>,
    name: Seq<char>,
)
    requires
        forall|i: int| 0 <= i < tags.len() ==> !defines(at, #[trigger] tags[i], name),
    ensures
        same_tag(state, tags_loaded(state, at, tags).0, name),
    decreases tags.len(),
{
    if tags.len() > 0 {
        let rest = tags.drop_first();
        assert(!defines(at, tags[0], name));
        if let Ok(context) = tag_context(at, tags[0].0@, tags[0].1) {
            let middle = State {
                external_tags: with_tag(state.external_tags, tags[0].0@, context),
                ..state
            };
            assert forall|i: int| 0 <= i < rest.len() implies !defines(
                at,
                #[trigger] rest[i],
                name,
            ) by {
                assert(rest[i] == tags[i + 1]);
            }
            law_tags_leave_other_names(middle, at, rest, name);
            law_loaded_tags_are_there(state.external_tags, tags[0].0@, context, name);
        }
    }
}

/// Each of some tags has its name once they are loaded, unless a later one takes it.
pub proof fn law_tags_have_their_names(
    state: State,
    at: At,
    tags: Seq<(String, TagSource)>,
    i: int,
)
    requires
        tags_can_be_loaded(at, tags),
        0 <= i < tags.len(),
        forall|j: int| i < j < tags.len() ==> !defines(at, #[trigger] tags[j], tags[i].0@),
    ensures
        tags_loaded(state, at, tags).0.external_tags.contains_key(tags[i].0@),
        tag_context(at, tags[i].0@, tags[i].1) == Ok::<_, Fault>(
            tags_loaded(state, at, tags).0.external_tags[tags[i].0@],
        ),
    decreases tags.len(),
{
    let rest = tags.drop_first();
    let first = tags[0].0@;
    assert(tag_context(at, first, tags[0].1) is Ok);
    let context = tag_context(at, first, tags[0].1)->Ok_0;
    let middle = State { external_tags: with_tag(state.external_tags, first, context), ..state };
    assert(tags_loaded(state, at, tags) == tags_loaded(middle, at, rest));
    assert forall|j: int| i - 1 < j < rest.len() && 0 <= j implies !defines(
        at,
        #[trigger] rest[j],
        tags[i].0@,
    ) by {
        assert(rest[j] == tags[j + 1]);
    }
    if i == 0 {
        law_tags_leave_other_names(middle, at, rest, first);
        law_loaded_tags_are_there(state.external_tags, first, context, first);
    } else {
        assert forall|j: int| 0 <= j < rest.len() implies tag_context(
            at,
            (#[trigger] rest[j]).0@,
            rest[j].1,
        ) is Ok by {
            assert(rest[j] == tags[j + 1]);
        }
        assert(rest[i - 1] == tags[i]);
        law_tags_have_their_names(middle, at, rest, i - 1);
    }
}

/// The name of a library, a tag or a filter.
pub open spec fn load_name(env: Env, token: LoadToken) -> Seq<char> {
    span(env.template, token.at)
}

/// The filters of the library that a token names.
pub open spec fn filters_of(env: Env, token: LoadToken) -> Map<Seq<char>, PyObject> {
    map_of(env.libraries[load_name(env, token)].filters->Ok_0@)
}

/// The library that a token names is known, and its tags can be loaded.
pub open spec fn can_be_loaded(env: Env, at: At, token: LoadToken) -> bool {
    let library = env.libraries[load_name(env, token)];
    &&& env.libraries.contains_key(load_name(env, token))
    &&& library.filters is Ok
    &&& library.tags is Ok
    &&& tags_can_be_loaded(at, library.tags->Ok_0@)
}

/// The state after the library that a token names is loaded.
spec fn library_loaded(env: Env, state: State, at: At, token: LoadToken) -> State {
    tags_loaded(
        State {
            external_filters: state.external_filters.union_prefer_right(filters_of(env, token)),
            ..state
        },
        at,
        env.libraries[load_name(env, token)].tags->Ok_0@,
    ).0
}

proof fn lemma_library_is_loaded(env: Env, state: State, at: At, token: LoadToken)
    requires
        can_be_loaded(env, at, token),
    ensures
        only_learns(state, library_loaded(env, state, at, token)),
        library_loaded(env, state, at, token).external_filters
            == state.external_filters.union_prefer_right(filters_of(env, token)),
{
    law_tags_are_loaded_if_they_can_be(
        State {
            external_filters: state.external_filters.union_prefer_right(filters_of(env, token)),
            ..state
        },
        at,
        env.libraries[load_name(env, token)].tags->Ok_0@,
    );
}

proof fn lemma_libraries_go_on(env: Env, state: State, at: At, tokens: Seq<LoadToken>)
    requires
        tokens.len() > 0,
    ensures
        can_be_loaded(env, at, tokens[0]) ==> libraries_loaded(env, state, at, tokens)
            == libraries_loaded(
            env,
            library_loaded(env, state, at, tokens[0]),
            at,
            tokens.drop_first(),
        ),
        !can_be_loaded(env, at, tokens[0]) ==> libraries_loaded(env, state, at, tokens).1 is Err,
{
    let token = tokens[0];
    let library = env.libraries[load_name(env, token)];
    if env.libraries.contains_key(load_name(env, token)) && library.filters is Ok && library.tags
        is Ok {
        law_tags_are_loaded_if_they_can_be(
            State {
                external_filters: state.external_filters.union_prefer_right(
                    filters_of(env, token),
                ),
                ..state
            },
            at,
            library.tags->Ok_0@,
        );
    }
}

/// Libraries are loaded just if each one is known and its tags can be loaded; nothing but what they
/// bring changes.
pub proof fn law_libraries_are_loaded_if_they_can_be(
    env: Env,
    state: State,
    at: At,
    tokens: Seq<LoadToken>,
)
    ensures
        libraries_loaded(env, state, at, tokens).1 is Ok <==> forall|i: int|
            0 <= i < tokens.len() ==> can_be_loaded(env, at, #[trigger] tokens[i]),
        libraries_loaded(env, state, at, tokens).1 is Ok ==> only_learns(
            state,
            libraries_loaded(env, state, at, tokens).0,
        ),
    decreases tokens.len(),
{
    if tokens.len() > 0 {
        let rest = tokens.drop_first();
        assert(forall|i: int| 0 <= i < rest.len() ==> #[trigger] rest[i] == tokens[i + 1]);
        lemma_libraries_go_on(env, state, at, tokens);
        if can_be_loaded(env, at, tokens[0]) {
            let middle = library_loaded(env, state, at, tokens[0]);
            lemma_library_is_loaded(env, state, at, tokens[0]);
            law_libraries_are_loaded_if_they_can_be(env, middle, at, rest);
            if libraries_loaded(env, state, at, tokens).1 is Ok {
                assert forall|i: int| 0 <= i < tokens.len() implies can_be_loaded(
                    env,
                    at,
                    #[trigger] tokens[i],
                ) by {
                    if i > 0 {
                        assert(tokens[i] == rest[i - 1]);
                    }
                }
            } else {
                let i = choose|i: int|
                    0 <= i < rest.len() && !can_be_loaded(env, at, #[trigger] rest[i]);
                assert(tokens[i + 1] == rest[i]);
            }
        }
    }
}

/// A filter that none of some libraries has stays what it was.
pub proof fn law_libraries_leave_other_filters(
    env: Env,
    state: State,
    at: At,
    tokens: Seq<LoadToken>,
    name: Seq<char>,
)
    requires
        forall|i: int| 0 <= i < tokens.len() ==> can_be_loaded(env, at, #[trigger] tokens[i]),
        forall|i: int|
            0 <= i < tokens.len() ==> !filters_of(env, #[trigger] tokens[i]).contains_key(name),
    ensures
        same_filter(state, libraries_loaded(env, state, at, tokens).0, name),
    decreases tokens.len(),
{
    if tokens.len() > 0 {
        let rest = tokens.drop_first();
        assert(forall|i: int| 0 <= i < rest.len() ==> #[trigger] rest[i] == tokens[i + 1]);
        assert(can_be_loaded(env, at, tokens[0]));
        assert(!filters_of(env, tokens[0]).contains_key(name));
        lemma_libraries_go_on(env, state, at, tokens);
        lemma_library_is_loaded(env, state, at, tokens[0]);
        let middle = library_loaded(env, state, at, tokens[0]);
        law_libraries_leave_other_filters(env, middle, at, rest, name);
    }
}

/// A filter is the one of the last library that has it.
pub proof fn law_filters_have_their_names(
    env: Env,
    state: State,
    at: At,
    tokens: Seq<LoadToken>,
    i: int,
    name: Seq<char>,
)
    requires
        forall|j: int| 0 <= j < tokens.len() ==> can_be_loaded(env, at, #[trigger] tokens[j]),
        0 <= i < tokens.len(),
        filters_of(env, tokens[i]).contains_key(name),
        forall|j: int|
            i < j < tokens.len() ==> !filters_of(env, #[trigger] tokens[j]).contains_key(name),
    ensures
        libraries_loaded(env, state, at, tokens).0.external_filters.contains_key(name),
        libraries_loaded(env, state, at, tokens).0.external_filters[name] == filters_of(
            env,
            tokens[i],
        )[name],
    decreases tokens.len(),
{
    let rest = tokens.drop_first();
    assert(forall|j: int| 0 <= j < rest.len() ==> #[trigger] rest[j] == tokens[j + 1]);
    assert(can_be_loaded(env, at, tokens[0]));
    lemma_libraries_go_on(env, state, at, tokens);
    lemma_library_is_loaded(env, state, at, tokens[0]);
    let middle = library_loaded(env, state, at, tokens[0]);
    if i == 0 {
        law_libraries_leave_other_filters(env, middle, at, rest, name);
    } else {
        assert(rest[i - 1] == tokens[i]);
        law_filters_have_their_names(env, middle, at, rest, i - 1, name);
    }
}

/// A name stands for a filter of a library, or for a tag of it that can be loaded.
pub open spec fn can_be_named(
    env: Env,
    filters: Seq<(String, PyObject)>,
    tags: Seq<(String, TagSource)>,
    token: LoadToken,
) -> bool {
    let name = load_name(env, token);
    ||| map_of(filters).contains_key(name)
    ||| map_of(tags).contains_key(name) && tag_context(token.at, name, map_of(tags)[name]) is Ok
}

/// Names are loaded from a library just if it has each of them; nothing else changes.
pub proof fn law_names_are_loaded_if_they_can_be(
    env: Env,
    state: State,
    library_at: At,
    filters: Seq<(String, PyObject)>,
    tags: Seq<(String, TagSource)>,
    tokens: Seq<LoadToken>,
)
    ensures
        names_loaded(env, state, library_at, filters, tags, tokens).1 is Ok <==> forall|i: int|
            0 <= i < tokens.len() ==> can_be_named(env, filters, tags, #[trigger] tokens[i]),
        only_learns(state, names_loaded(env, state, library_at, filters, tags, tokens).0),
    decreases tokens.len(),
{
    if tokens.len() > 0 {
        let rest = tokens.drop_last();
        let last = tokens.last();
        let name = load_name(env, last);
        assert(tokens[tokens.len() - 1] == last);
        assert(forall|i: int| 0 <= i < rest.len() ==> #[trigger] rest[i] == tokens[i]);
        if can_be_named(env, filters, tags, last) {
            let middle = if map_of(filters).contains_key(name) {
                State {
                    external_filters: state.external_filters.insert(name, map_of(filters)[name]),
                    ..state
                }
            } else {
                State {
                    external_tags: with_tag(
                        state.external_tags,
                        name,
                        tag_context(last.at, name, map_of(tags)[name])->Ok_0,
                    ),
                    ..state
                }
            };
            law_names_are_loaded_if_they_can_be(env, middle, library_at, filters, tags, rest);
            if !(forall|i: int|
                0 <= i < rest.len() ==> can_be_named(env, filters, tags, #[trigger] rest[i])) {
                let i = choose|i: int|
                    0 <= i < rest.len() && !can_be_named(env, filters, tags, #[trigger] rest[i]);
                assert(tokens[i] == rest[i]);
            } else {
                assert forall|i: int| 0 <= i < tokens.len() implies can_be_named(
                    env,
                    filters,
                    tags,
                    #[trigger] tokens[i],
                ) by {
                    if i < rest.len() {
                        assert(tokens[i] == rest[i]);
                    }
                }
            }
        }
    }
}

/// What is loaded of a library by name has its name from then on: the filter of this name, or else
/// the tag. A filter that is not named stays what it was.
pub proof fn law_names_are_loaded(
    env: Env,
    state: State,
    library_at: At,
    filters: Seq<(String, PyObject)>,
    tags: Seq<(String, TagSource)>,
    tokens: Seq<LoadToken>,
    name: Seq<char>,
)
    requires
        forall|i: int|
            0 <= i < tokens.len() ==> can_be_named(env, filters, tags, #[trigger] tokens[i]),
    ensures
        ({
            let next = names_loaded(env, state, library_at, filters, tags, tokens).0;
            let is_named = exists|i: int|
                0 <= i < tokens.len() && load_name(env, #[trigger] tokens[i]) == name;
            if is_named && map_of(filters).contains_key(name) {
                &&& next.external_filters.contains_key(name)
                &&& next.external_filters[name] == map_of(filters)[name]
            } else {
                &&& same_filter(state, next, name)
                &&& is_named || state.external_tags.contains_key(name)
                    ==> next.external_tags.contains_key(name)
            }
        }),
        state.external_tags.contains_key(name) ==> names_loaded(
            env,
            state,
            library_at,
            filters,
            tags,
            tokens,
        ).0.external_tags.contains_key(name),
    decreases tokens.len(),
{
    if tokens.len() > 0 {
        let rest = tokens.drop_last();
        let last = tokens.last();
        let own = load_name(env, last);
        assert(tokens[tokens.len() - 1] == last);
        assert(forall|i: int| 0 <= i < rest.len() ==> #[trigger] rest[i] == tokens[i]);
        assert(can_be_named(env, filters, tags, last));
        let middle = if map_of(filters).contains_key(own) {
            State {
                external_filters: state.external_filters.insert(own, map_of(filters)[own]),
                ..state
            }
        } else {
            State {
                external_tags: with_tag(
                    state.external_tags,
                    own,
                    tag_context(last.at, own, map_of(tags)[own])->Ok_0,
                ),
                ..state
            }
        };
        assert(names_loaded(env, state, library_at, filters, tags, tokens) == names_loaded(
            env,
            middle,
            library_at,
            filters,
            tags,
            rest,
        ));
        law_names_are_loaded(env, middle, library_at, filters, tags, rest, name);
        if exists|i: int| 0 <= i < rest.len() && load_name(env, #[trigger] rest[i]) == name {
            let i = choose|i: int|
                0 <= i < rest.len() && load_name(env, #[trigger] rest[i]) == name;
            assert(load_name(env, tokens[i]) == name);
        }
        if exists|i: int| 0 <= i < tokens.len() && load_name(env, #[trigger] tokens[i]) == name {
            let i = choose|i: int|
                0 <= i < tokens.len() && load_name(env, #[trigger] tokens[i]) == name;
            if i < rest.len() {
                assert(load_name(env, rest[i]) == name);
            }
        }
    }
}

/// The names before `from` come from the library that is named after it; without this word, each
/// name is that of a library.
pub proof fn law_from_names_the_library(env: Env, state: State, at: At, tokens: Seq<LoadToken>)
    ensures
        ({
            let n = tokens.len();
            if n >= 2 && load_name(env, tokens[n - 2]) == "from"@ {
                let name = load_name(env, tokens[n - 1]);
                let library = env.libraries[name];
                loaded(env, state, at, tokens).1 is Ok ==> {
                    &&& env.libraries.contains_key(name)
                    &&& library.filters is Ok
                    &&& library.tags is Ok
                    &&& loaded(env, state, at, tokens) == names_loaded(
                        env,
                        state,
                        tokens[n - 1].at,
                        library.filters->Ok_0@,
                        library.tags->Ok_0@,
                        tokens.take(n - 2),
                    )
                }
            } else {
                loaded(env, state, at, tokens) == libraries_loaded(env, state, at, tokens)
            }
        }),
{
}

/// A tag of a library has the arguments that are written in it, and around a block the nodes up to
/// the tag that ends it; a tag that no library has is not supported.
pub proof fn law_library_tags_keep_what_is_written(
    env: Env,
    state: State,
    at: At,
    parts_at: At,
    arguments: Arguments,
    name: Seq<char>,
)
    ensures
        ({
            let outcome = external_tag_at(env, state, at, parts_at, arguments, name).1;
            let tokens = arguments->Kwargs_0@;
            if !state.external_tags.contains_key(name) {
                outcome matches Err(PyParseError::Unsupported(Unsupported::Tag { name: missing }))
                    && missing == name
            } else {
                match state.external_tags[name] {
                    TagContextView::Simple(context) => match custom_tag_parts(
                        scope_of(env, state),
                        tokens,
                        parts_at,
                        context,
                    ) {
                        Ok(parts) => outcome matches Ok(ReadView::Node(TokenTreeView::Tag(tag)))
                            && (tag matches TagView::SimpleTag(simple) && simple.args == parts.0
                            && simple.kwargs == parts.1 && simple.target_var == parts.2),
                        Err(e) => outcome == Err::<ReadView, _>(PyParseError::ParseError(e)),
                    },
                    TagContextView::SimpleBlock { end_tag_name, context } => match custom_tag_parts(
                        scope_of(env, state),
                        tokens,
                        parts_at,
                        context,
                    ) {
                        Ok(parts) => match nodes_until(
                            env,
                            state,
                            seq![EndTagType::Custom(end_tag_name)],
                            name,
                            at,
                            Seq::empty(),
                        ).1 {
                            Ok(inside) => outcome matches Ok(
                                ReadView::Node(TokenTreeView::Tag(tag)),
                            ) && (tag matches TagView::SimpleBlockTag(block) && block.args
                                == parts.0 && block.kwargs == parts.1 && block.target_var
                                == parts.2 && block.nodes == inside.0),
                            Err(e) => outcome == Err::<ReadView, _>(e),
                        },
                        Err(e) => outcome == Err::<ReadView, _>(PyParseError::ParseError(e)),
                    },
                    TagContextView::EndSimpleBlock => outcome matches Ok(ReadView::End(end))
                        && end.end == EndTagType::Custom(name) && end.at == at,
                }
            }
        }),
{
    reveal_with_fuel(external_tag_at, 2);
    reveal_with_fuel(simple_block_tag_at, 2);
}

/// A comment is ended by a tag whose first word is `endcomment`, whatever follows it.
pub proof fn law_comments_end_at_their_tag(
    template: Seq<char>,
    token: Token,
    before: Seq<char>,
    word: Seq<char>,
    after: Seq<char>,
)
    requires
        token.token_type is Tag,
        span(template, tag_content(token.at)) == before + word + after,
        forall|i: int| 0 <= i < before.len() ==> white_space(#[trigger] before[i]),
        word.len() > 0,
        forall|i: int| 0 <= i < word.len() ==> !white_space(#[trigger] word[i]),
        after.len() > 0 ==> white_space(after[0]),
    ensures
        ends_comment(template, token) <==> word == "endcomment"@,
{
    law_words_stand_apart(before, word, after);
}

/// A library that is not known is told of by its name, where this stands, and so is a tag or filter
/// that a library does not have.
pub proof fn law_unknown_names_are_told_of(
    env: Env,
    state: State,
    at: At,
    tokens: Seq<LoadToken>,
    filters: Seq<(String, PyObject)>,
    tags: Seq<(String, TagSource)>,
    library_at: At,
)
    requires
        tokens.len() > 0,
    ensures
        !env.libraries.contains_key(load_name(env, tokens[0])) ==> (libraries_loaded(
            env,
            state,
            at,
            tokens,
        ).1 matches Err(PyParseError::ParseError(e)) && (e matches ParseError::MissingTagLibrary {
            library,
            at: place,
            ..
        } && library == load_name(env, tokens[0]) && place == tokens[0].at)),
        !map_of(filters).contains_key(load_name(env, tokens.last())) && !map_of(tags).contains_key(
            load_name(env, tokens.last()),
        ) ==> (names_loaded(env, state, library_at, filters, tags, tokens).1 matches Err(
            PyParseError::ParseError(e),
        ) && (e matches ParseError::MissingFilterTag {
            library,
            library_at: library_place,
            tag,
            tag_at,
        } && library == span(env.template, library_at) && library_place == library_at && tag
            == load_name(env, tokens.last()) && tag_at == tokens.last().at)),
{
}

} // verus!
