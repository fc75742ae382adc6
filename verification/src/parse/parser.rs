//! The parser.
use vstd::prelude::*;
use vstd::string::*;
use crate::dict::{lemma_views_push, lookup, option_view, views, Dict, Duplicate};
use crate::integer::Integer;
use crate::lexer::tokens::{
    elements_wf, if_tokens_wf, is_delimited, kwargs_wf, lex_tag_at, load_wf, tokens_wf, Arguments,
    ElementTokens, ForArguments, IfConditionTokens, KwargTokens, LexerError, LoadToken,
    TagElementToken, TagElementTokenType, Token, TokenType,
};
use crate::parse::condition::parse_if_condition;
use crate::parse::errors::{
    py_result_view, result_view, ParseError, PyParseError, Unsupported,
};
use crate::parse::grammar::{
    autoescape_at, comment_at, comment_end, cycle_at, cycle_shape, cycle_values, empty_at, end_tag,
    end_tag_text, end_tag_texts, external_tag_at, falsey_at, first_element_error, for_at, for_ends,
    if_at, if_ends, libraries_loaded, loaded, names_loaded, nodes_of, nodes_until, read_next,
    simple_block_tag_at, simple_tag, tag_at, tags_loaded, EndTagView, ReadView,
};
use crate::parse::laws::law_all_tokens_are_read;
use crate::parse::library::{
    load_library, load_tag, Library, SimpleTagContext, TagContext, TagContextView, TagSource,
};
use crate::parse::tags::parse_for_loop;
use crate::parse::tree::{
    lemma_nodes_view_push, nodes_view, Comment, CsrfToken, Cycle, CycleId, CycleView, EndTagType,
    For, NamedCycle, SilentNamedCycle, SimpleBlockTag, SimpleCycle, SimpleTag, Tag, TagElement,
    TokenTree, TokenTreeView,
};
use crate::text::{is_span, span, str_eq, At, TemplateString};
use crate::types::{PyObject, Text};
use crate::words::{first_word_is, join};
use crate::{END_TAG_LEN, START_TAG_LEN};

verus! {

/// What the parser knows of its surroundings: it stays the same throughout.
pub struct Env {
    pub template: Seq<char>,
    pub tokens: Seq<Token>,
    pub engine: PyObject,
    pub libraries: Map<Seq<char>, Library>,
    pub origin: Option<Seq<char>>,
}

/// What the parser has come to know so far.
pub struct State {
    /// The number of tokens that are read.
    pub pos: int,
    /// The number of for loops around the token that is read next.
    pub forloop_depth: int,
    pub named_cycles: Map<Seq<char>, CycleView>,
    pub external_tags: Map<Seq<char>, TagContextView>,
    pub external_filters: Map<Seq<char>, PyObject>,
    /// What the next cycle is to be told by.
    pub next_cycle_id: usize,
}

/// What a variable or a filter can mean at some point of a template.
pub struct Scope {
    pub template: Seq<char>,
    pub forloop_depth: int,
    pub external_filters: Map<Seq<char>, PyObject>,
}

/// The scope at some point of a template.
pub open spec fn scope_of(env: Env, state: State) -> Scope {
    Scope {
        template: env.template,
        forloop_depth: state.forloop_depth,
        external_filters: state.external_filters,
    }
}

/// A parser of the tokens of a template.
#[derive(Debug)]
pub struct Parser<'t> {
    pub(crate) template: TemplateString<'t>,
    pub(crate) tokens: &'t Vec<Token>,
    pub(crate) pos: usize,
    pub(crate) engine: PyObject,
    pub(crate) libraries: &'t Dict<Library>,
    pub(crate) origin: Option<&'t str>,
    pub(crate) external_tags: Dict<TagContext>,
    pub(crate) external_filters: Dict<PyObject>,
    pub(crate) forloop_depth: usize,
    pub(crate) named_cycles: Dict<Cycle>,
    pub(crate) next_cycle_id: usize,
}

impl<'t> Parser<'t> {
    pub closed spec fn env(&self) -> Env {
        Env {
            template: self.template@,
            tokens: self.tokens@,
            engine: self.engine,
            libraries: self.libraries@,
            origin: option_view(self.origin),
        }
    }

    pub closed spec fn state(&self) -> State {
        State {
            pos: self.pos as int,
            forloop_depth: self.forloop_depth as int,
            named_cycles: self.named_cycles@,
            external_tags: self.external_tags@,
            external_filters: self.external_filters@,
            next_cycle_id: self.next_cycle_id,
        }
    }

    /// The scope at the point that the parser has come to.
    pub open spec fn scope(&self) -> Scope {
        scope_of(self.env(), self.state())
    }

    /// The tokens are well-formed, and every for loop that is open has been read.
    pub open spec fn wf(&self) -> bool {
        &&& tokens_wf(self.env().tokens, self.env().template)
        &&& self.env().tokens.len() <= usize::MAX
        &&& 0 <= self.state().forloop_depth <= self.state().pos <= self.env().tokens.len()
    }

    /// The source text at a location.
    pub fn content(&self, at: At) -> (r: &'t str)
        requires
            is_span(self.env().template, at),
        ensures
            r@ == span(self.env().template, at),
    {
        self.template.content(at)
    }

    /// The number of for loops around the point that the parser has come to.
    pub fn forloop_depth(&self) -> (r: usize)
        ensures
            r == self.state().forloop_depth,
    {
        self.forloop_depth
    }

    /// The filter of a library with a name.
    pub fn external_filter(&self, name: &str) -> (r: Option<PyObject>)
        ensures
            r == (if self.state().external_filters.contains_key(name@) {
                Some(self.state().external_filters[name@])
            } else {
                None
            }),
    {
        match self.external_filters.get(name) {
            Some(filter) => Some(*filter),
            None => None,
        }
    }

    /// The source text.
    pub fn template_string(&self) -> (r: TemplateString<'t>)
        ensures
            r@ == self.env().template,
    {
        self.template
    }

    /// The engine that templates are found through.
    pub fn engine(&self) -> (r: PyObject)
        ensures
            r == self.env().engine,
    {
        self.engine
    }

    /// The name of the template, if it has one.
    pub fn origin_string(&self) -> (r: Option<String>)
        ensures
            option_view(r) == self.env().origin,
    {
        match self.origin {
            Some(origin) => Some(origin.to_owned()),
            None => None,
        }
    }

    /// A parser of the tokens of a template.
    ///
    /// `libraries` are the tag libraries of the engine, `origin` is the name of the template if it
    /// has one, and `next_cycle_id` tells the first cycle of the template.
    pub fn new(
        template: TemplateString<'t>,
        tokens: &'t Vec<Token>,
        engine: PyObject,
        libraries: &'t Dict<Library>,
        origin: Option<&'t str>,
        next_cycle_id: usize,
    ) -> (r: Self)
        requires
            tokens_wf(tokens@, template@),
        ensures
            r.wf(),
            r.env() == (Env {
                template: template@,
                tokens: tokens@,
                engine,
                libraries: libraries@,
                origin: option_view(origin),
            }),
            r.state() == new_state(next_cycle_id, Map::empty()),
    {
        assert(tokens@.len() == tokens.len());
        Parser {
            template,
            tokens,
            pos: 0,
            engine,
            libraries,
            origin,
            external_tags: Dict::new(),
            external_filters: Dict::new(),
            forloop_depth: 0,
            named_cycles: Dict::new(),
            next_cycle_id,
        }
    }

    /// A parser of the tokens of a template that knows some filters of libraries.
    pub fn new_with_filters(
        template: TemplateString<'t>,
        tokens: &'t Vec<Token>,
        engine: PyObject,
        libraries: &'t Dict<Library>,
        external_filters: Dict<PyObject>,
    ) -> (r: Self)
        requires
            tokens_wf(tokens@, template@),
        ensures
            r.wf(),
            r.env() == (Env {
                template: template@,
                tokens: tokens@,
                engine,
                libraries: libraries@,
                origin: None,
            }),
            r.state() == new_state(0, external_filters@),
    {
        assert(tokens@.len() == tokens.len());
        Parser {
            template,
            tokens,
            pos: 0,
            engine,
            libraries,
            origin: None,
            external_tags: Dict::new(),
            external_filters,
            forloop_depth: 0,
            named_cycles: Dict::new(),
            next_cycle_id: 0,
        }
    }

    /// What tells the next cycle.
    pub fn next_cycle_id(&self) -> (r: usize)
        ensures
            r == self.state().next_cycle_id,
    {
        self.next_cycle_id
    }
}

/// The state of a parser that has not read anything yet.
pub open spec fn new_state(
    next_cycle_id: usize,
    external_filters: Map<Seq<char>, PyObject>,
) -> State {
    State {
        pos: 0,
        forloop_depth: 0,
        named_cycles: Map::empty(),
        external_tags: Map::empty(),
        external_filters,
        next_cycle_id,
    }
}

/// A tag that ends a part of the tree: where it stands, what it ends, and the position of its
/// token.
#[derive(Debug)]
pub struct EndTag {
    pub at: At,
    pub end: EndTagType<String>,
    pub token: usize,
}

impl View for EndTag {
    type V = EndTagView;

    open spec fn view(&self) -> EndTagView {
        EndTagView { at: self.at, end: self.end@, token: self.token as int }
    }
}

/// What a token stands for.
#[derive(Debug)]
pub enum Read {
    Nothing,
    Node(TokenTree),
    End(EndTag),
}

impl View for Read {
    type V = ReadView;

    open spec fn view(&self) -> ReadView {
        match *self {
            Read::Nothing => ReadView::Nothing,
            Read::Node(node) => ReadView::Node(node@),
            Read::End(end) => ReadView::End(end@),
        }
    }
}

impl EndTagType<String> {
    /// The name of the tag.
    pub fn as_text(&self) -> (r: String)
        ensures
            r@ == end_tag_text(self@),
    {
        match self {
            EndTagType::Autoescape => "endautoescape".to_owned(),
            EndTagType::Elif => "elif".to_owned(),
            EndTagType::Else => "else".to_owned(),
            EndTagType::EndIf => "endif".to_owned(),
            EndTagType::Empty => "empty".to_owned(),
            EndTagType::EndFor => "endfor".to_owned(),
            EndTagType::Verbatim => "endverbatim".to_owned(),
            EndTagType::Custom(name) => name.clone(),
        }
    }

    /// Whether the two are the same.
    pub fn same(&self, other: &Self) -> (r: bool)
        ensures
            r == (self@ == other@),
    {
        match (self, other) {
            (EndTagType::Autoescape, EndTagType::Autoescape) => true,
            (EndTagType::Elif, EndTagType::Elif) => true,
            (EndTagType::Else, EndTagType::Else) => true,
            (EndTagType::EndIf, EndTagType::EndIf) => true,
            (EndTagType::Empty, EndTagType::Empty) => true,
            (EndTagType::EndFor, EndTagType::EndFor) => true,
            (EndTagType::Verbatim, EndTagType::Verbatim) => true,
            (EndTagType::Custom(a), EndTagType::Custom(b)) => str_eq(a.as_str(), b.as_str()),
            _ => false,
        }
    }
}

impl EndTag {
    /// The name of the tag.
    pub fn as_text(&self) -> (r: String)
        ensures
            r@ == end_tag_text(self@.end),
    {
        self.end.as_text()
    }
}

/// Whether a tag is among those that would end a part of the tree.
fn is_expected(until: &Vec<EndTagType<String>>, end: &EndTagType<String>) -> (r: bool)
    ensures
        r == views(until@).contains(end@),
{
    let mut i: usize = 0;
    while i < until.len()
        invariant
            0 <= i <= until@.len(),
            forall|j: int| 0 <= j < i ==> (#[trigger] until@[j])@ != end@,
        decreases until@.len() - i,
    {
        if until[i].same(end) {
            assert(views(until@)[i as int] == end@);
            return true;
        }
        i += 1;
    }
    false
}

/// The names of the tags that would end a part of the tree.
fn expected_texts(until: &Vec<EndTagType<String>>) -> (r: String)
    ensures
        r@ == end_tag_texts(views(until@)),
{
    let mut texts: Vec<String> = Vec::new();
    let mut i: usize = 0;
    while i < until.len()
        invariant
            0 <= i <= until@.len(),
            texts@.len() == i,
            forall|j: int| 0 <= j < i ==> (#[trigger] texts@[j])@ == end_tag_text(until@[j]@),
        decreases until@.len() - i,
    {
        texts.push(until[i].as_text());
        i += 1;
    }
    assert(views(texts@) =~= views(until@).map_values(
        |end: EndTagType<Seq<char>>| end_tag_text(end),
    ));
    join(&texts, ", ")
}

/// The token at a position is a tag with a condition.
pub open spec fn has_condition(env: Env, i: int) -> bool {
    &&& 0 <= i < env.tokens.len()
    &&& env.tokens[i].token_type matches TokenType::Tag(Arguments::If(tokens)) && if_tokens_wf(
        tokens@,
        env.template,
    )
}

/// The parser has kept to its surroundings and to what holds of it, and has not gone back.
pub open spec fn moved_on(before: Parser<'_>, after: Parser<'_>) -> bool {
    &&& after.wf()
    &&& after.env() == before.env()
    &&& before.state().pos <= after.state().pos
}

impl<'t> Parser<'t> {
    /// A cycle: the one with a given name, or a new one.
    pub fn parse_cycle(&mut self, parts_at: At, tokens: &'t ElementTokens) -> (r: Result<
        Cycle,
        ParseError<String>,
    >)
        requires
            old(self).wf(),
            elements_wf(tokens@, old(self).env().template),
        ensures
            moved_on(*old(self), *final(self)),
            (final(self).state(), result_view(r)) == cycle_at(
                old(self).env(),
                old(self).state(),
                parts_at,
                tokens@,
            ),
            final(self).state().pos == old(self).state().pos,
            final(self).state().forloop_depth == old(self).state().forloop_depth,
    {
        if let Some(e) = find_element_error(tokens) {
            return Err(ParseError::LexerError(e));
        }
        let len = tokens.len();
        if len == 0 {
            return Err(ParseError::MissingCycleArguments { at: parts_at });
        }
        if len == 1 {
            let reference = element_at(tokens, 0);
            return match &reference.token_type {
                TagElementTokenType::Variable(_) => {
                    let name = self.content(reference.at);
                    match self.named_cycles.get(name) {
                        Some(cycle) => Ok(cycle.duplicate()),
                        None => Err(
                            ParseError::UnknownNamedCycle {
                                name: name.to_owned(),
                                at: reference.at,
                            },
                        ),
                    }
                },
                _ => Err(ParseError::MissingCycleArguments { at: reference.at }),
            };
        }
        let (count, name_at, silent) = self.parse_cycle_shape(tokens)?;
        let values = self.parse_cycle_values(tokens, count)?;
        let id = CycleId(self.next_cycle_id);
        self.next_cycle_id = self.next_cycle_id.wrapping_add(1);
        let cycle = SimpleCycle { id, values };
        let at = match name_at {
            Some(at) => at,
            None => {
                return Ok(Cycle::Simple(cycle));
            },
        };
        let asvar = self.content(at).to_owned();
        let named = NamedCycle { cycle, asvar: asvar.clone() };
        let cycle = if silent {
            Cycle::SilentNamed(SilentNamedCycle { cycle: named })
        } else {
            Cycle::Named(named)
        };
        self.named_cycles.insert(asvar, cycle.duplicate());
        Ok(cycle)
    }

    /// How the elements of a cycle are to be read.
    fn parse_cycle_shape(&self, tokens: &ElementTokens) -> (r: Result<
        (usize, Option<At>, bool),
        ParseError<String>,
    >)
        requires
            tokens@.len() >= 2,
            elements_wf(tokens@, self.env().template),
            forall|i: int| 0 <= i < tokens@.len() ==> (#[trigger] tokens@[i]) is Ok,
        ensures
            match r {
                Ok((count, name_at, silent)) => {
                    &&& cycle_shape(self.env().template, tokens@) == Ok::<
                        _,
                        ParseError<Seq<char>>,
                    >((count as int, name_at, silent))
                    &&& 0 < count <= tokens@.len()
                    &&& name_at matches Some(at) ==> is_span(self.env().template, at)
                },
                Err(e) => cycle_shape(self.env().template, tokens@) == Err::<
                    (int, Option<At>, bool),
                    _,
                >(e@),
            },
    {
        let len = tokens.len();
        if len >= 5 && str_eq(self.content(element_at(tokens, len - 3).at), "as") {
            let flag_at = element_at(tokens, len - 1).at;
            let flag = self.content(flag_at);
            if !str_eq(flag, "silent") {
                return Err(ParseError::InvalidCycleFlag { flag: flag.to_owned(), at: flag_at });
            }
            return Ok((len - 3, Some(element_at(tokens, len - 2).at), true));
        }
        if len >= 4 && str_eq(self.content(element_at(tokens, len - 2).at), "as") {
            return Ok((len - 2, Some(element_at(tokens, len - 1).at), false));
        }
        Ok((len, None, false))
    }

    /// The values of the first elements of a cycle.
    fn parse_cycle_values(&self, tokens: &ElementTokens, count: usize) -> (r: Result<
        Vec<TagElement<Integer>>,
        ParseError<String>,
    >)
        requires
            count <= tokens@.len(),
            elements_wf(tokens@, self.env().template),
            forall|i: int| 0 <= i < tokens@.len() ==> (#[trigger] tokens@[i]) is Ok,
        ensures
            match r {
                Ok(values) => cycle_values(
                    self.scope(),
                    tokens@.take(count as int),
                    Seq::empty(),
                ) == Ok::<_, ParseError<Seq<char>>>(views(values@)),
                Err(e) => cycle_values(
                    self.scope(),
                    tokens@.take(count as int),
                    Seq::empty(),
                ) == Err::<Seq<TagElement<int>>, _>(e@),
            },
    {
        let ghost all = tokens@.take(count as int);
        let mut values: Vec<TagElement<Integer>> = Vec::new();
        let mut i: usize = 0;
        assert(all.skip(0) =~= all);
        assert(views(values@) =~= Seq::<TagElement<int>>::empty());
        while i < count
            invariant
                0 <= i <= count <= tokens@.len(),
                all == tokens@.take(count as int),
                elements_wf(tokens@, self.env().template),
                forall|j: int| 0 <= j < tokens@.len() ==> (#[trigger] tokens@[j]) is Ok,
                cycle_values(self.scope(), all, Seq::empty()) == cycle_values(
                    self.scope(),
                    all.skip(i as int),
                    views(values@),
                ),
            decreases count - i,
        {
            assert(all.skip(i as int)[0] == tokens@[i as int]);
            assert(all.skip(i as int).drop_first() =~= all.skip(i + 1));
            match self.parse_element(element_at(tokens, i)) {
                Ok(element) => {
                    proof {
                        lemma_views_push(values@, element);
                    }
                    values.push(element);
                },
                Err(e) => {
                    return Err(e);
                },
            }
            i += 1;
        }
        Ok(values)
    }

    /// Loads some of the filters and tags of a library, the last one first.
    fn load_names(
        &mut self,
        library_at: At,
        filters: &'t Vec<(String, PyObject)>,
        tags: &'t Vec<(String, TagSource)>,
        tokens: &'t Vec<LoadToken>,
        count: usize,
    ) -> (r: Result<(), PyParseError<String>>)
        requires
            old(self).wf(),
            is_span(old(self).env().template, library_at),
            count <= tokens@.len(),
            load_wf(tokens@, old(self).env().template),
        ensures
            moved_on(*old(self), *final(self)),
            (final(self).state(), py_result_view(r)) == names_loaded(
                old(self).env(),
                old(self).state(),
                library_at,
                filters@,
                tags@,
                tokens@.take(count as int),
            ),
            final(self).state().pos == old(self).state().pos,
            final(self).state().forloop_depth == old(self).state().forloop_depth,
    {
        let ghost env = self.env();
        let ghost first = self.state();
        let mut i: usize = count;
        while i > 0
            invariant
                0 <= i <= count <= tokens@.len(),
                self.wf(),
                self.env() == env,
                env == old(self).env(),
                first == old(self).state(),
                is_span(env.template, library_at),
                load_wf(tokens@, env.template),
                self.state().pos == first.pos,
                self.state().forloop_depth == first.forloop_depth,
                names_loaded(env, first, library_at, filters@, tags@, tokens@.take(count as int))
                    == names_loaded(
                    env,
                    self.state(),
                    library_at,
                    filters@,
                    tags@,
                    tokens@.take(i as int),
                ),
            decreases i,
        {
            assert(tokens@.take(i as int).last() == tokens@[i - 1]);
            assert(tokens@.take(i as int).drop_last() =~= tokens@.take(i - 1));
            i -= 1;
            let at = tokens[i].at;
            let name = self.content(at);
            if let Some(filter) = lookup(filters, name) {
                self.external_filters.insert(name.to_owned(), *filter);
            } else if let Some(tag) = lookup(tags, name) {
                match load_tag(&mut self.external_tags, at, name, tag) {
                    Ok(()) => {},
                    Err(e) => {
                        return Err(e);
                    },
                }
            } else {
                return Err(
                    PyParseError::ParseError(
                        ParseError::MissingFilterTag {
                            library: self.content(library_at).to_owned(),
                            library_at,
                            tag: name.to_owned(),
                            tag_at: at,
                        },
                    ),
                );
            }
        }
        Ok(())
    }

    /// Loads tags of a library in turn.
    fn load_tags(&mut self, at: At, tags: &'t Vec<(String, TagSource)>) -> (r: Result<
        (),
        PyParseError<String>,
    >)
        requires
            old(self).wf(),
        ensures
            moved_on(*old(self), *final(self)),
            (final(self).state(), py_result_view(r)) == tags_loaded(
                old(self).state(),
                at,
                tags@,
            ),
            final(self).state().pos == old(self).state().pos,
            final(self).state().forloop_depth == old(self).state().forloop_depth,
    {
        let ghost env = self.env();
        let ghost first = self.state();
        let mut i: usize = 0;
        assert(tags@.skip(0) =~= tags@);
        while i < tags.len()
            invariant
                0 <= i <= tags@.len(),
                self.wf(),
                self.env() == env,
                env == old(self).env(),
                first == old(self).state(),
                self.state().pos == first.pos,
                self.state().forloop_depth == first.forloop_depth,
                tags_loaded(first, at, tags@) == tags_loaded(
                    self.state(),
                    at,
                    tags@.skip(i as int),
                ),
            decreases tags@.len() - i,
        {
            assert(tags@.skip(i as int)[0] == tags@[i as int]);
            assert(tags@.skip(i as int).drop_first() =~= tags@.skip(i + 1));
            match load_tag(&mut self.external_tags, at, tags[i].0.as_str(), &tags[i].1) {
                Ok(()) => {},
                Err(e) => {
                    return Err(e);
                },
            }
            i += 1;
        }
        Ok(())
    }

    /// Loads libraries in turn.
    fn load_libraries(&mut self, at: At, tokens: &'t Vec<LoadToken>) -> (r: Result<
        (),
        PyParseError<String>,
    >)
        requires
            old(self).wf(),
            load_wf(tokens@, old(self).env().template),
        ensures
            moved_on(*old(self), *final(self)),
            (final(self).state(), py_result_view(r)) == libraries_loaded(
                old(self).env(),
                old(self).state(),
                at,
                tokens@,
            ),
            final(self).state().pos == old(self).state().pos,
            final(self).state().forloop_depth == old(self).state().forloop_depth,
    {
        let ghost env = self.env();
        let ghost first = self.state();
        let mut i: usize = 0;
        assert(tokens@.skip(0) =~= tokens@);
        while i < tokens.len()
            invariant
                0 <= i <= tokens@.len(),
                self.wf(),
                self.env() == env,
                env == old(self).env(),
                first == old(self).state(),
                load_wf(tokens@, env.template),
                self.state().pos == first.pos,
                self.state().forloop_depth == first.forloop_depth,
                libraries_loaded(env, first, at, tokens@) == libraries_loaded(
                    env,
                    self.state(),
                    at,
                    tokens@.skip(i as int),
                ),
            decreases tokens@.len() - i,
        {
            assert(tokens@.skip(i as int)[0] == tokens@[i as int]);
            assert(tokens@.skip(i as int).drop_first() =~= tokens@.skip(i + 1));
            let library = match load_library(tokens[i], self.libraries, self.template) {
                Ok(library) => library,
                Err(e) => {
                    return Err(PyParseError::ParseError(e));
                },
            };
            let filters = match &library.filters {
                Ok(filters) => filters,
                Err(e) => {
                    return Err(PyParseError::PyErr(*e));
                },
            };
            let tags = match &library.tags {
                Ok(tags) => tags,
                Err(e) => {
                    return Err(PyParseError::PyErr(*e));
                },
            };
            self.external_filters.extend(filters);
            match self.load_tags(at, tags) {
                Ok(()) => {},
                Err(e) => {
                    return Err(e);
                },
            }
            i += 1;
        }
        Ok(())
    }

    /// Loads libraries, or some of the filters and tags of one, as a tag at a location tells.
    fn parse_load(&mut self, at: At, tokens: &'t Vec<LoadToken>) -> (r: Result<
        (),
        PyParseError<String>,
    >)
        requires
            old(self).wf(),
            load_wf(tokens@, old(self).env().template),
        ensures
            moved_on(*old(self), *final(self)),
            (final(self).state(), py_result_view(r)) == loaded(
                old(self).env(),
                old(self).state(),
                at,
                tokens@,
            ),
            final(self).state().pos == old(self).state().pos,
            final(self).state().forloop_depth == old(self).state().forloop_depth,
    {
        let len = tokens.len();
        if len >= 2 && str_eq(self.content(tokens[len - 2].at), "from") {
            let last = tokens[len - 1];
            let library = match load_library(last, self.libraries, self.template) {
                Ok(library) => library,
                Err(e) => {
                    return Err(PyParseError::ParseError(e));
                },
            };
            let filters = match &library.filters {
                Ok(filters) => filters,
                Err(e) => {
                    return Err(PyParseError::PyErr(*e));
                },
            };
            let tags = match &library.tags {
                Ok(tags) => tags,
                Err(e) => {
                    return Err(PyParseError::PyErr(*e));
                },
            };
            return self.load_names(last.at, filters, tags, tokens, len - 2);
        }
        self.load_libraries(at, tokens)
    }

    /// Skips a comment that starts at a location.
    fn parse_comment(&mut self, at: At) -> (r: Result<(), PyParseError<String>>)
        requires
            old(self).wf(),
        ensures
            moved_on(*old(self), *final(self)),
            (final(self).state(), py_result_view(r)) == comment_at(
                old(self).env(),
                old(self).state(),
                at,
            ),
            final(self).state().forloop_depth == old(self).state().forloop_depth,
    {
        let ghost env = self.env();
        let ghost first = self.state();
        let tokens = self.tokens;
        while self.pos < tokens.len()
            invariant
                self.wf(),
                self.env() == env,
                env == old(self).env(),
                first == old(self).state(),
                tokens@ == env.tokens,
                first.pos <= self.state().pos,
                self.state() == (State { pos: self.state().pos, ..first }),
                comment_end(env, first.pos) == comment_end(env, self.state().pos),
            decreases tokens@.len() - self.state().pos,
        {
            let token = &tokens[self.pos];
            assert(env.tokens[self.pos as int].wf(env.template));
            let ghost here = self.state().pos;
            self.pos = self.pos + 1;
            if let TokenType::Tag(_) = &token.token_type {
                let content_at = (
                    token.at.0 + START_TAG_LEN,
                    token.at.1 - START_TAG_LEN - END_TAG_LEN,
                );
                if first_word_is(self.content(content_at), "endcomment") {
                    assert(comment_end(env, here) == Some(here));
                    return Ok(());
                }
            }
        }
        Err(
            PyParseError::ParseError(
                ParseError::MissingEndTag {
                    start: "comment".to_owned(),
                    expected: "endcomment".to_owned(),
                    at,
                },
            ),
        )
    }
}

impl<'t> Parser<'t> {
    /// What the next token stands for.
    fn parse_next(&mut self) -> (r: Result<Read, PyParseError<String>>)
        requires
            old(self).wf(),
            old(self).state().pos < old(self).env().tokens.len(),
        ensures
            moved_on(*old(self), *final(self)),
            old(self).state().pos < final(self).state().pos,
            (final(self).state(), py_result_view(r)) == read_next(
                old(self).env(),
                old(self).state(),
            ),
            r is Ok ==> final(self).state().forloop_depth == old(self).state().forloop_depth,
            r matches Ok(Read::End(end)) ==> (end.end is Elif ==> has_condition(
                old(self).env(),
                end.token as int,
            )),
        decreases old(self).env().tokens.len() - old(self).state().pos, 0int,
    {
        let tokens = self.tokens;
        let token = &tokens[self.pos];
        let ghost env = self.env();
        assert(env.tokens[self.pos as int].wf(env.template));
        self.pos = self.pos + 1;
        match &token.token_type {
            TokenType::Text => Ok(Read::Node(TokenTree::Text(Text::new(token.at)))),
            TokenType::Comment => Ok(Read::Nothing),
            TokenType::Variable(variable) => match self.parse_variable(variable, token.at) {
                Ok(element) => Ok(Read::Node(TokenTree::from(element))),
                Err(e) => Err(PyParseError::ParseError(e)),
            },
            TokenType::Tag(arguments) => self.parse_tag(token.at, arguments),
        }
    }

    /// The nodes up to a tag that ends them, and that tag. `start` is the name of the tag at
    /// `start_at` that is to be ended.
    fn parse_until(
        &mut self,
        until: Vec<EndTagType<String>>,
        start: String,
        start_at: At,
    ) -> (r: Result<(Vec<TokenTree>, EndTag), PyParseError<String>>)
        requires
            old(self).wf(),
        ensures
            moved_on(*old(self), *final(self)),
            match r {
                Ok((nodes, end)) => {
                    &&& nodes_until(
                        old(self).env(),
                        old(self).state(),
                        views(until@),
                        start@,
                        start_at,
                        Seq::empty(),
                    ) == (
                        final(self).state(),
                        Ok::<_, PyParseError<Seq<char>>>((nodes_view(nodes@), end@)),
                    )
                    &&& old(self).state().pos < final(self).state().pos
                    &&& final(self).state().forloop_depth == old(self).state().forloop_depth
                    &&& end.end is Elif ==> has_condition(old(self).env(), end.token as int)
                },
                Err(e) => nodes_until(
                    old(self).env(),
                    old(self).state(),
                    views(until@),
                    start@,
                    start_at,
                    Seq::empty(),
                ) == (
                    final(self).state(),
                    Err::<(Seq<TokenTreeView>, EndTagView), _>(e@),
                ),
            },
        decreases old(self).env().tokens.len() - old(self).state().pos, 1int,
    {
        let ghost env = self.env();
        let ghost first = self.state();
        let mut nodes: Vec<TokenTree> = Vec::new();
        while self.pos < self.tokens.len()
            invariant
                self.wf(),
                self.env() == env,
                env == old(self).env(),
                first == old(self).state(),
                first.pos <= self.state().pos,
                self.state().forloop_depth == first.forloop_depth,
                nodes_until(env, first, views(until@), start@, start_at, Seq::empty())
                    == nodes_until(
                    env,
                    self.state(),
                    views(until@),
                    start@,
                    start_at,
                    nodes_view(nodes@),
                ),
            decreases env.tokens.len() - self.state().pos,
        {
            match self.parse_next() {
                Err(e) => {
                    return Err(e);
                },
                Ok(Read::Nothing) => {},
                Ok(Read::Node(node)) => {
                    proof {
                        lemma_nodes_view_push(nodes@, node);
                    }
                    nodes.push(node);
                },
                Ok(Read::End(end)) => {
                    if is_expected(&until, &end.end) {
                        return Ok((nodes, end));
                    }
                    return Err(
                        PyParseError::ParseError(
                            ParseError::WrongEndTag {
                                expected: expected_texts(&until),
                                unexpected: end.as_text(),
                                at: end.at,
                                start_at,
                            },
                        ),
                    );
                },
            }
        }
        Err(
            PyParseError::ParseError(
                ParseError::MissingEndTag {
                    start,
                    expected: expected_texts(&until),
                    at: start_at,
                },
            ),
        )
    }

    /// Nodes within which escaping is switched on or off.
    fn parse_autoescape(&mut self, at: At, arguments: &'t Arguments) -> (r: Result<
        TokenTree,
        PyParseError<String>,
    >)
        requires
            old(self).wf(),
            arguments is Autoescape,
        ensures
            moved_on(*old(self), *final(self)),
            (final(self).state(), node_outcome(r)) == autoescape_at(
                old(self).env(),
                old(self).state(),
                at,
                *arguments,
            ),
            r is Ok ==> final(self).state().forloop_depth == old(self).state().forloop_depth,
        decreases old(self).env().tokens.len() - old(self).state().pos, 3int,
    {
        let enabled = match arguments {
            Arguments::Autoescape(Ok(enabled)) => *enabled,
            Arguments::Autoescape(Err(e)) => {
                return Err(PyParseError::ParseError(ParseError::AutoescapeError(*e)));
            },
            _ => vstd::pervasive::unreached(),
        };
        let mut until: Vec<EndTagType<String>> = Vec::new();
        until.push(EndTagType::Autoescape);
        assert(views(until@) =~= seq![EndTagType::Autoescape]);
        let (nodes, _) = self.parse_until(until, "autoescape".to_owned(), at)?;
        Ok(TokenTree::Tag(Tag::Autoescape { enabled, nodes }))
    }

    /// An if tag, or an elif tag as `start` tells.
    fn parse_if(&mut self, at: At, tokens: &'t IfConditionTokens, start: &str) -> (r: Result<
        TokenTree,
        PyParseError<String>,
    >)
        requires
            old(self).wf(),
            if_tokens_wf(tokens@, old(self).env().template),
        ensures
            moved_on(*old(self), *final(self)),
            (final(self).state(), node_outcome(r)) == if_at(
                old(self).env(),
                old(self).state(),
                at,
                Arguments::If(*tokens),
                start@,
            ),
            r is Ok ==> final(self).state().forloop_depth == old(self).state().forloop_depth,
        decreases old(self).env().tokens.len() - old(self).state().pos, 3int,
    {
        let condition = match parse_if_condition(self, tokens, at) {
            Ok(condition) => condition,
            Err(e) => {
                return Err(PyParseError::ParseError(e));
            },
        };
        let mut until: Vec<EndTagType<String>> = Vec::new();
        until.push(EndTagType::Elif);
        until.push(EndTagType::Else);
        until.push(EndTagType::EndIf);
        assert(views(until@) =~= if_ends());
        let (truthy, end) = self.parse_until(until, start.to_owned(), at)?;
        let falsey = self.parse_falsey(end)?;
        Ok(TokenTree::Tag(Tag::If { condition, truthy, falsey }))
    }

    /// What follows the first part of an if tag.
    fn parse_falsey(&mut self, end: EndTag) -> (r: Result<
        Option<Vec<TokenTree>>,
        PyParseError<String>,
    >)
        requires
            old(self).wf(),
            end.end is Elif ==> has_condition(old(self).env(), end.token as int),
        ensures
            moved_on(*old(self), *final(self)),
            (final(self).state(), nodes_outcome(r)) == falsey_at(
                old(self).env(),
                old(self).state(),
                end@,
            ),
            r is Ok ==> final(self).state().forloop_depth == old(self).state().forloop_depth,
        decreases old(self).env().tokens.len() - old(self).state().pos, 4int,
    {
        match &end.end {
            EndTagType::Elif => {
                let tokens = self.tokens;
                let condition = match &tokens[end.token].token_type {
                    TokenType::Tag(Arguments::If(condition)) => condition,
                    _ => vstd::pervasive::unreached(),
                };
                let node = self.parse_if(end.at, condition, "elif")?;
                let mut nodes: Vec<TokenTree> = Vec::new();
                proof {
                    lemma_nodes_view_push(nodes@, node);
                    assert(nodes_view(nodes@).push(node@) =~= seq![node@]);
                }
                nodes.push(node);
                Ok(Some(nodes))
            },
            EndTagType::Else => {
                let mut until: Vec<EndTagType<String>> = Vec::new();
                until.push(EndTagType::EndIf);
                assert(views(until@) =~= seq![EndTagType::EndIf]);
                let (nodes, _) = self.parse_until(until, "else".to_owned(), end.at)?;
                Ok(Some(nodes))
            },
            _ => Ok(None),
        }
    }

    /// A for loop.
    fn parse_for(&mut self, at: At, arguments: &'t ForArguments) -> (r: Result<
        TokenTree,
        PyParseError<String>,
    >)
        requires
            old(self).wf(),
            old(self).state().forloop_depth < old(self).state().pos,
            arguments.wf(old(self).env().template),
        ensures
            moved_on(*old(self), *final(self)),
            (final(self).state(), node_outcome(r)) == for_at(
                old(self).env(),
                old(self).state(),
                at,
                Arguments::For(*arguments),
            ),
            r is Ok ==> final(self).state().forloop_depth == old(self).state().forloop_depth,
        decreases old(self).env().tokens.len() - old(self).state().pos, 3int,
    {
        self.forloop_depth = self.forloop_depth + 1;
        let (iterable, variables, reversed) = match parse_for_loop(self, arguments, at) {
            Ok(parsed) => parsed,
            Err(e) => {
                return Err(PyParseError::ParseError(e));
            },
        };
        let mut until: Vec<EndTagType<String>> = Vec::new();
        until.push(EndTagType::Empty);
        until.push(EndTagType::EndFor);
        assert(views(until@) =~= for_ends());
        let (body, end) = self.parse_until(until, "for".to_owned(), at)?;
        self.forloop_depth = self.forloop_depth - 1;
        let empty = self.parse_empty(end)?;
        Ok(TokenTree::Tag(Tag::For(For { iterable, variables, reversed, body, empty })))
    }

    /// What follows the body of a for loop.
    fn parse_empty(&mut self, end: EndTag) -> (r: Result<
        Option<Vec<TokenTree>>,
        PyParseError<String>,
    >)
        requires
            old(self).wf(),
        ensures
            moved_on(*old(self), *final(self)),
            (final(self).state(), nodes_outcome(r)) == empty_at(
                old(self).env(),
                old(self).state(),
                end@,
            ),
            r is Ok ==> final(self).state().forloop_depth == old(self).state().forloop_depth,
        decreases old(self).env().tokens.len() - old(self).state().pos, 3int,
    {
        match &end.end {
            EndTagType::Empty => {
                let mut until: Vec<EndTagType<String>> = Vec::new();
                until.push(EndTagType::EndFor);
                assert(views(until@) =~= seq![EndTagType::EndFor]);
                let (nodes, _) = self.parse_until(until, "empty".to_owned(), end.at)?;
                Ok(Some(nodes))
            },
            _ => Ok(None),
        }
    }

    /// A tag of a library.
    fn parse_simple_tag(
        &self,
        context: &SimpleTagContext,
        at: At,
        parts_at: At,
        tokens: &'t KwargTokens,
    ) -> (r: Result<TokenTree, PyParseError<String>>)
        requires
            kwargs_wf(tokens@, self.env().template),
        ensures
            node_outcome(r) == simple_tag(
                self.scope(),
                at,
                parts_at,
                Arguments::Kwargs(*tokens),
                context@,
            ),
    {
        let (args, kwargs, target_var) = match self.parse_custom_tag_parts(
            tokens,
            parts_at,
            context,
        ) {
            Ok(parts) => parts,
            Err(e) => {
                return Err(PyParseError::ParseError(e));
            },
        };
        Ok(
            TokenTree::Tag(
                Tag::SimpleTag(
                    SimpleTag {
                        func: context.func,
                        at,
                        takes_context: context.takes_context,
                        args,
                        kwargs,
                        target_var,
                    },
                ),
            ),
        )
    }

    /// A tag of a library, around other nodes.
    fn parse_simple_block_tag(
        &mut self,
        context: SimpleTagContext,
        tag_name: String,
        end_tag_name: String,
        at: At,
        parts_at: At,
        tokens: &'t KwargTokens,
    ) -> (r: Result<TokenTree, PyParseError<String>>)
        requires
            old(self).wf(),
            kwargs_wf(tokens@, old(self).env().template),
        ensures
            moved_on(*old(self), *final(self)),
            (final(self).state(), node_outcome(r)) == simple_block_tag_at(
                old(self).env(),
                old(self).state(),
                at,
                parts_at,
                Arguments::Kwargs(*tokens),
                tag_name@,
                end_tag_name@,
                context@,
            ),
            r is Ok ==> final(self).state().forloop_depth == old(self).state().forloop_depth,
        decreases old(self).env().tokens.len() - old(self).state().pos, 3int,
    {
        let (args, kwargs, target_var) = match self.parse_custom_tag_parts(
            tokens,
            parts_at,
            &context,
        ) {
            Ok(parts) => parts,
            Err(e) => {
                return Err(PyParseError::ParseError(e));
            },
        };
        let mut until: Vec<EndTagType<String>> = Vec::new();
        until.push(EndTagType::Custom(end_tag_name));
        assert(views(until@) =~= seq![EndTagType::Custom(end_tag_name@)]);
        let (nodes, _) = self.parse_until(until, tag_name, at)?;
        Ok(
            TokenTree::Tag(
                Tag::SimpleBlockTag(
                    SimpleBlockTag {
                        func: context.func,
                        nodes,
                        at,
                        takes_context: context.takes_context,
                        args,
                        kwargs,
                        target_var,
                    },
                ),
            ),
        )
    }
}

/// A node, as what a token stands for.
fn read_node(r: Result<TokenTree, PyParseError<String>>) -> (out: Result<
    Read,
    PyParseError<String>,
>)
    ensures
        py_result_view(out) == node_outcome(r),
        out is Ok == r is Ok,
        !(out matches Ok(Read::End(_))),
{
    match r {
        Ok(node) => Ok(Read::Node(node)),
        Err(e) => Err(e),
    }
}

/// A tag, as what a token stands for.
fn read_tag(tag: Tag) -> (out: Result<Read, PyParseError<String>>)
    ensures
        py_result_view(out) == Ok::<_, PyParseError<Seq<char>>>(
            ReadView::Node(TokenTreeView::Tag(tag@)),
        ),
        !(out matches Ok(Read::End(_))),
{
    Ok(Read::Node(TokenTree::Tag(tag)))
}

impl<'t> Parser<'t> {
    /// A tag that ends a part of the tree, at the token that was read last.
    fn read_end(&self, at: At, end: EndTagType<String>) -> (r: Result<Read, PyParseError<String>>)
        requires
            self.state().pos > 0,
            end is Elif ==> has_condition(self.env(), self.state().pos - 1),
        ensures
            (self.state(), py_result_view(r)) == end_tag(self.state(), at, end@),
            r matches Ok(Read::End(end)) ==> (end.end is Elif ==> has_condition(
                self.env(),
                end.token as int,
            )),
    {
        Ok(Read::End(EndTag { at, end, token: self.pos - 1 }))
    }

    /// What a tag stands for, whose token was read last.
    #[verifier::rlimit(40)]
    fn parse_tag(&mut self, at: At, arguments: &'t Arguments) -> (r: Result<
        Read,
        PyParseError<String>,
    >)
        requires
            old(self).wf(),
            old(self).state().forloop_depth < old(self).state().pos,
            old(self).env().tokens[old(self).state().pos - 1].token_type == TokenType::Tag(
                *arguments,
            ),
            is_delimited(old(self).env().template, at),
            arguments.belong_to(old(self).env().template, at),
        ensures
            moved_on(*old(self), *final(self)),
            (final(self).state(), py_result_view(r)) == tag_at(
                old(self).env(),
                old(self).state(),
                at,
                *arguments,
            ),
            r is Ok ==> final(self).state().forloop_depth == old(self).state().forloop_depth,
            r matches Ok(Read::End(end)) ==> (end.end is Elif ==> has_condition(
                old(self).env(),
                end.token as int,
            )),
        decreases old(self).env().tokens.len() - old(self).state().pos, 5int,
    {
        let tag = match lex_tag_at(self.template, at) {
            Ok(tag) => tag,
            Err(e) => {
                return Err(PyParseError::ParseError(ParseError::BlockError(e)));
            },
        };
        let name = tag.content(self.template);
        let parts_at = tag.parts.at;
        if str_eq(name, "url") {
            match arguments {
                Arguments::Kwargs(tokens) => match self.parse_url(at, tokens) {
                    Ok(url) => read_tag(Tag::Url(url)),
                    Err(e) => Err(PyParseError::ParseError(e)),
                },
                _ => vstd::pervasive::unreached(),
            }
        } else if str_eq(name, "firstof") {
            match arguments {
                Arguments::Kwargs(tokens) => match self.parse_firstof(parts_at, tokens) {
                    Ok(firstof) => read_tag(Tag::FirstOf(firstof)),
                    Err(e) => Err(PyParseError::ParseError(e)),
                },
                _ => vstd::pervasive::unreached(),
            }
        } else if str_eq(name, "csrf_token") {
            read_tag(Tag::CsrfToken(CsrfToken))
        } else if str_eq(name, "load") {
            match arguments {
                Arguments::Load(tokens) => match self.parse_load(at, tokens) {
                    Ok(()) => read_tag(Tag::Load),
                    Err(e) => Err(e),
                },
                _ => vstd::pervasive::unreached(),
            }
        } else if str_eq(name, "autoescape") {
            read_node(self.parse_autoescape(at, arguments))
        } else if str_eq(name, "endautoescape") {
            self.read_end(at, EndTagType::Autoescape)
        } else if str_eq(name, "endverbatim") {
            self.read_end(at, EndTagType::Verbatim)
        } else if str_eq(name, "if") {
            match arguments {
                Arguments::If(tokens) => read_node(self.parse_if(at, tokens, "if")),
                _ => vstd::pervasive::unreached(),
            }
        } else if str_eq(name, "elif") {
            self.read_end(at, EndTagType::Elif)
        } else if str_eq(name, "else") {
            self.read_end(at, EndTagType::Else)
        } else if str_eq(name, "endif") {
            self.read_end(at, EndTagType::EndIf)
        } else if str_eq(name, "for") {
            match arguments {
                Arguments::For(arguments) => read_node(self.parse_for(at, arguments)),
                _ => vstd::pervasive::unreached(),
            }
        } else if str_eq(name, "empty") {
            self.read_end(at, EndTagType::Empty)
        } else if str_eq(name, "endfor") {
            self.read_end(at, EndTagType::EndFor)
        } else if str_eq(name, "include") {
            match arguments {
                Arguments::Include(arguments) => match self.parse_include(at, arguments) {
                    Ok(included) => read_tag(Tag::Include(included)),
                    Err(e) => Err(PyParseError::ParseError(e)),
                },
                _ => vstd::pervasive::unreached(),
            }
        } else if str_eq(name, "lorem") {
            match arguments {
                Arguments::Lorem(tokens) => match self.parse_lorem(tokens) {
                    Ok(lorem) => read_tag(Tag::Lorem(lorem)),
                    Err(e) => Err(PyParseError::ParseError(e)),
                },
                _ => vstd::pervasive::unreached(),
            }
        } else if str_eq(name, "comment") {
            match self.parse_comment(at) {
                Ok(()) => read_tag(Tag::Comment(Comment)),
                Err(e) => Err(e),
            }
        } else if str_eq(name, "now") {
            match arguments {
                Arguments::Now(arguments) => match self.parse_now(arguments) {
                    Ok(now) => read_tag(Tag::Now(now)),
                    Err(e) => Err(PyParseError::ParseError(e)),
                },
                _ => vstd::pervasive::unreached(),
            }
        } else if str_eq(name, "templatetag") {
            match arguments {
                Arguments::TemplateTag(Ok(template_tag)) => read_tag(
                    Tag::TemplateTag(*template_tag),
                ),
                Arguments::TemplateTag(Err(e)) => Err(
                    PyParseError::ParseError(ParseError::TemplateTagError(*e)),
                ),
                _ => vstd::pervasive::unreached(),
            }
        } else if str_eq(name, "cycle") {
            match arguments {
                Arguments::Elements(tokens) => match self.parse_cycle(parts_at, tokens) {
                    Ok(cycle) => read_tag(Tag::Cycle(cycle)),
                    Err(e) => Err(PyParseError::ParseError(e)),
                },
                _ => vstd::pervasive::unreached(),
            }
        } else {
            match arguments {
                Arguments::Kwargs(tokens) => self.parse_external_tag(name, at, parts_at, tokens),
                _ => vstd::pervasive::unreached(),
            }
        }
    }

    /// What a tag that is not built in stands for.
    fn parse_external_tag(
        &mut self,
        name: &str,
        at: At,
        parts_at: At,
        tokens: &'t KwargTokens,
    ) -> (r: Result<Read, PyParseError<String>>)
        requires
            old(self).wf(),
            old(self).state().pos > 0,
            kwargs_wf(tokens@, old(self).env().template),
        ensures
            moved_on(*old(self), *final(self)),
            (final(self).state(), py_result_view(r)) == external_tag_at(
                old(self).env(),
                old(self).state(),
                at,
                parts_at,
                Arguments::Kwargs(*tokens),
                name@,
            ),
            r is Ok ==> final(self).state().forloop_depth == old(self).state().forloop_depth,
            !(r matches Ok(Read::End(end)) && end.end is Elif),
        decreases old(self).env().tokens.len() - old(self).state().pos, 4int,
    {
        let context = match self.external_tags.get(name) {
            Some(context) => context.duplicate(),
            None => {
                return Err(
                    PyParseError::Unsupported(Unsupported::Tag { name: name.to_owned() }),
                );
            },
        };
        match context {
            TagContext::Simple(context) => read_node(
                self.parse_simple_tag(&context, at, parts_at, tokens),
            ),
            TagContext::SimpleBlock { end_tag_name, context } => read_node(
                self.parse_simple_block_tag(
                    context,
                    name.to_owned(),
                    end_tag_name,
                    at,
                    parts_at,
                    tokens,
                ),
            ),
            TagContext::EndSimpleBlock => self.read_end(at, EndTagType::Custom(name.to_owned())),
        }
    }

    /// The nodes that the tokens of the template stand for.
    pub fn parse(&mut self) -> (r: Result<Vec<TokenTree>, PyParseError<String>>)
        requires
            old(self).wf(),
        ensures
            moved_on(*old(self), *final(self)),
            (
                final(self).state(),
                match r {
                    Ok(nodes) => Ok(nodes_view(nodes@)),
                    Err(e) => Err(e@),
                },
            ) == nodes_of(old(self).env(), old(self).state(), Seq::empty()),
            r is Ok ==> {
                &&& final(self).state().pos == old(self).env().tokens.len()
                &&& final(self).state().forloop_depth == old(self).state().forloop_depth
            },
    {
        proof {
            law_all_tokens_are_read(self.env(), self.state());
        }
        let ghost env = self.env();
        let ghost first = self.state();
        let mut nodes: Vec<TokenTree> = Vec::new();
        while self.pos < self.tokens.len()
            invariant
                self.wf(),
                self.env() == env,
                env == old(self).env(),
                first == old(self).state(),
                first.pos <= self.state().pos,
                nodes_of(env, first, Seq::empty()) == nodes_of(
                    env,
                    self.state(),
                    nodes_view(nodes@),
                ),
            decreases env.tokens.len() - self.state().pos,
        {
            match self.parse_next() {
                Err(e) => {
                    return Err(e);
                },
                Ok(Read::Nothing) => {},
                Ok(Read::Node(node)) => {
                    proof {
                        lemma_nodes_view_push(nodes@, node);
                    }
                    nodes.push(node);
                },
                Ok(Read::End(end)) => {
                    return Err(
                        PyParseError::ParseError(
                            ParseError::UnexpectedEndTag { at: end.at, unexpected: end.as_text() },
                        ),
                    );
                },
            }
        }
        Ok(nodes)
    }
}

/// The view of the outcome of parsing a node.
pub open spec fn node_outcome(r: Result<TokenTree, PyParseError<String>>) -> Result<
    ReadView,
    PyParseError<Seq<char>>,
> {
    match r {
        Ok(node) => Ok(ReadView::Node(node@)),
        Err(e) => Err(e@),
    }
}

/// The view of the outcome of parsing nodes that may be left out.
pub open spec fn nodes_outcome(r: Result<Option<Vec<TokenTree>>, PyParseError<String>>) -> Result<
    Option<Seq<TokenTreeView>>,
    PyParseError<Seq<char>>,
> {
    match r {
        Ok(Some(nodes)) => Ok(Some(nodes_view(nodes@))),
        Ok(None) => Ok(None),
        Err(e) => Err(e@),
    }
}

/// What is reported of the first element that could not be read.
fn find_element_error(tokens: &ElementTokens) -> (r: Option<LexerError>)
    ensures
        r == first_element_error(tokens@),
        r is None ==> forall|i: int| 0 <= i < tokens@.len() ==> (#[trigger] tokens@[i]) is Ok,
{
    let mut i: usize = 0;
    assert(tokens@.skip(0) =~= tokens@);
    while i < tokens.len()
        invariant
            0 <= i <= tokens@.len(),
            forall|j: int| 0 <= j < i ==> (#[trigger] tokens@[j]) is Ok,
            first_element_error(tokens@) == first_element_error(tokens@.skip(i as int)),
        decreases tokens@.len() - i,
    {
        assert(tokens@.skip(i as int)[0] == tokens@[i as int]);
        assert(tokens@.skip(i as int).drop_first() =~= tokens@.skip(i + 1));
        if let Err(e) = &tokens[i] {
            return Some(*e);
        }
        i += 1;
    }
    None
}

/// An element that could be read.
fn element_at(tokens: &ElementTokens, i: usize) -> (r: &TagElementToken)
    requires
        i < tokens@.len(),
        tokens@[i as int] is Ok,
    ensures
        *r == tokens@[i as int]->Ok_0,
{
    match &tokens[i] {
        Ok(token) => token,
        Err(_) => vstd::pervasive::unreached(),
    }
}

} // verus!
