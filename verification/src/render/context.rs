//! What a template is rendered with.
use std::collections::HashMap;
use vstd::prelude::*;
use vstd::string::*;
use vstd::std_specs::hash::group_hash_axioms;
use crate::dict::{contains_text, duplicate_all, map_of, views, Dict, Duplicate};
use crate::listing::{
    is_listing, law_listing_is_unique, lemma_filtered_texts_stay_in_order, lemma_to_set_push,
    listing, sort_texts,
};
use crate::integer::{decimal_text, usize_text};
use crate::parse::tree::CycleId;
use crate::render::content::{bool_text, truth_text};
use crate::render::errors::{PyRenderError, RenderError};
use crate::text::{str_eq, text_less, At};
use crate::types::PyObject;
use crate::words::{join, joined_by};

verus! {

broadcast use group_hash_axioms;

/// How far a for loop has come.
#[derive(Clone, Copy, Debug, PartialEq, Eq, Structural)]
pub struct ForLoop {
    count: usize,
    len: usize,
}

impl ForLoop {
    /// The number of items that are done.
    pub closed spec fn done(self) -> int {
        self.count as int
    }

    /// The number of items.
    pub closed spec fn length(self) -> int {
        self.len as int
    }

    /// A loop over some items, none of which is done.
    pub fn new(len: usize) -> (r: Self)
        ensures
            r.done() == 0,
            r.length() == len,
    {
        ForLoop { count: 0, len }
    }

    pub fn counter0(&self) -> (r: usize)
        ensures
            r == self.done(),
    {
        self.count
    }

    pub fn counter(&self) -> (r: usize)
        requires
            self.done() < usize::MAX,
        ensures
            r == self.done() + 1,
    {
        self.count + 1
    }

    pub fn rev_counter(&self) -> (r: usize)
        requires
            self.done() <= self.length(),
        ensures
            r == self.length() - self.done(),
    {
        self.len - self.count
    }

    pub fn rev_counter0(&self) -> (r: usize)
        requires
            self.done() < self.length(),
        ensures
            r == self.length() - self.done() - 1,
    {
        self.len - self.count - 1
    }

    pub fn first(&self) -> (r: bool)
        ensures
            r == (self.done() == 0),
    {
        self.count == 0
    }

    pub fn last(&self) -> (r: bool)
        requires
            self.done() < usize::MAX,
        ensures
            r == (self.done() + 1 == self.length()),
    {
        self.count + 1 == self.len
    }

    /// Whether there is an item that is not done.
    pub fn has_turn_left(&self) -> (r: bool)
        ensures
            r == (self.done() < self.length()),
    {
        self.count < self.len
    }

    /// What is written of the loop, which lies within another one.
    fn describe(&self, parent: &str) -> (r: String)
        requires
            self.done() < self.length(),
        ensures
            r@ == loop_text(*self, parent@),
    {
        let mut text = "{'parentloop': ".to_owned();
        text.append(parent);
        text.append(", 'counter0': ");
        text.append(usize_text(self.counter0()).as_str());
        text.append(", 'counter': ");
        text.append(usize_text(self.counter()).as_str());
        text.append(", 'revcounter': ");
        text.append(usize_text(self.rev_counter()).as_str());
        text.append(", 'revcounter0': ");
        text.append(usize_text(self.rev_counter0()).as_str());
        text.append(", 'first': ");
        text.append(bool_text(self.first()).as_str());
        text.append(", 'last': ");
        text.append(bool_text(self.last()).as_str());
        text.append("}");
        text
    }

    /// The loop with one more item done.
    fn next(self) -> (r: Self)
        requires
            self.done() < usize::MAX,
        ensures
            r.done() == self.done() + 1,
            r.length() == self.length(),
    {
        ForLoop { count: self.count + 1, len: self.len }
    }
}

/// What is written of a for loop, which lies within another one: a Python dictionary.
pub open spec fn loop_text(for_loop: ForLoop, parent: Seq<char>) -> Seq<char> {
    let done = for_loop.done();
    let length = for_loop.length();
    "{'parentloop': "@ + parent + ", 'counter0': "@ + decimal_text(done) + ", 'counter': "@
        + decimal_text(done + 1) + ", 'revcounter': "@ + decimal_text(length - done)
        + ", 'revcounter0': "@ + decimal_text(length - done - 1) + ", 'first': "@ + truth_text(
        done == 0,
    ) + ", 'last': "@ + truth_text(done + 1 == length) + "}"@
}

/// In each turn of a loop the counters count the items up from the first one and down to the last
/// one, with zero or one for it: the first item is the one that none is done before, and the last
/// one the one that none is left after.
pub proof fn law_turn_of_a_loop(
    for_loop: ForLoop,
    turn: int,
    items: int,
    counter0: usize,
    counter: usize,
    rev_counter0: usize,
    rev_counter: usize,
    first: bool,
    last: bool,
)
    requires
        for_loop.done() == turn,
        for_loop.length() == items,
        0 <= turn < items,
        call_ensures(ForLoop::counter0, (&for_loop,), counter0),
        call_ensures(ForLoop::counter, (&for_loop,), counter),
        call_ensures(ForLoop::rev_counter0, (&for_loop,), rev_counter0),
        call_ensures(ForLoop::rev_counter, (&for_loop,), rev_counter),
        call_ensures(ForLoop::first, (&for_loop,), first),
        call_ensures(ForLoop::last, (&for_loop,), last),
    ensures
        counter0 == turn,
        counter == turn + 1,
        counter0 + rev_counter0 + 1 == items,
        counter + rev_counter == items + 1,
        first <==> turn == 0,
        last <==> turn + 1 == items,
        first <==> counter0 == 0,
        last <==> rev_counter0 == 0,
{
}

/// A loop begins with none of its items done, and has a turn left just as long as an item is not
/// done.
pub proof fn law_loops_begin_and_end(len: usize, begun: ForLoop, for_loop: ForLoop, more: bool)
    requires
        call_ensures(ForLoop::new, (len,), begun),
        call_ensures(ForLoop::has_turn_left, (&for_loop,), more),
    ensures
        begun.done() == 0,
        begun.length() == len,
        more <==> for_loop.done() + 1 <= for_loop.length(),
{
}

/// What is written of for loops, the first one of which has the others as its `parentloop`.
pub open spec fn loops_text(loops: Seq<ForLoop>) -> Seq<char>
    decreases loops.len(),
{
    if loops.len() == 0 {
        "{}"@
    } else {
        loop_text(loops[0], loops_text(loops.drop_first()))
    }
}

/// A template that has been compiled, known by its identity only.
#[derive(Clone, Copy, Debug, PartialEq, Eq, Structural)]
pub struct TemplateRef {
    pub id: u64,
}

impl View for TemplateRef {
    type V = TemplateRef;

    open spec fn view(&self) -> TemplateRef {
        *self
    }
}

impl Duplicate for TemplateRef {
    fn duplicate(&self) -> (r: Self) {
        *self
    }
}

/// What a template to be rendered in place of a tag is found by: a name, or the first of some
/// names.
#[derive(Debug, PartialEq, Eq)]
pub enum IncludeTemplateKey {
    String(String),
    Vec(Vec<String>),
}

pub enum IncludeTemplateKeyView {
    String(Seq<char>),
    Vec(Seq<Seq<char>>),
}

impl View for IncludeTemplateKey {
    type V = IncludeTemplateKeyView;

    open spec fn view(&self) -> IncludeTemplateKeyView {
        match *self {
            IncludeTemplateKey::String(name) => IncludeTemplateKeyView::String(name@),
            IncludeTemplateKey::Vec(names) => IncludeTemplateKeyView::Vec(views(names@)),
        }
    }
}

impl Duplicate for IncludeTemplateKey {
    fn duplicate(&self) -> (r: Self) {
        match self {
            IncludeTemplateKey::String(name) => IncludeTemplateKey::String(name.clone()),
            IncludeTemplateKey::Vec(names) => IncludeTemplateKey::Vec(duplicate_all(names)),
        }
    }
}

/// Whether two lists hold the same texts.
fn same_texts(a: &Vec<String>, b: &Vec<String>) -> (r: bool)
    ensures
        r == (views(a@) == views(b@)),
{
    if a.len() != b.len() {
        assert(views(a@).len() != views(b@).len());
        return false;
    }
    let mut i: usize = 0;
    while i < a.len()
        invariant
            0 <= i <= a@.len(),
            a@.len() == b@.len(),
            forall|j: int| 0 <= j < i ==> a@[j]@ == b@[j]@,
        decreases a@.len() - i,
    {
        if !str_eq(a[i].as_str(), b[i].as_str()) {
            assert(views(a@)[i as int] != views(b@)[i as int]);
            return false;
        }
        i += 1;
    }
    assert(views(a@) =~= views(b@));
    true
}

impl IncludeTemplateKey {
    /// Whether the two are the same.
    pub fn same(&self, other: &Self) -> (r: bool)
        ensures
            r == (self@ == other@),
    {
        match (self, other) {
            (IncludeTemplateKey::String(a), IncludeTemplateKey::String(b)) => str_eq(
                a.as_str(),
                b.as_str(),
            ),
            (IncludeTemplateKey::Vec(a), IncludeTemplateKey::Vec(b)) => same_texts(a, b),
            _ => false,
        }
    }
}

/// The map that a list of templates stands for.
pub open spec fn include_map(entries: Seq<(IncludeTemplateKey, TemplateRef)>) -> Map<
    IncludeTemplateKeyView,
    TemplateRef,
>
    decreases entries.len(),
{
    if entries.len() == 0 {
        Map::empty()
    } else {
        include_map(entries.drop_last()).insert(entries.last().0@, entries.last().1)
    }
}

/// The values that a name has, the last one of which counts.
pub type Values = Vec<PyObject>;

impl Duplicate for Values {
    fn duplicate(&self) -> (r: Self) {
        let r = self.clone();
        assert(r@ =~= self@);
        r
    }
}

/// What a template is rendered with.
#[derive(Debug)]
pub struct Context {
    context: Dict<Values>,
    loops: Vec<ForLoop>,
    pub request: Option<PyObject>,
    pub autoescape: bool,
    names: Vec<Vec<String>>,
    include_cache: Vec<(IncludeTemplateKey, TemplateRef)>,
    cycle_indices: HashMap<usize, usize>,
}

#[verifier::ext_equal]
pub struct ContextView {
    /// The values of each name, the last one of which counts.
    pub context: Map<Seq<char>, Seq<PyObject>>,
    /// The for loops that are running, from the outermost to the innermost.
    pub loops: Seq<ForLoop>,
    pub request: Option<PyObject>,
    pub autoescape: bool,
    /// The names that each of the for loops has bound.
    pub names: Seq<Set<Seq<char>>>,
    /// The templates that were rendered in place of a tag.
    pub include_cache: Map<IncludeTemplateKeyView, TemplateRef>,
    /// Which of its values each cycle gave last.
    pub cycle_indices: Map<usize, usize>,
}

/// The names that each of the for loops has bound.
pub open spec fn name_sets(names: Seq<Vec<String>>) -> Seq<Set<Seq<char>>> {
    names.map_values(|set: Vec<String>| views(set@).to_set())
}

impl View for Context {
    type V = ContextView;

    closed spec fn view(&self) -> ContextView {
        ContextView {
            context: self.context@,
            loops: self.loops@,
            request: self.request,
            autoescape: self.autoescape,
            names: name_sets(self.names@),
            include_cache: include_map(self.include_cache@),
            cycle_indices: self.cycle_indices@,
        }
    }
}

impl ContextView {
    /// Every name that a for loop has bound has had a value.
    pub open spec fn wf(self) -> bool {
        forall|i: int, name: Seq<char>|
            0 <= i < self.names.len() && #[trigger] self.names[i].contains(name)
                ==> self.context.contains_key(name)
    }

    /// Every name that was bound last has had a value.
    pub open spec fn can_pop(self) -> bool {
        self.names.len() > 0 ==> forall|name: Seq<char>| #[trigger]
            self.names.last().contains(name) ==> self.context.contains_key(name)
    }

    /// The value of a name.
    pub open spec fn lookup(self, key: Seq<char>) -> Option<PyObject> {
        if self.context.contains_key(key) && self.context[key].len() > 0 {
            Some(self.context[key].last())
        } else {
            None
        }
    }

    /// The context with another value for a name, in place of the last one or after it.
    pub open spec fn inserted(self, key: Seq<char>, value: PyObject, replace: bool) -> ContextView {
        let before = if self.context.contains_key(key) {
            self.context[key]
        } else {
            Seq::empty()
        };
        let kept = if replace && before.len() > 0 {
            before.drop_last()
        } else {
            before
        };
        ContextView { context: self.context.insert(key, kept.push(value)), ..self }
    }

    /// The context with values for names, one after the other.
    pub open spec fn inserted_all(
        self,
        keys: Seq<Seq<char>>,
        values: Seq<PyObject>,
        replace: bool,
    ) -> ContextView
        decreases keys.len(),
    {
        if keys.len() == 0 {
            self
        } else {
            self.inserted_all(keys.drop_last(), values.drop_last(), replace).inserted(
                keys.last(),
                values.last(),
                replace,
            )
        }
    }

    /// The context without the last value of a name.
    pub open spec fn popped(self, key: Seq<char>) -> ContextView {
        ContextView {
            context: self.context.insert(
                key,
                if self.context[key].len() > 0 {
                    self.context[key].drop_last()
                } else {
                    self.context[key]
                },
            ),
            ..self
        }
    }

    /// The context without the last value of each name of a set.
    pub open spec fn popped_all(self, keys: Set<Seq<char>>) -> ContextView {
        ContextView {
            context: self.context.map_entries(
                |key: Seq<char>, values: Seq<PyObject>|
                    if keys.contains(key) && values.len() > 0 {
                        values.drop_last()
                    } else {
                        values
                    },
            ),
            ..self
        }
    }

    /// The context with another value for a name, which lasts as long as the innermost for loop
    /// with names.
    pub open spec fn with_item(self, key: Seq<char>, value: PyObject) -> ContextView {
        (if self.names.len() == 0 {
            self
        } else {
            ContextView {
                names: self.names.drop_last().push(self.names.last().insert(key)),
                ..self
            }
        }).inserted(key, value, true)
    }

    /// The context with the names of one more for loop.
    pub open spec fn with_names(self, keys: Set<Seq<char>>) -> ContextView {
        ContextView { names: self.names.push(keys), ..self }
    }
}

/// What a for loop is given to bind in one turn: an object, and what iterating over it gives.
#[derive(Debug)]
pub struct LoopItem {
    pub object: PyObject,
    pub items: Result<Vec<PyObject>, IterationError>,
}

/// Why an object could not be iterated over.
#[derive(Clone, Copy, Debug, PartialEq, Eq)]
pub enum IterationError {
    /// It is not iterable: a type error was raised.
    NotIterable,
    /// Another error was raised when iteration was to start.
    NotStarted(PyObject),
    /// An error was raised while iterating.
    Interrupted(PyObject),
}

/// The error of a value with another number of items than there are names.
pub open spec fn unpack_error(expected: int, actual: int, names_at: At, values_at: At) ->
    PyRenderError<Seq<char>> {
    PyRenderError::RenderError(
        RenderError::TupleUnpackError {
            expected_count: expected as usize,
            actual_count: actual as usize,
            expected_at: names_at,
            actual_at: values_at,
        },
    )
}

/// The values for a number of names: a single name takes the object whole.
pub open spec fn unpacked(count: int, names_at: At, item: LoopItem, values_at: At) -> Result<
    Seq<PyObject>,
    PyRenderError<Seq<char>>,
> {
    if count == 1 {
        Ok(seq![item.object])
    } else {
        match item.items {
            Err(IterationError::NotIterable) => Err(unpack_error(count, 1, names_at, values_at)),
            Err(IterationError::NotStarted(error)) => Err(
                PyRenderError::Annotated {
                    error,
                    at: values_at,
                    label: "while iterating this"@,
                },
            ),
            Err(IterationError::Interrupted(error)) => Err(
                PyRenderError::Annotated {
                    error,
                    at: values_at,
                    label: "while unpacking this"@,
                },
            ),
            Ok(values) => if values@.len() == count {
                Ok(values@)
            } else {
                Err(unpack_error(count, values@.len() as int, names_at, values_at))
            },
        }
    }
}

/// The values for a number of names.
fn unpack(count: usize, names_at: At, item: &LoopItem, values_at: At) -> (r: Result<
    Vec<PyObject>,
    PyRenderError<String>,
>)
    ensures
        match r {
            Ok(values) => unpacked(count as int, names_at, *item, values_at) == Ok::<
                _,
                PyRenderError<Seq<char>>,
            >(values@) && values@.len() == count,
            Err(e) => unpacked(count as int, names_at, *item, values_at) == Err::<
                Seq<PyObject>,
                _,
            >(e@),
        },
{
    if count == 1 {
        let mut values: Vec<PyObject> = Vec::new();
        values.push(item.object);
        assert(values@ =~= seq![item.object]);
        return Ok(values);
    }
    match &item.items {
        Err(IterationError::NotIterable) => Err(
            PyRenderError::RenderError(
                RenderError::TupleUnpackError {
                    expected_count: count,
                    actual_count: 1,
                    expected_at: names_at,
                    actual_at: values_at,
                },
            ),
        ),
        Err(IterationError::NotStarted(error)) => Err(
            PyRenderError::Annotated {
                error: *error,
                at: values_at,
                label: "while iterating this".to_owned(),
            },
        ),
        Err(IterationError::Interrupted(error)) => Err(
            PyRenderError::Annotated {
                error: *error,
                at: values_at,
                label: "while unpacking this".to_owned(),
            },
        ),
        Ok(values) => {
            if values.len() == count {
                Ok(values.duplicate())
            } else {
                Err(
                    PyRenderError::RenderError(
                        RenderError::TupleUnpackError {
                            expected_count: count,
                            actual_count: values.len(),
                            expected_at: names_at,
                            actual_at: values_at,
                        },
                    ),
                )
            }
        },
    }
}

/// The texts of a list, each of them once.
fn distinct(names: &Vec<String>) -> (r: Vec<String>)
    ensures
        views(r@).to_set() == views(names@).to_set(),
        views(r@).no_duplicates(),
{
    let ghost all = views(names@);
    let mut r: Vec<String> = Vec::new();
    let mut i: usize = 0;
    assert(views(r@).to_set() =~= all.take(0).to_set());
    while i < names.len()
        invariant
            0 <= i <= names@.len(),
            all == views(names@),
            views(r@).to_set() == all.take(i as int).to_set(),
            views(r@).no_duplicates(),
        decreases names@.len() - i,
    {
        let ghost before = views(r@);
        proof {
            lemma_to_set_push(all.take(i as int), all[i as int]);
            assert(all.take(i + 1) =~= all.take(i as int).push(all[i as int]));
            lemma_to_set_push(before, all[i as int]);
        }
        if contains_text(&r, names[i].as_str()) {
            assert(before.to_set().contains(all[i as int]));
            assert(before.to_set().insert(all[i as int]) =~= before.to_set());
        } else {
            r.push(names[i].clone());
            assert(views(r@) =~= before.push(all[i as int]));
        }
        i += 1;
    }
    assert(all.take(i as int) =~= all);
    r
}

/// The names that have a value, in order.
pub open spec fn visible_names(context: ContextView) -> Seq<Seq<char>> {
    listing(context.context.dom()).filter(|key: Seq<char>| context.lookup(key) is Some)
}

/// What is written of the value of each name.
pub open spec fn represented<F: Fn(PyObject) -> String>(
    repr: F,
    context: ContextView,
    texts: Seq<String>,
) -> bool {
    &&& texts.len() == visible_names(context).len()
    &&& forall|i: int|
        0 <= i < texts.len() ==> repr.ensures(
            (context.lookup(visible_names(context)[i])->Some_0,),
            #[trigger] texts[i],
        )
}

/// What is written of a name and its value.
pub open spec fn entry_text(name: Seq<char>, text: Seq<char>) -> Seq<char> {
    quoted_text(name) + ": "@ + text
}

/// What is written of names and their values.
pub open spec fn entries_text(names: Seq<Seq<char>>, texts: Seq<String>) -> Seq<Seq<char>> {
    Seq::new(names.len(), |i: int| entry_text(names[i], texts[i]@))
}

/// What is written of a text in full, between quotes.
pub uninterp spec fn quoted_text(text: Seq<char>) -> Seq<char>;

/// Formatting a `str` by its `Debug` implementation writes it between quotes; what is escaped is
/// left unsaid.
#[verifier::external_body]
fn debug_text(text: &str) -> (r: String)
    ensures
        r@ == quoted_text(text@),
{
    format!("{:?}", text)
}

impl Context {
    /// A context with a value for each of some names.
    pub fn new(
        values: &Vec<(String, PyObject)>,
        request: Option<PyObject>,
        autoescape: bool,
    ) -> (r: Self)
        ensures
            r@.wf(),
            r@ == (ContextView {
                context: map_of(values@).map_values(|value: PyObject| seq![value]),
                loops: Seq::empty(),
                request,
                autoescape,
                names: Seq::empty(),
                include_cache: Map::empty(),
                cycle_indices: Map::empty(),
            }),
    {
        let mut context: Dict<Values> = Dict::new();
        let mut i: usize = 0;
        assert(context@ =~= map_of(values@.take(0)).map_values(|value: PyObject| seq![value]));
        while i < values.len()
            invariant
                0 <= i <= values@.len(),
                context@ == map_of(values@.take(i as int)).map_values(
                    |value: PyObject| seq![value],
                ),
            decreases values@.len() - i,
        {
            let mut stack: Values = Vec::new();
            stack.push(values[i].1);
            assert(stack@ =~= seq![values@[i as int].1]);
            assert(values@.take(i + 1).drop_last() =~= values@.take(i as int));
            context.insert(values[i].0.clone(), stack);
            assert(context@ =~= map_of(values@.take(i + 1)).map_values(
                |value: PyObject| seq![value],
            ));
            i += 1;
        }
        assert(values@.take(i as int) =~= values@);
        let r = Context {
            context,
            loops: Vec::new(),
            request,
            autoescape,
            names: Vec::new(),
            include_cache: Vec::new(),
            cycle_indices: HashMap::new(),
        };
        assert(r@.names =~= Seq::<Set<Seq<char>>>::empty());
        r
    }

    /// Whether text is escaped.
    pub fn autoescape(&self) -> (r: bool)
        ensures
            r == self@.autoescape,
    {
        self.autoescape
    }

    /// Switches escaping on or off.
    pub fn set_autoescape(&mut self, autoescape: bool)
        ensures
            final(self)@ == (ContextView { autoescape, ..old(self)@ }),
            old(self)@.wf() ==> final(self)@.wf(),
    {
        self.autoescape = autoescape;
    }

    /// The request that the template is rendered for.
    pub fn request(&self) -> (r: Option<PyObject>)
        ensures
            r == self@.request,
    {
        self.request
    }

    /// Another context with the same contents.
    pub fn clone_ref(&self) -> (r: Self)
        ensures
            r@ == self@,
    {
        let loops = self.loops.clone();
        let mut names: Vec<Vec<String>> = Vec::new();
        let mut i: usize = 0;
        assert(name_sets(names@) =~= name_sets(self.names@.take(0)));
        while i < self.names.len()
            invariant
                0 <= i <= self.names@.len(),
                name_sets(names@) == name_sets(self.names@.take(i as int)),
            decreases self.names@.len() - i,
        {
            let set = duplicate_all(&self.names[i]);
            let ghost before = names@;
            names.push(set);
            assert(name_sets(names@) =~= name_sets(before).push(views(set@).to_set()));
            assert(self.names@.take(i + 1) =~= self.names@.take(i as int).push(
                self.names@[i as int],
            ));
            assert(name_sets(self.names@.take(i + 1)) =~= name_sets(
                self.names@.take(i as int),
            ).push(views(set@).to_set()));
            i += 1;
        }
        assert(self.names@.take(i as int) =~= self.names@);
        let mut include_cache: Vec<(IncludeTemplateKey, TemplateRef)> = Vec::new();
        let mut j: usize = 0;
        while j < self.include_cache.len()
            invariant
                0 <= j <= self.include_cache@.len(),
                include_map(include_cache@) == include_map(self.include_cache@.take(j as int)),
            decreases self.include_cache@.len() - j,
        {
            let ghost before = include_cache@;
            include_cache.push((self.include_cache[j].0.duplicate(), self.include_cache[j].1));
            assert(include_cache@.drop_last() =~= before);
            assert(self.include_cache@.take(j + 1).drop_last() =~= self.include_cache@.take(
                j as int,
            ));
            j += 1;
        }
        assert(self.include_cache@.take(j as int) =~= self.include_cache@);
        let r = Context {
            context: self.context.duplicate(),
            loops,
            request: self.request,
            autoescape: self.autoescape,
            names,
            include_cache,
            cycle_indices: self.cycle_indices.clone(),
        };
        assert(r@ =~= self@);
        r
    }

    /// Takes the context, and leaves an empty one in its place.
    pub fn take(&mut self) -> (r: Self)
        ensures
            r@ == old(self)@,
            final(self)@ == empty_context(),
            final(self)@.wf(),
    {
        let mut r = Context::default();
        std::mem::swap(&mut r, self);
        r
    }

    /// The value of a name.
    pub fn get(&self, key: &str) -> (r: Option<PyObject>)
        ensures
            r == self@.lookup(key@),
    {
        match self.context.get(key) {
            Some(values) => {
                if values.len() > 0 {
                    Some(values[values.len() - 1])
                } else {
                    None
                }
            },
            None => None,
        }
    }

    /// Gives a name another value, in place of its last one or after it.
    fn insert_value(&mut self, key: String, value: PyObject, replace: bool)
        ensures
            final(self)@ == old(self)@.inserted(key@, value, replace),
            old(self)@.wf() ==> final(self)@.wf(),
    {
        let mut values: Values = match self.context.get(key.as_str()) {
            Some(values) => values.duplicate(),
            None => Vec::new(),
        };
        if replace && values.len() > 0 {
            let _ = values.pop();
        }
        values.push(value);
        self.context.insert(key, values);
    }

    /// Gives a name another value, after the ones it has.
    pub fn append(&mut self, key: String, value: PyObject)
        ensures
            final(self)@ == old(self)@.inserted(key@, value, false),
            old(self)@.wf() ==> final(self)@.wf(),
    {
        self.insert_value(key, value, false);
    }

    /// Gives a name another value, in place of its last one.
    pub fn insert(&mut self, key: String, value: PyObject)
        ensures
            final(self)@ == old(self)@.inserted(key@, value, true),
            old(self)@.wf() ==> final(self)@.wf(),
    {
        self.insert_value(key, value, true);
    }

    /// Binds the name of a for loop in its turn number `index`.
    pub fn push_variable(&mut self, name: String, value: PyObject, index: usize)
        ensures
            final(self)@ == (if index == 0 {
                old(self)@.with_names(set![name@])
            } else {
                old(self)@
            }).inserted(name@, value, index != 0),
            old(self)@.wf() ==> final(self)@.wf(),
    {
        if index == 0 {
            let mut names: Vec<String> = Vec::new();
            names.push(name.clone());
            let ghost before = self.names@;
            proof {
                assert(views(names@) =~= seq![name@]);
                assert(seq![name@].to_set() =~= set![name@]) by {
                    assert(seq![name@][0] == name@);
                }
                assert(name_sets(before.push(names)) =~= name_sets(before).push(set![name@]));
            }
            self.names.push(names);
        }
        self.insert_value(name, value, index != 0);
    }

    /// Binds the names of a for loop in its turn number `index`.
    pub fn push_variables(
        &mut self,
        names: &Vec<String>,
        names_at: At,
        values: &LoopItem,
        values_at: At,
        index: usize,
    ) -> (r: Result<(), PyRenderError<String>>)
        ensures
            ({
                let base = if index == 0 {
                    old(self)@.with_names(views(names@).to_set())
                } else {
                    old(self)@
                };
                match unpacked(names@.len() as int, names_at, *values, values_at) {
                    Ok(items) => {
                        &&& r is Ok
                        &&& final(self)@ == base.inserted_all(views(names@), items, index != 0)
                        &&& old(self)@.wf() ==> final(self)@.wf()
                    },
                    Err(e) => {
                        &&& r matches Err(error) && error@ == e
                        &&& final(self)@ == base
                    },
                }
            }),
    {
        let replace = index != 0;
        let ghost all = views(names@);
        if !replace {
            let set = distinct(names);
            let ghost before = self.names@;
            assert(name_sets(before.push(set)) =~= name_sets(before).push(all.to_set()));
            self.names.push(set);
        }
        let ghost base = self@;
        let items = unpack(names.len(), names_at, values, values_at)?;
        let mut i: usize = 0;
        assert(base.inserted_all(all.take(0), items@.take(0), replace) == base);
        while i < names.len()
            invariant
                0 <= i <= names@.len(),
                items@.len() == names@.len(),
                all == views(names@),
                self@ == base.inserted_all(
                    all.take(i as int),
                    items@.take(i as int),
                    replace,
                ),
                self@.names == base.names,
                self@.cycle_indices == base.cycle_indices,
                forall|key: Seq<char>| #[trigger]
                    base.context.contains_key(key) ==> self@.context.contains_key(key),
                forall|j: int| 0 <= j < i ==> self@.context.contains_key(#[trigger] all[j]),
            decreases names@.len() - i,
        {
            assert(all.take(i + 1).drop_last() =~= all.take(i as int));
            assert(items@.take(i + 1).drop_last() =~= items@.take(i as int));
            assert(all.take(i + 1).last() == names@[i as int]@);
            self.insert_value(names[i].clone(), items[i], replace);
            i += 1;
        }
        proof {
            assert(all.take(i as int) =~= all);
            assert(items@.take(i as int) =~= items@);
            if old(self)@.wf() {
                assert forall|j: int, name: Seq<char>|
                    0 <= j < self@.names.len() && #[trigger] self@.names[j].contains(
                        name,
                    ) implies self@.context.contains_key(name) by {
                    if j < old(self)@.names.len() {
                        assert(old(self)@.names[j].contains(name));
                        assert(base.context.contains_key(name));
                    } else {
                        assert(all.contains(name));
                        let k = choose|k: int| 0 <= k < all.len() && all[k] == name;
                        assert(self@.context.contains_key(all[k]));
                    }
                }
            }
        }
        Ok(())
    }

    /// Takes the last value of a name away.
    pub fn pop_variable(&mut self, name: &str)
        requires
            old(self)@.context.contains_key(name@),
        ensures
            final(self)@ == old(self)@.popped(name@),
            old(self)@.wf() ==> final(self)@.wf(),
    {
        let mut values: Values = match self.context.get(name) {
            Some(values) => values.duplicate(),
            None => vstd::pervasive::unreached(),
        };
        if values.len() > 0 {
            let _ = values.pop();
        }
        self.context.insert(name.to_owned(), values);
    }

    /// Whether a name has had a value.
    pub fn has_had(&self, key: &str) -> (r: bool)
        ensures
            r == self@.context.contains_key(key@),
    {
        self.context.contains_key(key)
    }

    /// Whether every name that was bound last has had a value.
    pub fn can_pop_variables(&self) -> (r: bool)
        ensures
            r == self@.can_pop(),
    {
        if self.names.len() == 0 {
            return true;
        }
        let names = &self.names[self.names.len() - 1];
        let ghost last = views(names@).to_set();
        assert(self@.names.last() == last);
        let mut i: usize = 0;
        while i < names.len()
            invariant
                0 <= i <= names@.len(),
                self@.names.len() > 0,
                self@.names.last() == last,
                last == views(names@).to_set(),
                forall|j: int| 0 <= j < i ==> self@.context.contains_key((#[trigger] names@[j])@),
            decreases names@.len() - i,
        {
            if !self.context.contains_key(names[i].as_str()) {
                assert(views(names@).contains(views(names@)[i as int]));
                assert(last.contains(names@[i as int]@));
                return false;
            }
            i += 1;
        }
        assert forall|name: Seq<char>| #[trigger] self@.names.last().contains(name) implies self@
            .context.contains_key(name) by {
            assert(views(names@).contains(name));
            let j = choose|j: int| 0 <= j < names@.len() && views(names@)[j] == name;
            assert(names@[j]@ == name);
        }
        true
    }

    /// Takes the last value of each name away that the innermost for loop with names has bound.
    pub fn pop_variables(&mut self)
        requires
            old(self)@.can_pop(),
        ensures
            old(self)@.wf() ==> final(self)@.wf(),
            final(self)@ == (if old(self)@.names.len() == 0 {
                old(self)@
            } else {
                ContextView {
                    names: old(self)@.names.drop_last(),
                    ..old(self)@.popped_all(old(self)@.names.last())
                }
            }),
    {
        let ghost start = self@;
        let ghost sets = self.names@;
        let names = match self.names.pop() {
            Some(names) => names,
            None => {
                return;
            },
        };
        let names = distinct(&names);
        proof {
            assert(name_sets(self.names@) =~= name_sets(sets).drop_last());
            assert(start.names.last() == views(names@).to_set());
        }
        let ghost all = views(names@);
        let ghost base = self@;
        let mut i: usize = 0;
        assert(all.take(0).to_set() =~= Set::<Seq<char>>::empty());
        assert(base.popped_all(all.take(0).to_set()).context =~= base.context);
        proof {
            assert forall|name: Seq<char>| all.contains(name) implies #[trigger]
                base.context.contains_key(name) by {
                assert(start.names[start.names.len() - 1].contains(name));
            }
        }
        while i < names.len()
            invariant
                0 <= i <= names@.len(),
                all == views(names@),
                all.no_duplicates(),
                self@ == base.popped_all(all.take(i as int).to_set()),
                forall|name: Seq<char>|
                    all.contains(name) ==> #[trigger] base.context.contains_key(name),
            decreases names@.len() - i,
        {
            proof {
                let name = all[i as int];
                assert(all.contains(name));
                assert(base.context.contains_key(name));
                lemma_to_set_push(all.take(i as int), name);
                assert(all.take(i + 1) =~= all.take(i as int).push(name));
                if all.take(i as int).contains(name) {
                    let j = choose|j: int| 0 <= j < i && #[trigger] all.take(i as int)[j] == name;
                    assert(all[j] == all[i as int]);
                }
                assert(!all.take(i as int).to_set().contains(name));
                assert(names@[i as int]@ == name);
            }
            let ghost previous = self@;
            self.pop_variable(names[i].as_str());
            assert(self@.context =~= base.popped_all(all.take(i + 1).to_set()).context);
            i += 1;
        }
        assert(all.take(i as int) =~= all);
    }

    /// Starts a for loop over some items.
    pub fn push_for_loop(&mut self, len: usize)
        ensures
            final(self)@.loops.len() == old(self)@.loops.len() + 1,
            final(self)@.loops.last().done() == 0,
            final(self)@.loops.last().length() == len,
            final(self)@ == (ContextView {
                loops: old(self)@.loops.push(final(self)@.loops.last()),
                ..old(self)@
            }),
            old(self)@.wf() ==> final(self)@.wf(),
    {
        self.loops.push(ForLoop::new(len));
    }

    /// Tells the innermost for loop that one more item is done.
    pub fn increment_for_loop(&mut self)
        requires
            old(self)@.loops.len() > 0,
            old(self)@.loops.last().done() < usize::MAX,
        ensures
            final(self)@.loops.len() == old(self)@.loops.len(),
            final(self)@.loops.last().done() == old(self)@.loops.last().done() + 1,
            final(self)@.loops.last().length() == old(self)@.loops.last().length(),
            final(self)@ == (ContextView {
                loops: old(self)@.loops.drop_last().push(final(self)@.loops.last()),
                ..old(self)@
            }),
            old(self)@.wf() ==> final(self)@.wf(),
    {
        let ghost before = self.loops@;
        let index = self.loops.len() - 1;
        let for_loop = self.loops[index].next();
        self.loops.set(index, for_loop);
        assert(self.loops@ =~= before.drop_last().push(for_loop));
    }

    /// Ends the innermost for loop.
    pub fn pop_for_loop(&mut self)
        requires
            old(self)@.loops.len() > 0,
        ensures
            final(self)@ == (ContextView { loops: old(self)@.loops.drop_last(), ..old(self)@ }),
            old(self)@.wf() ==> final(self)@.wf(),
    {
        let _ = self.loops.pop();
    }

    /// The for loop that `depth` loops lie within, counted from the innermost one.
    pub fn get_for_loop(&self, depth: usize) -> (r: Option<ForLoop>)
        requires
            depth < usize::MAX,
        ensures
            r == (if depth < self@.loops.len() {
                Some(self@.loops[self@.loops.len() - depth - 1])
            } else {
                None
            }),
    {
        let len = self.loops.len();
        if depth < len {
            Some(self.loops[len - depth - 1])
        } else {
            None
        }
    }

    /// What is written of the for loops, all but the outermost `depth` ones: of the outermost of
    /// them, with the others as its `parentloop`.
    pub fn render_for_loop(&self, depth: usize) -> (r: String)
        requires
            depth <= self@.loops.len(),
            forall|i: int|
                depth <= i < self@.loops.len() ==> (#[trigger] self@.loops[i]).done()
                    < self@.loops[i].length(),
        ensures
            r@ == loops_text(self@.loops.skip(depth as int)),
    {
        let ghost loops = self@.loops;
        let mut text = "{}".to_owned();
        let mut i: usize = self.loops.len();
        assert(loops.skip(i as int) =~= Seq::empty());
        while i > depth
            invariant
                depth <= i <= self.loops@.len(),
                loops == self.loops@,
                forall|j: int|
                    depth <= j < loops.len() ==> (#[trigger] loops[j]).done() < loops[j].length(),
                text@ == loops_text(loops.skip(i as int)),
            decreases i,
        {
            i -= 1;
            assert(loops.skip(i as int)[0] == loops[i as int]);
            assert(loops.skip(i as int).drop_first() =~= loops.skip(i + 1));
            assert(loops[i as int].done() < loops[i as int].length());
            text = self.loops[i].describe(text.as_str());
        }
        text
    }

    /// The template that is found by a key, found anew if it has not been found before.
    pub fn get_or_insert_include<F: FnOnce(&IncludeTemplateKey) -> Result<TemplateRef, PyObject>>(
        &mut self,
        key: &IncludeTemplateKey,
        load: F,
    ) -> (r: Result<TemplateRef, PyObject>)
        requires
            load.requires((key,)),
        ensures
            if old(self)@.include_cache.contains_key(key@) {
                &&& r == Ok::<_, PyObject>(old(self)@.include_cache[key@])
                &&& final(self)@ == old(self)@
            } else {
                &&& load.ensures((key,), r)
                &&& final(self)@ == (match r {
                    Ok(template) => ContextView {
                        include_cache: old(self)@.include_cache.insert(key@, template),
                        ..old(self)@
                    },
                    Err(_) => old(self)@,
                })
            },
            old(self)@.wf() ==> final(self)@.wf(),
    {
        let mut i: usize = self.include_cache.len();
        assert(self.include_cache@.take(i as int) =~= self.include_cache@);
        while i > 0
            invariant
                0 <= i <= self.include_cache@.len(),
                self@ == old(self)@,
                include_map(self.include_cache@).contains_key(key@) == include_map(
                    self.include_cache@.take(i as int),
                ).contains_key(key@),
                include_map(self.include_cache@)[key@] == include_map(
                    self.include_cache@.take(i as int),
                )[key@],
            decreases i,
        {
            let ghost part = self.include_cache@.take(i as int);
            assert(part.drop_last() =~= self.include_cache@.take(i - 1));
            i -= 1;
            assert(part.last() == self.include_cache@[i as int]);
            if self.include_cache[i].0.same(key) {
                return Ok(self.include_cache[i].1);
            }
        }
        match load(key) {
            Ok(template) => {
                let ghost before = self.include_cache@;
                self.include_cache.push((key.duplicate(), template));
                assert(self.include_cache@.drop_last() =~= before);
                Ok(template)
            },
            Err(e) => Err(e),
        }
    }

    /// Which of its values a cycle gives next, out of a number of them.
    pub fn next_cycle_index(&mut self, id: CycleId, length: usize) -> (r: usize)
        requires
            old(self)@.cycle_indices.contains_key(id.0) ==> length > 0,
        ensures
            r == next_index(old(self)@.cycle_indices, id, length),
            final(self)@ == (ContextView {
                cycle_indices: old(self)@.cycle_indices.insert(id.0, r),
                ..old(self)@
            }),
            old(self)@.wf() ==> final(self)@.wf(),
    {
        let index = match self.cycle_indices.get(&id.0) {
            Some(index) => {
                proof {
                    let m = length as int;
                    vstd::arithmetic::div_mod::lemma_add_mod_noop(*index as int, 1, m);
                    vstd::arithmetic::div_mod::lemma_add_mod_noop(*index as int % m, 1, m);
                    vstd::arithmetic::div_mod::lemma_mod_twice(*index as int, m);
                    vstd::arithmetic::div_mod::lemma_mod_bound(*index as int, m);
                }
                (*index % length + 1) % length
            },
            None => 0,
        };
        self.cycle_indices.insert(id.0, index);
        index
    }

    /// The names that have a value, in order, and their values.
    pub fn visible(&self) -> (r: Vec<(String, PyObject)>)
        ensures
            ({
                let keys = visible_names(self@);
                &&& r@.len() == keys.len()
                &&& forall|i: int|
                    0 <= i < r@.len() ==> (#[trigger] r@[i]).0@ == keys[i] && Some(r@[i].1)
                        == self@.lookup(keys[i])
            }),
    {
        let keys = sort_texts(&self.context.keys());
        let ghost all = views(keys@);
        let ghost shown = |key: Seq<char>| self@.lookup(key) is Some;
        let mut r: Vec<(String, PyObject)> = Vec::new();
        let mut i: usize = 0;
        proof {
            reveal(Seq::filter);
        }
        while i < keys.len()
            invariant
                0 <= i <= keys@.len(),
                all == views(keys@),
                shown == (|key: Seq<char>| self@.lookup(key) is Some),
                r@.len() == all.take(i as int).filter(shown).len(),
                forall|j: int|
                    0 <= j < r@.len() ==> (#[trigger] r@[j]).0@ == all.take(i as int).filter(
                        shown,
                    )[j] && Some(r@[j].1) == self@.lookup(r@[j].0@),
            decreases keys@.len() - i,
        {
            proof {
                reveal(Seq::filter);
                assert(all.take(i + 1).drop_last() =~= all.take(i as int));
                assert(all.take(i + 1).last() == keys@[i as int]@);
            }
            if let Some(value) = self.get(keys[i].as_str()) {
                r.push((keys[i].clone(), value));
            }
            i += 1;
        }
        assert(all.take(i as int) =~= all);
        r
    }

    /// What is written of the names that have a value. `repr` tells what is written of a value.
    pub fn display<F: Fn(PyObject) -> String>(&self, repr: F) -> (r: String)
        requires
            forall|object: PyObject| #[trigger] repr.requires((object,)),
        ensures
            exists|texts: Vec<String>|
                {
                    &&& #[trigger] represented(repr, self@, texts@)
                    &&& r@ == "{"@ + joined_by(entries_text(visible_names(self@), texts@), ", "@)
                        + "}"@
                },
    {
        let visible = self.visible();
        let ghost names = visible_names(self@);
        let mut texts: Vec<String> = Vec::new();
        let mut entries: Vec<String> = Vec::new();
        let mut i: usize = 0;
        while i < visible.len()
            invariant
                0 <= i <= visible@.len(),
                names == visible_names(self@),
                visible@.len() == names.len(),
                forall|j: int|
                    0 <= j < visible@.len() ==> (#[trigger] visible@[j]).0@ == names[j] && Some(
                        visible@[j].1,
                    ) == self@.lookup(names[j]),
                forall|object: PyObject| #[trigger] repr.requires((object,)),
                texts@.len() == i,
                entries@.len() == i,
                forall|j: int|
                    0 <= j < i ==> repr.ensures(
                        (self@.lookup(names[j])->Some_0,),
                        #[trigger] texts@[j],
                    ),
                forall|j: int|
                    0 <= j < i ==> (#[trigger] entries@[j])@ == entry_text(names[j], texts@[j]@),
            decreases visible@.len() - i,
        {
            let text = repr(visible[i].1);
            let mut entry = debug_text(visible[i].0.as_str());
            entry.append(": ");
            entry.append(text.as_str());
            texts.push(text);
            entries.push(entry);
            i += 1;
        }
        assert(views(entries@) =~= entries_text(names, texts@));
        assert(represented(repr, self@, texts@));
        let mut display = "{".to_owned();
        display.append(join(&entries, ", ").as_str());
        display.append("}");
        display
    }

    /// The value of a name, or else the name.
    pub fn get_item(&self, key: String) -> (r: Result<PyObject, String>)
        ensures
            match r {
                Ok(value) => self@.lookup(key@) == Some(value),
                Err(name) => self@.lookup(key@) is None && name == key,
            },
    {
        match self.get(key.as_str()) {
            Some(value) => Ok(value),
            None => Err(key),
        }
    }

    /// Whether a name has a value.
    pub fn contains(&self, key: &str) -> (r: bool)
        ensures
            r == self@.lookup(key@) is Some,
    {
        self.get(key).is_some()
    }

    /// Gives a name another value, which lasts as long as the innermost for loop with names.
    pub fn set_item(&mut self, key: String, value: PyObject)
        ensures
            old(self)@.wf() ==> final(self)@.wf(),
            final(self)@ == old(self)@.with_item(key@, value),
            final(self)@ == (if old(self)@.names.len() == 0 {
                old(self)@
            } else {
                ContextView {
                    names: old(self)@.names.drop_last().push(
                        old(self)@.names.last().insert(key@),
                    ),
                    ..old(self)@
                }
            }).inserted(key@, value, true),
    {
        let ghost sets = self.names@;
        if let Some(mut last) = self.names.pop() {
            let ghost before = views(last@);
            last.push(key.clone());
            proof {
                lemma_to_set_push(before, key@);
                assert(views(last@) =~= before.push(key@));
                assert(name_sets(self.names@.push(last)) =~= name_sets(sets).drop_last().push(
                    name_sets(sets).last().insert(key@),
                ));
            }
            self.names.push(last);
        }
        self.insert_value(key, value, true);
    }
}

/// A context without contents.
pub open spec fn empty_context() -> ContextView {
    ContextView {
        context: Map::empty(),
        loops: Seq::empty(),
        request: None,
        autoescape: false,
        names: Seq::empty(),
        include_cache: Map::empty(),
        cycle_indices: Map::empty(),
    }
}

impl Default for Context {
    fn default() -> (r: Self)
        ensures
            r@ == empty_context(),
    {
        let r = Context {
            context: Dict::new(),
            loops: Vec::new(),
            request: None,
            autoescape: false,
            names: Vec::new(),
            include_cache: Vec::new(),
            cycle_indices: HashMap::new(),
        };
        assert(r@.names =~= Seq::<Set<Seq<char>>>::empty());
        r
    }
}

/// Which of its values a cycle gives next: the first one, and after that the next one, round and
/// round.
pub open spec fn next_index(indices: Map<usize, usize>, id: CycleId, length: usize) -> usize {
    if indices.contains_key(id.0) {
        ((indices[id.0] + 1) % length as int) as usize
    } else {
        0
    }
}

/// The index that a cycle of a length gives in its turn number `turn`, counted from zero.
pub open spec fn index_in_turn(id: CycleId, length: usize, turn: nat) -> usize
    decreases turn,
{
    if turn == 0 {
        next_index(Map::empty(), id, length)
    } else {
        let before = index_in_turn(id, length, (turn - 1) as nat);
        next_index(Map::empty().insert(id.0, before), id, length)
    }
}

/// A cycle gives its values in their order and starts over after the last one.
pub proof fn law_cycle_goes_round(id: CycleId, length: usize, turn: nat)
    requires
        length > 0,
    ensures
        index_in_turn(id, length, turn) == turn % length as nat,
    decreases turn,
{
    if turn == 0 {
        assert(0nat % length as nat == 0) by (nonlinear_arith)
            requires
                length > 0,
        ;
    } else {
        law_cycle_goes_round(id, length, (turn - 1) as nat);
        let m = length as int;
        let k = turn - 1;
        vstd::arithmetic::div_mod::lemma_add_mod_noop(k, 1, m);
        vstd::arithmetic::div_mod::lemma_add_mod_noop(k % m, 1, m);
        vstd::arithmetic::div_mod::lemma_mod_twice(k, m);
    }
}

/// A cycle does not stir another one.
pub proof fn law_cycles_do_not_interfere(
    indices: Map<usize, usize>,
    id: CycleId,
    length: usize,
    other: CycleId,
    other_length: usize,
)
    requires
        id != other,
    ensures
        next_index(
            indices.insert(id.0, next_index(indices, id, length)),
            other,
            other_length,
        ) == next_index(indices, other, other_length),
{
}

/// Every name has the same value in two contexts.
pub open spec fn same_values(a: ContextView, b: ContextView) -> bool {
    forall|key: Seq<char>| #[trigger] a.lookup(key) == b.lookup(key)
}

/// Every name has the same values in two contexts, or none in either.
pub open spec fn same_stacks(a: ContextView, b: ContextView) -> bool {
    forall|key: Seq<char>| #[trigger] a.stack(key) == b.stack(key)
}

impl ContextView {
    /// The values of a name.
    pub open spec fn stack(self, key: Seq<char>) -> Seq<PyObject> {
        if self.context.contains_key(key) {
            self.context[key]
        } else {
            Seq::empty()
        }
    }
}

/// Taking a value away undoes its having been added.
pub proof fn law_pop_undoes_append(context: ContextView, key: Seq<char>, value: PyObject)
    ensures
        same_stacks(context.inserted(key, value, false).popped(key), context),
        same_values(context.inserted(key, value, false).popped(key), context),
{
    let after = context.inserted(key, value, false).popped(key);
    assert forall|k: Seq<char>| #[trigger] after.stack(k) == context.stack(k) by {
        assert(context.stack(key).push(value).drop_last() =~= context.stack(key));
    }
    lemma_stacks_determine_values(after, context);
}

proof fn lemma_stacks_determine_values(a: ContextView, b: ContextView)
    requires
        same_stacks(a, b),
    ensures
        same_values(a, b),
{
    assert forall|k: Seq<char>| #[trigger] a.lookup(k) == b.lookup(k) by {
        assert(a.stack(k) == b.stack(k));
    }
}

/// The context after a for loop has bound its names in some turns.
pub open spec fn bound_in_turns(
    context: ContextView,
    names: Seq<Seq<char>>,
    turns: Seq<Seq<PyObject>>,
) -> ContextView
    decreases turns.len(),
{
    if turns.len() == 0 {
        context
    } else if turns.len() == 1 {
        context.with_names(names.to_set()).inserted_all(names, turns[0], false)
    } else {
        bound_in_turns(context, names, turns.drop_last()).inserted_all(names, turns.last(), true)
    }
}

/// The context after a for loop has ended.
pub open spec fn unbound(context: ContextView) -> ContextView {
    if context.names.len() == 0 {
        context
    } else {
        ContextView {
            names: context.names.drop_last(),
            ..context.popped_all(context.names.last())
        }
    }
}

/// Binding different names adds a value to each of them, and to no other.
pub proof fn lemma_first_turn(
    context: ContextView,
    names: Seq<Seq<char>>,
    values: Seq<PyObject>,
    key: Seq<char>,
)
    requires
        names.no_duplicates(),
        names.len() == values.len(),
    ensures
        ({
            let after = context.inserted_all(names, values, false);
            &&& after.names == context.names
            &&& names.contains(key) ==> after.stack(key).len() == context.stack(key).len() + 1
                && after.stack(key).drop_last() == context.stack(key)
            &&& !names.contains(key) ==> after.stack(key) == context.stack(key)
        }),
    decreases names.len(),
{
    if names.len() > 0 {
        let before = names.drop_last();
        lemma_first_turn(context, before, values.drop_last(), key);
        let middle = context.inserted_all(before, values.drop_last(), false);
        assert(before.no_duplicates());
        if names.last() == key {
            if before.contains(key) {
                let j = choose|j: int| 0 <= j < before.len() && before[j] == key;
                assert(names[j] == names[names.len() - 1]);
            }
            assert(names[names.len() - 1] == key);
            assert(middle.stack(key).push(values.last()).drop_last() =~= middle.stack(key));
        } else {
            if names.contains(key) {
                let j = choose|j: int| 0 <= j < names.len() && names[j] == key;
                assert(before[j] == key);
            }
            if before.contains(key) {
                let j = choose|j: int| 0 <= j < before.len() && before[j] == key;
                assert(names[j] == key);
            }
        }
    }
}

/// Binding names again replaces the last value of each of them, and of no other.
pub proof fn lemma_later_turn(
    context: ContextView,
    names: Seq<Seq<char>>,
    values: Seq<PyObject>,
    key: Seq<char>,
)
    requires
        names.len() == values.len(),
        names.contains(key) ==> context.stack(key).len() > 0,
    ensures
        ({
            let after = context.inserted_all(names, values, true);
            &&& after.names == context.names
            &&& after.stack(key).len() == context.stack(key).len()
            &&& names.contains(key) ==> after.stack(key).drop_last() == context.stack(
                key,
            ).drop_last()
            &&& !names.contains(key) ==> after.stack(key) == context.stack(key)
        }),
    decreases names.len(),
{
    if names.len() > 0 {
        let before = names.drop_last();
        if before.contains(key) {
            let j = choose|j: int| 0 <= j < before.len() && before[j] == key;
            assert(names[j] == key);
        }
        lemma_later_turn(context, before, values.drop_last(), key);
        let middle = context.inserted_all(before, values.drop_last(), true);
        if names.last() == key {
            assert(names[names.len() - 1] == key);
            let kept = middle.stack(key).drop_last();
            assert(kept.push(values.last()).drop_last() =~= kept);
        } else {
            if names.contains(key) {
                let j = choose|j: int| 0 <= j < names.len() && names[j] == key;
                assert(before[j] == key);
            }
        }
    }
}

proof fn lemma_bound_in_turns(
    context: ContextView,
    names: Seq<Seq<char>>,
    turns: Seq<Seq<PyObject>>,
    key: Seq<char>,
)
    requires
        names.no_duplicates(),
        turns.len() > 0,
        forall|i: int| 0 <= i < turns.len() ==> (#[trigger] turns[i]).len() == names.len(),
    ensures
        ({
            let after = bound_in_turns(context, names, turns);
            &&& after.names == context.names.push(names.to_set())
            &&& names.contains(key) ==> after.stack(key).len() > 0 && after.stack(key).drop_last()
                == context.stack(key)
            &&& !names.contains(key) ==> after.stack(key) == context.stack(key)
        }),
    decreases turns.len(),
{
    if turns.len() == 1 {
        let named = context.with_names(names.to_set());
        lemma_first_turn(named, names, turns[0], key);
        assert(named.stack(key) == context.stack(key));
    } else {
        lemma_bound_in_turns(context, names, turns.drop_last(), key);
        lemma_later_turn(
            bound_in_turns(context, names, turns.drop_last()),
            names,
            turns.last(),
            key,
        );
    }
}

proof fn lemma_inserting_keeps_loops(
    context: ContextView,
    names: Seq<Seq<char>>,
    values: Seq<PyObject>,
    replace: bool,
)
    ensures
        context.inserted_all(names, values, replace).loops == context.loops,
    decreases names.len(),
{
    if names.len() > 0 {
        lemma_inserting_keeps_loops(context, names.drop_last(), values.drop_last(), replace);
    }
}

/// Binding names keeps the loops.
pub proof fn lemma_binding_keeps_loops(
    context: ContextView,
    names: Seq<Seq<char>>,
    turns: Seq<Seq<PyObject>>,
)
    ensures
        bound_in_turns(context, names, turns).loops == context.loops,
    decreases turns.len(),
{
    if turns.len() == 1 {
        lemma_inserting_keeps_loops(
            context.with_names(names.to_set()),
            names,
            turns[0],
            false,
        );
    } else if turns.len() > 1 {
        lemma_binding_keeps_loops(context, names, turns.drop_last());
        lemma_inserting_keeps_loops(
            bound_in_turns(context, names, turns.drop_last()),
            names,
            turns.last(),
            true,
        );
    }
}

/// A for loop that has bound different names in one turn or more leaves every name with the values
/// that it had before.
pub proof fn law_for_loop_restores_names(
    context: ContextView,
    names: Seq<Seq<char>>,
    turns: Seq<Seq<PyObject>>,
)
    requires
        names.no_duplicates(),
        turns.len() > 0,
        forall|i: int| 0 <= i < turns.len() ==> (#[trigger] turns[i]).len() == names.len(),
    ensures
        unbound(bound_in_turns(context, names, turns)).names == context.names,
        same_stacks(unbound(bound_in_turns(context, names, turns)), context),
        same_values(unbound(bound_in_turns(context, names, turns)), context),
{
    let bound = bound_in_turns(context, names, turns);
    let after = unbound(bound);
    lemma_bound_in_turns(context, names, turns, Seq::empty());
    assert(after.names =~= context.names);
    assert forall|key: Seq<char>| #[trigger] after.stack(key) == context.stack(key) by {
        lemma_bound_in_turns(context, names, turns, key);
        assert(names.to_set().contains(key) == names.contains(key));
        assert(bound.names.last() == names.to_set());
    }
    lemma_stacks_determine_values(after, context);
}

/// What is set for a name is read under this name from then on, and no other name is touched.
pub proof fn law_what_is_set_is_read(
    context: ContextView,
    key: Seq<char>,
    value: PyObject,
    replace: bool,
    other: Seq<char>,
)
    ensures
        context.inserted(key, value, replace).lookup(key) == Some(value),
        other != key ==> context.inserted(key, value, replace).lookup(other) == context.lookup(
            other,
        ),
        replace ==> context.inserted(key, value, replace).popped(key).lookup(key) == (
        if context.stack(key).len() > 1 {
            Some(context.stack(key)[context.stack(key).len() - 2])
        } else {
            None
        }),
        !replace ==> context.inserted(key, value, replace).popped(key).lookup(key)
            == context.lookup(key),
{
}

/// Names are bound to the values that stand at the same places, and a name that comes twice to the
/// last one of them.
pub proof fn law_names_are_bound_to_their_values(
    context: ContextView,
    names: Seq<Seq<char>>,
    values: Seq<PyObject>,
    replace: bool,
    i: int,
)
    requires
        names.len() == values.len(),
        0 <= i < names.len(),
        forall|j: int| i < j < names.len() ==> #[trigger] names[j] != names[i],
    ensures
        context.inserted_all(names, values, replace).lookup(names[i]) == Some(values[i]),
    decreases names.len(),
{
    if i < names.len() - 1 {
        assert(names[names.len() - 1] != names[i]);
        assert(names.drop_last()[i] == names[i] && values.drop_last()[i] == values[i]);
        assert forall|j: int| i < j < names.drop_last().len() implies #[trigger] names.drop_last()[j]
            != names.drop_last()[i] by {
            assert(names[j] != names[i]);
        }
        law_names_are_bound_to_their_values(
            context,
            names.drop_last(),
            values.drop_last(),
            replace,
            i,
        );
    }
}

/// A single name takes an item whole; two or more names, or none, take what is in it, where this is
/// just as much.
pub proof fn law_items_are_unpacked(count: int, names_at: At, item: LoopItem, values_at: At)
    requires
        0 <= count <= usize::MAX,
    ensures
        unpacked(count, names_at, item, values_at) is Ok <==> count == 1 || (item.items is Ok
            && item.items->Ok_0@.len() == count),
        match unpacked(count, names_at, item, values_at) {
            Ok(values) => {
                &&& values.len() == count
                &&& forall|i: int|
                    0 <= i < count ==> #[trigger] values[i] == if count == 1 {
                        item.object
                    } else {
                        item.items->Ok_0@[i]
                    }
            },
            Err(
                PyRenderError::RenderError(
                    RenderError::TupleUnpackError {
                        expected_count,
                        actual_count,
                        expected_at,
                        actual_at,
                    },
                ),
            ) => {
                &&& expected_count == count
                &&& expected_at == names_at
                &&& actual_at == values_at
                &&& match item.items {
                    Ok(values) => actual_count == values@.len() && actual_count != expected_count,
                    Err(e) => e is NotIterable && actual_count == 1,
                }
            },
            Err(PyRenderError::Annotated { error, at, label }) => {
                &&& at == values_at
                &&& match item.items {
                    Err(IterationError::NotStarted(raised)) => raised == error && label
                        == "while iterating this"@,
                    Err(IterationError::Interrupted(raised)) => raised == error && label
                        == "while unpacking this"@,
                    _ => false,
                }
            },
            Err(_) => false,
        },
{
    if let Ok(values) = item.items {
        assert(values@.len() == values.len());
    }
}

/// A name has a value just if one is read for it, whichever way it is asked for.
pub proof fn law_reading_agrees(
    context: Context,
    key: &str,
    name: String,
    value: Option<PyObject>,
    is_there: bool,
    item: Result<PyObject, String>,
)
    requires
        name@ == key@,
        call_ensures(Context::get, (&context, key), value),
        call_ensures(Context::contains, (&context, key), is_there),
        call_ensures(Context::get_item, (&context, name), item),
    ensures
        value == context@.lookup(key@),
        is_there <==> value is Some,
        item is Ok <==> is_there,
        item matches Ok(object) ==> value == Some(object),
        item matches Err(missing) ==> missing@ == key@,
{
}

/// The innermost for loop is at no depth, and each one around it one deeper; there is none beyond
/// the outermost.
pub proof fn law_loops_are_counted_from_within(
    context: Context,
    depth: usize,
    for_loop: Option<ForLoop>,
    around: Option<ForLoop>,
)
    requires
        depth + 1 < usize::MAX,
        call_ensures(Context::get_for_loop, (&context, depth), for_loop),
        call_ensures(Context::get_for_loop, (&context, (depth + 1) as usize), around),
    ensures
        depth == 0 && context@.loops.len() > 0 ==> for_loop == Some(context@.loops.last()),
        for_loop is Some <==> depth < context@.loops.len(),
        around is Some ==> exists|i: int|
            {
                &&& 0 <= i < context@.loops.len() - 1
                &&& around == Some(#[trigger] context@.loops[i])
                &&& for_loop == Some(context@.loops[i + 1])
            },
{
    if around is Some {
        let i = context@.loops.len() - depth - 2;
        assert(around == Some(context@.loops[i]));
        assert(for_loop == Some(context@.loops[i + 1]));
    }
}

/// A context begins with the values that it is given, each under its name, outside of every loop.
pub proof fn law_contexts_begin_with_their_values(
    values: &Vec<(String, PyObject)>,
    request: Option<PyObject>,
    autoescape: bool,
    context: Context,
    name: Seq<char>,
)
    requires
        call_ensures(Context::new, (values, request, autoescape), context),
    ensures
        context@.lookup(name) == (if map_of(values@).contains_key(name) {
            Some(map_of(values@)[name])
        } else {
            None
        }),
        context@.autoescape == autoescape,
        context@.request == request,
        context@.loops.len() == 0,
        context@.names.len() == 0,
{
    if map_of(values@).contains_key(name) {
        assert(context@.context[name] == seq![map_of(values@)[name]]);
    }
}

/// An item that is set is read under its name, and takes the place of the one before. It is gone
/// once the innermost for loop with names has ended; without one it stays.
pub proof fn law_items_last_as_long_as_the_loop(
    context: ContextView,
    key: Seq<char>,
    value: PyObject,
    other: Seq<char>,
)
    ensures
        ({
            let after = context.with_item(key, value);
            &&& after.lookup(key) == Some(value)
            &&& other != key ==> after.lookup(other) == context.lookup(other)
            &&& after.names.len() == context.names.len()
            &&& after.loops == context.loops
            &&& context.names.len() > 0 ==> {
                &&& unbound(after).stack(key) == (if context.stack(key).len() > 0 {
                    context.stack(key).drop_last()
                } else {
                    context.stack(key)
                })
                &&& other != key && !context.names.last().contains(other) ==> unbound(after).stack(
                    other,
                ) == context.stack(other)
            }
            &&& context.names.len() == 0 ==> unbound(after).lookup(key) == Some(value)
        }),
{
    let after = context.with_item(key, value);
    if context.names.len() > 0 {
        assert(after.names.last() == context.names.last().insert(key));
        let before = context.stack(key);
        let kept = if before.len() > 0 {
            before.drop_last()
        } else {
            before
        };
        assert(after.stack(key) == kept.push(value));
        assert(kept.push(value).drop_last() =~= kept);
    }
}

/// The names that are visible are those that have a value, in order.
pub proof fn law_visible_names_have_values(
    context: ContextView,
    names: Seq<Seq<char>>,
    name: Seq<char>,
)
    requires
        is_listing(names, context.context.dom()),
    ensures
        visible_names(context).contains(name) <==> context.lookup(name) is Some,
        forall|i: int, j: int|
            0 <= i < j < visible_names(context).len() ==> text_less(
                #[trigger] visible_names(context)[i],
                #[trigger] visible_names(context)[j],
            ),
{
    let all = listing(context.context.dom());
    law_listing_is_unique(names, all, context.context.dom());
    let shown = |key: Seq<char>| context.lookup(key) is Some;
    lemma_filtered_texts_stay_in_order(all, shown);
    assert(visible_names(context) == all.filter(shown));
    if context.lookup(name) is Some {
        assert(context.context.dom().contains(name));
        assert(all.to_set().contains(name));
    }
}

} // verus!
