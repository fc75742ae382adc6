//! Tags and filters that libraries define.
use vstd::prelude::*;
use vstd::string::*;
use crate::dict::{contains_text, duplicate_all, views, Dict, Duplicate};
use crate::lexer::tokens::LoadToken;
use crate::listing::{listing, sort_texts};
use crate::parse::errors::{py_result_view, ParseError, PyParseError, Unsupported};
use crate::text::{is_span, span, str_eq, At, TemplateString};
use crate::types::PyObject;
use crate::words::{join, joined_by};

verus! {

/// How the function behind a tag is called.
#[derive(Debug)]
pub struct SimpleTagContext {
    pub func: PyObject,
    pub function_name: String,
    pub takes_context: bool,
    pub params: Vec<String>,
    pub defaults_count: usize,
    pub varargs: bool,
    pub kwonly: Vec<String>,
    pub kwonly_defaults: Vec<String>,
    pub varkw: bool,
}

pub struct SimpleTagContextView {
    pub func: PyObject,
    pub function_name: Seq<char>,
    pub takes_context: bool,
    pub params: Seq<Seq<char>>,
    pub defaults_count: usize,
    pub varargs: bool,
    pub kwonly: Seq<Seq<char>>,
    pub kwonly_defaults: Seq<Seq<char>>,
    pub varkw: bool,
}

impl View for SimpleTagContext {
    type V = SimpleTagContextView;

    open spec fn view(&self) -> SimpleTagContextView {
        SimpleTagContextView {
            func: self.func,
            function_name: self.function_name@,
            takes_context: self.takes_context,
            params: views(self.params@),
            defaults_count: self.defaults_count,
            varargs: self.varargs,
            kwonly: views(self.kwonly@),
            kwonly_defaults: views(self.kwonly_defaults@),
            varkw: self.varkw,
        }
    }
}

impl Duplicate for SimpleTagContext {
    fn duplicate(&self) -> (r: Self) {
        SimpleTagContext {
            func: self.func,
            function_name: self.function_name.clone(),
            takes_context: self.takes_context,
            params: duplicate_all(&self.params),
            defaults_count: self.defaults_count,
            varargs: self.varargs,
            kwonly: duplicate_all(&self.kwonly),
            kwonly_defaults: duplicate_all(&self.kwonly_defaults),
            varkw: self.varkw,
        }
    }
}

/// What a tag of a library is.
#[derive(Debug)]
pub enum TagContext {
    Simple(SimpleTagContext),
    SimpleBlock { end_tag_name: String, context: SimpleTagContext },
    EndSimpleBlock,
}

pub enum TagContextView {
    Simple(SimpleTagContextView),
    SimpleBlock { end_tag_name: Seq<char>, context: SimpleTagContextView },
    EndSimpleBlock,
}

impl View for TagContext {
    type V = TagContextView;

    open spec fn view(&self) -> TagContextView {
        match *self {
            TagContext::Simple(context) => TagContextView::Simple(context@),
            TagContext::SimpleBlock { end_tag_name, context } => TagContextView::SimpleBlock {
                end_tag_name: end_tag_name@,
                context: context@,
            },
            TagContext::EndSimpleBlock => TagContextView::EndSimpleBlock,
        }
    }
}

impl Duplicate for TagContext {
    fn duplicate(&self) -> (r: Self) {
        match self {
            TagContext::Simple(context) => TagContext::Simple(context.duplicate()),
            TagContext::SimpleBlock { end_tag_name, context } => TagContext::SimpleBlock {
                end_tag_name: end_tag_name.clone(),
                context: context.duplicate(),
            },
            TagContext::EndSimpleBlock => TagContext::EndSimpleBlock,
        }
    }
}

/// A value that the function behind a tag holds, with the outcome of each way to read it.
#[derive(Debug)]
pub struct ClosureValue {
    pub object: PyObject,
    pub is_none: bool,
    pub is_truthy: Result<bool, PyObject>,
    pub length: Result<usize, PyObject>,
    /// Its value as a string.
    pub text: Result<String, PyObject>,
    /// Its value as a list of strings.
    pub texts: Result<Vec<String>, PyObject>,
    /// The strings that iterating over it gives.
    pub items: Result<Vec<String>, PyObject>,
}

/// The names and the values that the function behind a tag holds.
#[derive(Debug)]
pub struct Closure {
    pub names: Result<Vec<String>, PyObject>,
    pub values: Result<Vec<ClosureValue>, PyObject>,
}

/// A tag of a library, as its function shows itself: a tag that is not made from a function has
/// no closure.
#[derive(Debug)]
pub struct TagSource {
    pub closure: Result<Option<Closure>, PyObject>,
}

impl View for TagSource {
    type V = TagSource;

    open spec fn view(&self) -> TagSource {
        *self
    }
}

/// A library of filters and tags.
#[derive(Debug)]
pub struct Library {
    pub filters: Result<Vec<(String, PyObject)>, PyObject>,
    pub tags: Result<Vec<(String, TagSource)>, PyObject>,
}

impl View for Library {
    type V = Library;

    open spec fn view(&self) -> Library {
        *self
    }
}

/// What tells a tag whose function holds too few values.
pub open spec fn short_closure(name: Seq<char>) -> PyParseError<Seq<char>> {
    PyParseError::Unsupported(Unsupported::Closure { name })
}

/// The outcome of reading the value at a position in some way.
pub open spec fn reading<T>(
    name: Seq<char>,
    values: Seq<ClosureValue>,
    i: int,
    read: spec_fn(ClosureValue) -> Result<T, PyObject>,
) -> Result<T, PyParseError<Seq<char>>> {
    if i >= values.len() {
        Err(short_closure(name))
    } else {
        match read(values[i]) {
            Ok(x) => Ok(x),
            Err(e) => Err(PyParseError::PyErr(e)),
        }
    }
}

/// The number of parameters with a default value.
pub open spec fn defaults_count(value: ClosureValue) -> Result<usize, PyObject> {
    if value.is_none {
        Ok(0)
    } else {
        value.length
    }
}

/// The names of the keyword-only parameters with a default value.
pub open spec fn kwonly_defaults(value: ClosureValue) -> Result<Seq<Seq<char>>, PyObject> {
    if value.is_none {
        Ok(Seq::empty())
    } else {
        match value.items {
            Ok(items) => Ok(views(items@)),
            Err(e) => Err(e),
        }
    }
}

/// A value as a string.
pub open spec fn as_text(value: ClosureValue) -> Result<Seq<char>, PyObject> {
    match value.text {
        Ok(text) => Ok(text@),
        Err(e) => Err(e),
    }
}

/// A value as a list of strings.
pub open spec fn as_texts(value: ClosureValue) -> Result<Seq<Seq<char>>, PyObject> {
    match value.texts {
        Ok(texts) => Ok(views(texts@)),
        Err(e) => Err(e),
    }
}

/// How the function behind a tag is called, as the values from a position on tell. Its parameters
/// are those of the function, before any is taken off.
pub open spec fn context_from(
    name: Seq<char>,
    values: Seq<ClosureValue>,
    from: int,
    defaults_count: usize,
) -> Result<SimpleTagContextView, PyParseError<Seq<char>>> {
    match reading(name, values, from, |value: ClosureValue| Ok(value.object)) {
        Err(e) => Err(e),
        Ok(func) => match reading(name, values, from + 1, |value| as_text(value)) {
            Err(e) => Err(e),
            Ok(function_name) => match reading(name, values, from + 2, |value| as_texts(value)) {
                Err(e) => Err(e),
                Ok(kwonly) => match reading(
                    name,
                    values,
                    from + 3,
                    |value| kwonly_defaults(value),
                ) {
                    Err(e) => Err(e),
                    Ok(kwonly_defaults) => match reading(
                        name,
                        values,
                        from + 4,
                        |value| as_texts(value),
                    ) {
                        Err(e) => Err(e),
                        Ok(params) => match reading(
                            name,
                            values,
                            from + 5,
                            |value: ClosureValue| value.is_truthy,
                        ) {
                            Err(e) => Err(e),
                            Ok(takes_context) => if from + 7 >= values.len() {
                                Err(short_closure(name))
                            } else {
                                Ok(
                                    SimpleTagContextView {
                                        func,
                                        function_name,
                                        takes_context,
                                        params,
                                        defaults_count,
                                        varargs: !values[from + 6].is_none,
                                        kwonly,
                                        kwonly_defaults,
                                        varkw: !values[from + 7].is_none,
                                    },
                                )
                            },
                        },
                    },
                },
            },
        },
    }
}

/// A context with the first parameters taken off.
pub open spec fn without_params(context: SimpleTagContextView, count: int) -> SimpleTagContextView {
    SimpleTagContextView { params: context.params.skip(count), ..context }
}

/// A context whose function is handed the context first, if it takes it.
pub open spec fn simple_context(context: SimpleTagContextView, at: At) -> Result<
    SimpleTagContextView,
    PyParseError<Seq<char>>,
> {
    let name = context.function_name;
    if !context.takes_context {
        Ok(context)
    } else if context.params.len() >= 1 && context.params[0] == "context"@ {
        Ok(without_params(context, 1))
    } else {
        Err(PyParseError::ParseError(ParseError::RequiresContext { name, at }))
    }
}

/// A context whose function is handed the nodes of the block, after the context if it takes it.
pub open spec fn block_context(context: SimpleTagContextView, at: At) -> Result<
    SimpleTagContextView,
    PyParseError<Seq<char>>,
> {
    let name = context.function_name;
    if !context.takes_context {
        if context.params.len() >= 1 && context.params[0] == "content"@ {
            Ok(without_params(context, 1))
        } else {
            Err(PyParseError::ParseError(ParseError::RequiresContent { name, at }))
        }
    } else if context.params.len() >= 2 && context.params[0] == "context"@ && context.params[1]
        == "content"@ {
        Ok(without_params(context, 2))
    } else {
        Err(PyParseError::ParseError(ParseError::RequiresContextAndContent { name, at }))
    }
}

/// What a tag of a library is, loaded at a location.
pub open spec fn tag_context(at: At, name: Seq<char>, source: TagSource) -> Result<
    TagContextView,
    PyParseError<Seq<char>>,
> {
    match source.closure {
        Err(e) => Err(PyParseError::PyErr(e)),
        Ok(None) => Err(PyParseError::Unsupported(Unsupported::FullyCustomTag { name })),
        Ok(Some(closure)) => match (closure.names, closure.values) {
            (Err(e), _) => Err(PyParseError::PyErr(e)),
            (_, Err(e)) => Err(PyParseError::PyErr(e)),
            (Ok(names), Ok(values)) => if views(names@).contains("filename"@) {
                Err(PyParseError::Unsupported(Unsupported::InclusionTag { name }))
            } else if views(names@).contains("end_name"@) {
                match reading(name, values@, 0, |value| defaults_count(value)) {
                    Err(e) => Err(e),
                    Ok(count) => match reading(name, values@, 1, |value| as_text(value)) {
                        Err(e) => Err(e),
                        Ok(end_tag_name) => match context_from(name, values@, 2, count) {
                            Err(e) => Err(e),
                            Ok(context) => match block_context(context, at) {
                                Err(e) => Err(e),
                                Ok(context) => Ok(
                                    TagContextView::SimpleBlock { end_tag_name, context },
                                ),
                            },
                        },
                    },
                }
            } else {
                match reading(name, values@, 0, |value| defaults_count(value)) {
                    Err(e) => Err(e),
                    Ok(count) => match context_from(name, values@, 1, count) {
                        Err(e) => Err(e),
                        Ok(context) => match simple_context(context, at) {
                            Err(e) => Err(e),
                            Ok(context) => Ok(TagContextView::Simple(context)),
                        },
                    },
                }
            },
        },
    }
}

/// The tags after one more is loaded: one that goes around a block brings the tag that ends it.
pub open spec fn with_tag(
    tags: Map<Seq<char>, TagContextView>,
    name: Seq<char>,
    context: TagContextView,
) -> Map<Seq<char>, TagContextView> {
    match context {
        TagContextView::SimpleBlock { end_tag_name, .. } => tags.insert(
            end_tag_name,
            TagContextView::EndSimpleBlock,
        ).insert(name, context),
        _ => tags.insert(name, context),
    }
}

/// The error of a tag whose function holds too few values.
fn closure_too_short(name: &str) -> (r: PyParseError<String>)
    ensures
        r@ == short_closure(name@),
{
    PyParseError::Unsupported(Unsupported::Closure { name: name.to_owned() })
}

/// The number of parameters with a default value.
pub fn get_defaults_count(defaults: &ClosureValue) -> (r: Result<usize, PyObject>)
    ensures
        r == defaults_count(*defaults),
{
    if defaults.is_none {
        Ok(0)
    } else {
        match &defaults.length {
            Ok(length) => Ok(*length),
            Err(e) => Err(*e),
        }
    }
}

/// The names of the keyword-only parameters with a default value.
pub fn get_kwonly_defaults(defaults: &ClosureValue) -> (r: Result<Vec<String>, PyObject>)
    ensures
        match r {
            Ok(names) => kwonly_defaults(*defaults) == Ok::<_, PyObject>(views(names@)),
            Err(e) => kwonly_defaults(*defaults) == Err::<Seq<Seq<char>>, _>(e),
        },
{
    if defaults.is_none {
        let names: Vec<String> = Vec::new();
        assert(views(names@) =~= Seq::<Seq<char>>::empty());
        Ok(names)
    } else {
        match &defaults.items {
            Ok(items) => Ok(duplicate_all(items)),
            Err(e) => Err(*e),
        }
    }
}

fn read_defaults_count(name: &str, values: &Vec<ClosureValue>, i: usize) -> (r: Result<
    usize,
    PyParseError<String>,
>)
    ensures
        match r {
            Ok(x) => reading(name@, values@, i as int, |value| defaults_count(value)) == Ok::<
                _,
                PyParseError<Seq<char>>,
            >(x),
            Err(e) => reading(name@, values@, i as int, |value| defaults_count(value)) == Err::<
                usize,
                _,
            >(e@),
        },
{
    if i >= values.len() {
        return Err(closure_too_short(name));
    }
    match get_defaults_count(&values[i]) {
        Ok(count) => Ok(count),
        Err(e) => Err(PyParseError::PyErr(e)),
    }
}

fn read_kwonly_defaults(name: &str, values: &Vec<ClosureValue>, i: usize) -> (r: Result<
    Vec<String>,
    PyParseError<String>,
>)
    ensures
        match r {
            Ok(x) => reading(name@, values@, i as int, |value| kwonly_defaults(value)) == Ok::<
                _,
                PyParseError<Seq<char>>,
            >(views(x@)),
            Err(e) => reading(name@, values@, i as int, |value| kwonly_defaults(value)) == Err::<
                Seq<Seq<char>>,
                _,
            >(e@),
        },
{
    if i >= values.len() {
        return Err(closure_too_short(name));
    }
    match get_kwonly_defaults(&values[i]) {
        Ok(names) => Ok(names),
        Err(e) => Err(PyParseError::PyErr(e)),
    }
}

fn read_text(name: &str, values: &Vec<ClosureValue>, i: usize) -> (r: Result<
    String,
    PyParseError<String>,
>)
    ensures
        match r {
            Ok(x) => reading(name@, values@, i as int, |value| as_text(value)) == Ok::<
                _,
                PyParseError<Seq<char>>,
            >(x@),
            Err(e) => reading(name@, values@, i as int, |value| as_text(value)) == Err::<
                Seq<char>,
                _,
            >(e@),
        },
{
    if i >= values.len() {
        return Err(closure_too_short(name));
    }
    match &values[i].text {
        Ok(text) => Ok(text.clone()),
        Err(e) => Err(PyParseError::PyErr(*e)),
    }
}

fn read_texts(name: &str, values: &Vec<ClosureValue>, i: usize) -> (r: Result<
    Vec<String>,
    PyParseError<String>,
>)
    ensures
        match r {
            Ok(x) => reading(name@, values@, i as int, |value| as_texts(value)) == Ok::<
                _,
                PyParseError<Seq<char>>,
            >(views(x@)),
            Err(e) => reading(name@, values@, i as int, |value| as_texts(value)) == Err::<
                Seq<Seq<char>>,
                _,
            >(e@),
        },
{
    if i >= values.len() {
        return Err(closure_too_short(name));
    }
    match &values[i].texts {
        Ok(texts) => Ok(duplicate_all(texts)),
        Err(e) => Err(PyParseError::PyErr(*e)),
    }
}

/// How the function behind a tag is called, as the values from a position on tell.
fn read_context(
    name: &str,
    values: &Vec<ClosureValue>,
    from: usize,
    defaults_count: usize,
) -> (r: Result<SimpleTagContext, PyParseError<String>>)
    requires
        from <= 2,
    ensures
        py_result_view(r) == context_from(name@, values@, from as int, defaults_count),
{
    if from >= values.len() {
        return Err(closure_too_short(name));
    }
    let func = values[from].object;
    let function_name = read_text(name, values, from + 1)?;
    let kwonly = read_texts(name, values, from + 2)?;
    let kwonly_defaults = read_kwonly_defaults(name, values, from + 3)?;
    let params = read_texts(name, values, from + 4)?;
    if from + 5 >= values.len() {
        return Err(closure_too_short(name));
    }
    let takes_context = match &values[from + 5].is_truthy {
        Ok(truthy) => *truthy,
        Err(e) => {
            return Err(PyParseError::PyErr(*e));
        },
    };
    if from + 7 >= values.len() {
        return Err(closure_too_short(name));
    }
    let varargs = !values[from + 6].is_none;
    let varkw = !values[from + 7].is_none;
    Ok(
        SimpleTagContext {
            func,
            function_name,
            takes_context,
            params,
            defaults_count,
            varargs,
            kwonly,
            kwonly_defaults,
            varkw,
        },
    )
}

/// Takes the first parameters off a context.
fn skip_params(context: SimpleTagContext, count: usize) -> (r: SimpleTagContext)
    requires
        count <= context.params@.len(),
    ensures
        r@ == without_params(context@, count as int),
{
    let mut params: Vec<String> = Vec::new();
    let mut i: usize = count;
    while i < context.params.len()
        invariant
            count <= i <= context.params@.len(),
            params@.len() == i - count,
            forall|j: int|
                0 <= j < params@.len() ==> (#[trigger] params@[j])@ == context.params@[count
                    + j]@,
        decreases context.params@.len() - i,
    {
        params.push(context.params[i].clone());
        i += 1;
    }
    assert(views(params@) =~= views(context.params@).skip(count as int));
    SimpleTagContext {
        func: context.func,
        function_name: context.function_name,
        takes_context: context.takes_context,
        params,
        defaults_count: context.defaults_count,
        varargs: context.varargs,
        kwonly: context.kwonly,
        kwonly_defaults: context.kwonly_defaults,
        varkw: context.varkw,
    }
}

/// Whether a parameter has a name.
fn param_is(context: &SimpleTagContext, i: usize, name: &str) -> (r: bool)
    ensures
        r == (i < context@.params.len() && context@.params[i as int] == name@),
{
    i < context.params.len() && str_eq(context.params[i].as_str(), name)
}

/// A context whose function is handed the context first, if it takes it.
fn check_simple(context: SimpleTagContext, at: At) -> (r: Result<
    SimpleTagContext,
    PyParseError<String>,
>)
    ensures
        py_result_view(r) == simple_context(context@, at),
{
    if !context.takes_context {
        Ok(context)
    } else if param_is(&context, 0, "context") {
        Ok(skip_params(context, 1))
    } else {
        Err(
            PyParseError::ParseError(
                ParseError::RequiresContext { name: context.function_name, at },
            ),
        )
    }
}

/// A context whose function is handed the nodes of the block, after the context if it takes it.
fn check_block(context: SimpleTagContext, at: At) -> (r: Result<
    SimpleTagContext,
    PyParseError<String>,
>)
    ensures
        py_result_view(r) == block_context(context@, at),
{
    if !context.takes_context {
        if param_is(&context, 0, "content") {
            Ok(skip_params(context, 1))
        } else {
            Err(
                PyParseError::ParseError(
                    ParseError::RequiresContent { name: context.function_name, at },
                ),
            )
        }
    } else if param_is(&context, 0, "context") && param_is(&context, 1, "content") {
        Ok(skip_params(context, 2))
    } else {
        Err(
            PyParseError::ParseError(
                ParseError::RequiresContextAndContent { name: context.function_name, at },
            ),
        )
    }
}

/// What a tag of a library is, loaded at a location.
fn read_tag(at: At, name: &str, source: &TagSource) -> (r: Result<TagContext, PyParseError<String>>)
    ensures
        py_result_view(r) == tag_context(at, name@, *source),
{
    let closure = match &source.closure {
        Err(e) => {
            return Err(PyParseError::PyErr(*e));
        },
        Ok(None) => {
            return Err(
                PyParseError::Unsupported(Unsupported::FullyCustomTag { name: name.to_owned() }),
            );
        },
        Ok(Some(closure)) => closure,
    };
    let names = match &closure.names {
        Ok(names) => names,
        Err(e) => {
            return Err(PyParseError::PyErr(*e));
        },
    };
    let values = match &closure.values {
        Ok(values) => values,
        Err(e) => {
            return Err(PyParseError::PyErr(*e));
        },
    };
    if contains_text(names, "filename") {
        Err(PyParseError::Unsupported(Unsupported::InclusionTag { name: name.to_owned() }))
    } else if contains_text(names, "end_name") {
        let count = read_defaults_count(name, values, 0)?;
        let end_tag_name = read_text(name, values, 1)?;
        let context = read_context(name, values, 2, count)?;
        let context = check_block(context, at)?;
        Ok(TagContext::SimpleBlock { end_tag_name, context })
    } else {
        let count = read_defaults_count(name, values, 0)?;
        let context = read_context(name, values, 1, count)?;
        let context = check_simple(context, at)?;
        Ok(TagContext::Simple(context))
    }
}

/// Loads a tag of a library, at a location.
pub fn load_tag(
    external_tags: &mut Dict<TagContext>,
    at: At,
    name: &str,
    source: &TagSource,
) -> (r: Result<(), PyParseError<String>>)
    ensures
        match r {
            Ok(()) => match tag_context(at, name@, *source) {
                Ok(context) => final(external_tags)@ == with_tag(
                    old(external_tags)@,
                    name@,
                    context,
                ),
                Err(_) => false,
            },
            Err(e) => {
                &&& tag_context(at, name@, *source) == Err::<TagContextView, _>(e@)
                &&& final(external_tags)@ == old(external_tags)@
            },
        },
{
    let tag = read_tag(at, name, source)?;
    if let TagContext::SimpleBlock { end_tag_name, .. } = &tag {
        external_tags.insert(end_tag_name.clone(), TagContext::EndSimpleBlock);
    }
    external_tags.insert(name.to_owned(), tag);
    Ok(())
}

/// What is said where a library is not found: which ones there are.
pub open spec fn library_help(libraries: Map<Seq<char>, Library>) -> Seq<char> {
    "Must be one of:\n"@ + joined_by(listing(libraries.dom()), "\n"@)
}

/// The library whose name stands at a location.
pub fn load_library<'l>(
    token: LoadToken,
    libraries: &'l Dict<Library>,
    template: TemplateString<'_>,
) -> (r: Result<&'l Library, ParseError<String>>)
    requires
        is_span(template@, token.at),
    ensures
        ({
            let name = span(template@, token.at);
            match r {
                Ok(library) => libraries@.contains_key(name) && libraries@[name] == *library,
                Err(e) => !libraries@.contains_key(name) && e@ == (ParseError::MissingTagLibrary {
                    library: name,
                    at: token.at,
                    help: library_help(libraries@),
                }),
            }
        }),
{
    let name = template.content(token.at);
    match libraries.get(name) {
        Some(library) => Ok(library),
        None => {
            let names = sort_texts(&libraries.keys());
            let mut help = "Must be one of:\n".to_owned();
            help.append(join(&names, "\n").as_str());
            Err(ParseError::MissingTagLibrary { library: name.to_owned(), at: token.at, help })
        },
    }
}

} // verus!
