//! What tags are replaced by.
//!
//! Python does the work in between: the functions here say what is to be asked of it, take what it
//! gave, and keep the context.
use vstd::prelude::*;
use vstd::string::*;
use crate::dict::{map_of, views};
use crate::integer::{decimal_text, Integer};
use crate::lexer::tokens::{AutoescapeEnabled, LexerFault, LoremMethod, TemplateTag};
use crate::parse::tree::{
    CsrfToken, Cycle, For, Include, IncludeTemplateName, Lorem, NamedCycle, Now, SimpleCycle,
    TagElement, Url,
};
use crate::render::content::{escaped, truth_text, Content, ContentString};
use crate::render::context::{
    bound_in_turns, law_for_loop_restores_names, lemma_binding_keeps_loops, next_index,
    same_values, unbound, unpack_error, unpacked, Context, ContextView, ForLoop,
    IncludeTemplateKey, IncludeTemplateKeyView, LoopItem,
};
use crate::render::errors::{PyException, PyRenderError, RenderError};
use crate::text::{is_span, span, str_eq, At, TemplateString};
use crate::types::{Float, PyObject};
use crate::words::{chars_of, join, joined_by};

verus! {

impl AutoescapeEnabled {
    /// Whether text is to be escaped.
    pub fn enabled(self) -> (r: bool)
        ensures
            r == (self is On),
    {
        match self {
            AutoescapeEnabled::On => true,
            AutoescapeEnabled::Off => false,
        }
    }
}

/// The context with escaping switched on or off.
pub open spec fn with_autoescape(context: ContextView, autoescape: bool) -> ContextView {
    ContextView { autoescape, ..context }
}

/// Switches escaping on or off for some nodes, and tells what it was before.
pub fn enter_autoescape(context: &mut Context, enabled: AutoescapeEnabled) -> (r: bool)
    ensures
        r == old(context)@.autoescape,
        final(context)@ == with_autoescape(old(context)@, enabled is On),
        old(context)@.wf() ==> final(context)@.wf(),
{
    let before = context.autoescape();
    context.set_autoescape(enabled.enabled());
    before
}

/// Switches escaping back to what it was.
pub fn leave_autoescape(context: &mut Context, before: bool)
    ensures
        final(context)@ == with_autoescape(old(context)@, before),
        old(context)@.wf() ==> final(context)@.wf(),
{
    context.set_autoescape(before);
}

impl TemplateTag {
    /// What the tag is replaced by.
    pub open spec fn replacement(self) -> Seq<char> {
        match self {
            TemplateTag::OpenBlock => "{%"@,
            TemplateTag::CloseBlock => "%}"@,
            TemplateTag::OpenVariable => "{{"@,
            TemplateTag::CloseVariable => "}}"@,
            TemplateTag::OpenBrace => "{"@,
            TemplateTag::CloseBrace => "}"@,
            TemplateTag::OpenComment => "{#"@,
            TemplateTag::CloseComment => "#}"@,
        }
    }

    /// What the tag is replaced by.
    pub fn output(self) -> (r: &'static str)
        ensures
            r@ == self.replacement(),
    {
        match self {
            TemplateTag::OpenBlock => "{%",
            TemplateTag::CloseBlock => "%}",
            TemplateTag::OpenVariable => "{{",
            TemplateTag::CloseVariable => "}}",
            TemplateTag::OpenBrace => "{",
            TemplateTag::CloseBrace => "}",
            TemplateTag::OpenComment => "{#",
            TemplateTag::CloseComment => "#}",
        }
    }
}

/// What a request says of the application at hand: each of the two attributes may be missing.
#[derive(Debug)]
pub struct RequestApp {
    pub current_app: Result<Option<PyObject>, PyObject>,
    /// The resolver match, unless it is `None`, by the outcome of reading its namespace.
    pub resolver_match: Result<Option<Result<PyObject, PyObject>>, PyObject>,
}

/// The application at hand, if there is a request that tells.
pub open spec fn app_at_hand(request: Option<RequestApp>) -> Result<Option<PyObject>, PyObject> {
    match request {
        None => Ok(None),
        Some(request) => match request.current_app {
            Err(e) => Err(e),
            Ok(Some(app)) => Ok(Some(app)),
            Ok(None) => match request.resolver_match {
                Err(e) => Err(e),
                Ok(None) => Ok(None),
                Ok(Some(Ok(namespace))) => Ok(Some(namespace)),
                Ok(Some(Err(e))) => Err(e),
            },
        },
    }
}

/// The application at hand, if there is a request that tells.
pub fn current_app(request: Option<RequestApp>) -> (r: Result<Option<PyObject>, PyObject>)
    ensures
        r == app_at_hand(request),
{
    match request {
        None => Ok(None),
        Some(request) => match request.current_app {
            Err(e) => Err(e),
            Ok(Some(app)) => Ok(Some(app)),
            Ok(None) => match request.resolver_match {
                Err(e) => Err(e),
                Ok(None) => Ok(None),
                Ok(Some(Ok(namespace))) => Ok(Some(namespace)),
                Ok(Some(Err(e))) => Err(e),
            },
        },
    }
}

/// Why a URL could not be found.
#[derive(Clone, Copy, Debug)]
pub struct ReverseError {
    pub error: PyObject,
    /// Whether there is no such URL.
    pub no_match: bool,
}

/// What a tag gives once its URL was looked up, and what becomes of the context.
pub open spec fn url_concluded(
    tag: Url,
    url: Result<PyObject, ReverseError>,
    before: ContextView,
    after: ContextView,
    outcome: Result<Option<Content>, PyRenderError<String>>,
) -> bool {
    match (tag.asvar, url) {
        (None, Ok(url)) => {
            &&& outcome == Ok::<_, PyRenderError<String>>(Some(Content::Py(url)))
            &&& after == before
        },
        (Some(variable), Ok(url)) => {
            &&& outcome == Ok::<Option<Content>, PyRenderError<String>>(None)
            &&& after == before.inserted(variable@, url, true)
        },
        (Some(_), Err(e)) if e.no_match => {
            &&& outcome == Ok::<Option<Content>, PyRenderError<String>>(None)
            &&& after == before
        },
        (_, Err(e)) => {
            &&& outcome matches Err(error) && error@ == (PyRenderError::Annotated {
                error: e.error,
                at: tag.at,
                label: "here"@,
            })
            &&& after == before
        },
    }
}

impl Url {
    /// What the tag gives once the URL was looked up: where it is to be stored in a variable, it
    /// gives nothing, and a URL that does not exist is passed over.
    pub fn conclude(&self, url: Result<PyObject, ReverseError>, context: &mut Context) -> (r: Result<
        Option<Content>,
        PyRenderError<String>,
    >)
        ensures
            url_concluded(*self, url, old(context)@, final(context)@, r),
            old(context)@.wf() ==> final(context)@.wf(),
    {
        match url {
            Ok(url) => match &self.asvar {
                None => Ok(Some(Content::Py(url))),
                Some(variable) => {
                    context.insert(variable.clone(), url);
                    Ok(None)
                },
            },
            Err(e) => {
                if self.asvar.is_some() && e.no_match {
                    Ok(None)
                } else {
                    Err(
                        PyRenderError::Annotated {
                            error: e.error,
                            at: self.at,
                            label: "here".to_owned(),
                        },
                    )
                }
            },
        }
    }
}

/// What a for loop iterates over.
#[derive(Debug)]
pub enum ForPlan {
    /// There is nothing to iterate over: what follows the body is rendered.
    Empty,
    Python(PyObject),
    Characters(String),
}

/// A loop over a number of items has been started.
pub open spec fn loop_begun(count: int, before: ContextView, after: ContextView) -> bool {
    &&& after.loops.len() == before.loops.len() + 1
    &&& after.loops.last().done() == 0
    &&& after.loops.last().length() == count
    &&& after == (ContextView { loops: before.loops.push(after.loops.last()), ..before })
}

/// A turn of the innermost loop has ended.
pub open spec fn turn_ended(before: ContextView, after: ContextView) -> bool {
    &&& after.loops.len() == before.loops.len()
    &&& after.loops.last().done() == before.loops.last().done() + 1
    &&& after.loops.last().length() == before.loops.last().length()
    &&& after == (ContextView {
        loops: before.loops.drop_last().push(after.loops.last()),
        ..before
    })
}

/// What becomes of the context where the names of a loop are bound in turn number `index`.
pub open spec fn names_bound(
    tag: For,
    item: Result<LoopItem, PyObject>,
    index: int,
    before: ContextView,
    after: ContextView,
    outcome: Result<(), PyRenderError<Seq<char>>>,
) -> bool {
    match item {
        Err(error) => {
            &&& outcome == Err::<(), _>(
                PyRenderError::<Seq<char>>::Annotated {
                    error,
                    at: tag.iterable.at,
                    label: "while iterating this"@,
                },
            )
            &&& after == before
        },
        Ok(item) => {
            let names = views(tag.variables.names@);
            let base = if index == 0 {
                before.with_names(names.to_set())
            } else {
                before
            };
            match unpacked(names.len() as int, tag.variables.at, item, tag.iterable.at) {
                Ok(values) => {
                    &&& outcome is Ok
                    &&& after == base.inserted_all(names, values, index != 0)
                },
                Err(e) => {
                    &&& outcome == Err::<(), _>(e)
                    &&& after == base
                },
            }
        },
    }
}

/// What becomes of the context where the name of a loop is bound to a character in turn number
/// `index`.
pub open spec fn character_bound(
    tag: For,
    character: PyObject,
    index: int,
    before: ContextView,
    after: ContextView,
) -> bool {
    let name = tag.variables.names@[0]@;
    after == (if index == 0 {
        before.with_names(set![name])
    } else {
        before
    }).inserted(name, character, index != 0)
}

impl For {
    /// What the loop iterates over, once its value is known. Numbers and truth values cannot be
    /// iterated over.
    pub fn plan(&self, iterable: Option<Content>) -> (r: ForPlan)
        requires
            iterable matches Some(content) ==> content is Py || content is String,
        ensures
            match iterable {
                None => r is Empty,
                Some(Content::Py(object)) => r == ForPlan::Python(object),
                Some(Content::String(s)) => r == ForPlan::Characters(s.raw()),
                _ => false,
            },
    {
        match iterable {
            None => ForPlan::Empty,
            Some(Content::Py(object)) => ForPlan::Python(object),
            Some(Content::String(s)) => ForPlan::Characters(s.into_raw()),
            _ => vstd::pervasive::unreached(),
        }
    }

    /// The characters that a loop over text goes through, in the order of the loop. There must be
    /// one name for them.
    pub fn characters(&self, text: &str) -> (r: Result<Vec<char>, PyRenderError<String>>)
        ensures
            match r {
                Ok(chars) => {
                    &&& self.variables.names@.len() <= 1
                    &&& chars@ == (if self.reversed {
                        text@.reverse()
                    } else {
                        text@
                    })
                },
                Err(e) => {
                    &&& self.variables.names@.len() > 1
                    &&& e@ == unpack_error(
                        self.variables.names@.len() as int,
                        1,
                        self.variables.at,
                        self.iterable.at,
                    )
                },
            },
    {
        let count = self.variables.names.len();
        if count > 1 {
            return Err(
                PyRenderError::RenderError(
                    RenderError::TupleUnpackError {
                        expected_count: count,
                        actual_count: 1,
                        expected_at: self.variables.at,
                        actual_at: self.iterable.at,
                    },
                ),
            );
        }
        let chars = chars_of(text);
        if !self.reversed {
            return Ok(chars);
        }
        let mut reversed: Vec<char> = Vec::new();
        let mut i: usize = chars.len();
        while i > 0
            invariant
                0 <= i <= chars@.len(),
                reversed@.len() == chars@.len() - i,
                forall|j: int|
                    0 <= j < reversed@.len() ==> reversed@[j] == chars@[chars@.len() - 1 - j],
            decreases i,
        {
            i -= 1;
            reversed.push(chars[i]);
        }
        assert(reversed@ =~= text@.reverse());
        Ok(reversed)
    }

    /// The position, among the items that iterating gave, of the one for turn number `index`.
    pub fn item_position(&self, count: usize, index: usize) -> (r: usize)
        requires
            index < count,
        ensures
            r == (if self.reversed {
                count - 1 - index
            } else {
                index as int
            }),
    {
        if self.reversed {
            count - 1 - index
        } else {
            index
        }
    }

    /// Starts the loop over a number of items.
    pub fn begin(&self, context: &mut Context, count: usize)
        ensures
            loop_begun(count as int, old(context)@, final(context)@),
            old(context)@.wf() ==> final(context)@.wf(),
    {
        context.push_for_loop(count);
    }

    /// Binds the names of the loop in turn number `index`, to an item or to an error that iterating
    /// gave in its place.
    pub fn bind(&self, context: &mut Context, item: &Result<LoopItem, PyObject>, index: usize) -> (r:
        Result<(), PyRenderError<String>>)
        ensures
            names_bound(
                *self,
                *item,
                index as int,
                old(context)@,
                final(context)@,
                match r {
                    Ok(_) => Ok(()),
                    Err(e) => Err(e@),
                },
            ),
            r is Ok && old(context)@.wf() ==> final(context)@.wf(),
    {
        match item {
            Err(error) => Err(
                PyRenderError::Annotated {
                    error: *error,
                    at: self.iterable.at,
                    label: "while iterating this".to_owned(),
                },
            ),
            Ok(item) => context.push_variables(
                &self.variables.names,
                self.variables.at,
                item,
                self.iterable.at,
                index,
            ),
        }
    }

    /// Binds the name of a loop over text to a character, in turn number `index`.
    pub fn bind_character(&self, context: &mut Context, character: PyObject, index: usize)
        requires
            self.variables.names@.len() >= 1,
        ensures
            character_bound(*self, character, index as int, old(context)@, final(context)@),
            old(context)@.wf() ==> final(context)@.wf(),
    {
        context.push_variable(self.variables.names[0].clone(), character, index);
    }

    /// Ends a turn of the loop.
    pub fn turn_done(&self, context: &mut Context)
        requires
            old(context)@.loops.len() > 0,
            old(context)@.loops.last().done() < usize::MAX,
        ensures
            turn_ended(old(context)@, final(context)@),
            old(context)@.wf() ==> final(context)@.wf(),
    {
        context.increment_for_loop();
    }

    /// Ends the loop: takes the names back that were bound last, and the loop.
    pub fn finish(&self, context: &mut Context)
        requires
            old(context)@.can_pop(),
            old(context)@.loops.len() > 0,
        ensures
            old(context)@.wf() ==> final(context)@.wf(),
            final(context)@ == finished(old(context)@),
    {
        context.pop_variables();
        context.pop_for_loop();
    }
}

/// The context after the innermost for loop has ended.
pub open spec fn finished(context: ContextView) -> ContextView {
    let popped = if context.names.len() == 0 {
        context
    } else {
        ContextView {
            names: context.names.drop_last(),
            ..context.popped_all(context.names.last())
        }
    };
    ContextView { loops: context.loops.drop_last(), ..popped }
}

/// A for loop that has bound different names in one turn or more leaves the loops, the names and
/// every value as they were before.
pub proof fn law_for_loop_restores_context(
    context: ContextView,
    for_loop: ForLoop,
    names: Seq<Seq<char>>,
    turns: Seq<Seq<PyObject>>,
)
    requires
        names.no_duplicates(),
        turns.len() > 0,
        forall|i: int| 0 <= i < turns.len() ==> (#[trigger] turns[i]).len() == names.len(),
    ensures
        ({
            let running = ContextView { loops: context.loops.push(for_loop), ..context };
            let after = finished(bound_in_turns(running, names, turns));
            &&& after.loops == context.loops
            &&& after.names == context.names
            &&& same_values(after, context)
        }),
{
    let running = ContextView { loops: context.loops.push(for_loop), ..context };
    let bound = bound_in_turns(running, names, turns);
    let after = finished(bound);
    law_for_loop_restores_names(running, names, turns);
    lemma_binding_keeps_loops(running, names, turns);
    assert(after.loops =~= context.loops);
    assert forall|key: Seq<char>| #[trigger] after.lookup(key) == context.lookup(key) by {
        assert(unbound(bound).lookup(key) == running.lookup(key));
        assert(after.lookup(key) == unbound(bound).lookup(key));
        assert(running.lookup(key) == context.lookup(key));
    }
}

/// What a Python object is as the name of a template.
#[derive(Debug)]
pub struct PyTemplateName {
    /// Its method `render`, if it has one, and whether that can be called.
    pub render: Result<Option<(PyObject, bool)>, PyObject>,
    /// Its text, if it is a string.
    pub text: Option<String>,
    /// The path that the text stands for, if it is relative to the template at hand.
    pub relative_path: Result<Option<String>, LexerFault>,
    /// Whether it is a string to be translated later.
    pub is_promise: Result<bool, PyObject>,
    /// Its items, if it is iterable and they are all strings.
    pub names: Option<Vec<String>>,
    /// What is written of it.
    pub display: String,
    /// What is written of it in full.
    pub repr: String,
}

/// The template to be rendered in place of a tag.
#[derive(Debug)]
pub enum TemplateChoice {
    /// What is found by a key.
    Key(IncludeTemplateKey),
    /// What an object renders.
    Callable(PyObject),
}

pub enum TemplateChoiceView {
    Key(IncludeTemplateKeyView),
    Callable(PyObject),
}

impl View for TemplateChoice {
    type V = TemplateChoiceView;

    open spec fn view(&self) -> TemplateChoiceView {
        match *self {
            TemplateChoice::Key(key) => TemplateChoiceView::Key(key@),
            TemplateChoice::Callable(object) => TemplateChoiceView::Callable(object),
        }
    }
}

/// The location of the name of the template.
pub open spec fn template_location(name: IncludeTemplateName<Integer, String>) -> At {
    match name {
        IncludeTemplateName::Text(text) => text.at,
        IncludeTemplateName::Variable(TagElement::Variable(variable)) => variable.at,
        IncludeTemplateName::Variable(TagElement::Filter(filter)) => filter.all_at,
        IncludeTemplateName::Variable(TagElement::ForVariable(variable)) => variable.at,
        IncludeTemplateName::Relative(relative) => relative.at,
        IncludeTemplateName::Variable(_) => (0, 0),
    }
}

/// The name of a template is a text or a variable, not a literal of another kind.
pub open spec fn is_located(name: IncludeTemplateName<Integer, String>) -> bool {
    name matches IncludeTemplateName::Variable(element) ==> element is Variable || element is Filter
        || element is ForVariable
}

/// The error of something that cannot be the name of a template.
pub open spec fn invalid_name(at: At, content: Seq<char>) -> PyRenderError<Seq<char>> {
    PyRenderError::Raised {
        exception: PyException::TypeError,
        message: "Included template name must be a string or iterable of strings."@,
        at,
        label: "invalid template name: "@ + content,
    }
}

/// The template that a Python object names.
pub open spec fn python_choice(at: At, name: PyTemplateName) -> Result<
    TemplateChoiceView,
    PyRenderError<Seq<char>>,
> {
    match name.render {
        Err(e) => Err(PyRenderError::PyErr(e)),
        Ok(Some((render, true))) => Ok(TemplateChoiceView::Callable(render)),
        _ => match name.text {
            Some(text) => match name.relative_path {
                Err(e) => Err(PyRenderError::RenderError(RenderError::RelativePathError(e))),
                Ok(Some(path)) => Ok(
                    TemplateChoiceView::Key(IncludeTemplateKeyView::String(path@)),
                ),
                Ok(None) => Ok(TemplateChoiceView::Key(IncludeTemplateKeyView::String(text@))),
            },
            None => match name.is_promise {
                Err(e) => Err(PyRenderError::PyErr(e)),
                Ok(true) => Err(
                    PyRenderError::Raised {
                        exception: PyException::TypeError,
                        message: "Included template name cannot be a translatable string."@,
                        at,
                        label: "invalid template name: "@ + name.repr@,
                    },
                ),
                Ok(false) => match name.names {
                    None => Err(invalid_name(at, name.display@)),
                    Some(names) => Ok(
                        TemplateChoiceView::Key(IncludeTemplateKeyView::Vec(views(names@))),
                    ),
                },
            },
        },
    }
}

/// The view of a template that may not be found.
pub open spec fn choice_view(r: Result<TemplateChoice, PyRenderError<String>>) -> Result<
    TemplateChoiceView,
    PyRenderError<Seq<char>>,
> {
    match r {
        Ok(choice) => Ok(choice@),
        Err(e) => Err(e@),
    }
}

/// The name of the template, once its value is known: a relative path is known beforehand.
pub open spec fn template_content(
    tag: Include,
    resolved: Result<Option<Content>, PyRenderError<String>>,
    outcome: Result<Content, PyRenderError<String>>,
) -> bool {
    match tag.template_name {
        IncludeTemplateName::Relative(relative) => outcome matches Ok(
            Content::String(ContentString::String(path)),
        ) && path@ == relative.path@,
        _ => match resolved {
            Err(e) => outcome == Err::<Content, PyRenderError<String>>(e),
            Ok(Some(content)) => outcome == Ok::<_, PyRenderError<String>>(content),
            Ok(None) => outcome matches Err(e) && e@ == (PyRenderError::Raised {
                exception: PyException::TemplateDoesNotExist,
                message: "No template names provided"@,
                at: template_location(tag.template_name),
                label: "This variable is not in the context"@,
            }),
        },
    }
}

impl Include {
    /// Whether the name of the template is a text or a variable.
    pub fn has_location(&self) -> (r: bool)
        ensures
            r == is_located(self.template_name),
    {
        match &self.template_name {
            IncludeTemplateName::Variable(element) => match element {
                TagElement::Variable(_) => true,
                TagElement::Filter(_) => true,
                TagElement::ForVariable(_) => true,
                _ => false,
            },
            _ => true,
        }
    }

    /// The location of the name of the template.
    pub fn template_at(&self) -> (r: At)
        requires
            is_located(self.template_name),
        ensures
            r == template_location(self.template_name),
    {
        match &self.template_name {
            IncludeTemplateName::Text(text) => text.at,
            IncludeTemplateName::Relative(relative) => relative.at,
            IncludeTemplateName::Variable(element) => match element {
                TagElement::Variable(variable) => variable.at,
                TagElement::Filter(filter) => filter.all_at,
                TagElement::ForVariable(variable) => variable.at,
                _ => vstd::pervasive::unreached(),
            },
        }
    }

    /// The error of something that cannot be the name of a template.
    fn invalid_template_name(&self, content: &str) -> (r: PyRenderError<String>)
        requires
            is_located(self.template_name),
        ensures
            r@ == invalid_name(template_location(self.template_name), content@),
    {
        let mut label = "invalid template name: ".to_owned();
        label.append(content);
        PyRenderError::Raised {
            exception: PyException::TypeError,
            message: "Included template name must be a string or iterable of strings.".to_owned(),
            at: self.template_at(),
            label,
        }
    }

    /// The name of the template, once its value is known: a relative path is known beforehand.
    pub fn resolve_template_name(
        &self,
        resolved: Result<Option<Content>, PyRenderError<String>>,
    ) -> (r: Result<Content, PyRenderError<String>>)
        requires
            is_located(self.template_name),
        ensures
            template_content(*self, resolved, r),
    {
        if let IncludeTemplateName::Relative(relative) = &self.template_name {
            return Ok(Content::String(ContentString::String(relative.path.clone())));
        }
        match resolved {
            Err(e) => Err(e),
            Ok(Some(content)) => Ok(content),
            Ok(None) => Err(
                PyRenderError::Raised {
                    exception: PyException::TemplateDoesNotExist,
                    message: "No template names provided".to_owned(),
                    at: self.template_at(),
                    label: "This variable is not in the context".to_owned(),
                },
            ),
        }
    }

    /// The template that a Python object names.
    pub fn choose_python(&self, name: PyTemplateName) -> (r: Result<
        TemplateChoice,
        PyRenderError<String>,
    >)
        requires
            is_located(self.template_name),
        ensures
            choice_view(r) == python_choice(template_location(self.template_name), name),
    {
        match name.render {
            Err(e) => {
                return Err(PyRenderError::PyErr(e));
            },
            Ok(Some((render, true))) => {
                return Ok(TemplateChoice::Callable(render));
            },
            _ => {},
        }
        if let Some(text) = name.text {
            return match name.relative_path {
                Err(e) => Err(PyRenderError::RenderError(RenderError::RelativePathError(e))),
                Ok(Some(path)) => Ok(TemplateChoice::Key(IncludeTemplateKey::String(path))),
                Ok(None) => Ok(TemplateChoice::Key(IncludeTemplateKey::String(text))),
            };
        }
        match name.is_promise {
            Err(e) => Err(PyRenderError::PyErr(e)),
            Ok(true) => {
                let mut label = "invalid template name: ".to_owned();
                label.append(name.repr.as_str());
                Err(
                    PyRenderError::Raised {
                        exception: PyException::TypeError,
                        message:
                            "Included template name cannot be a translatable string.".to_owned(),
                        at: self.template_at(),
                        label,
                    },
                )
            },
            Ok(false) => match name.names {
                None => Err(self.invalid_template_name(name.display.as_str())),
                Some(names) => Ok(TemplateChoice::Key(IncludeTemplateKey::Vec(names))),
            },
        }
    }

    /// The template that a value names. `py_name` tells what a Python object is as a name and
    /// `float_text` what is written of a floating point number.
    pub fn get_template<P: FnOnce(PyObject) -> PyTemplateName, F: FnOnce(Float) -> String>(
        &self,
        template_name: Content,
        py_name: P,
        float_text: F,
    ) -> (r: Result<TemplateChoice, PyRenderError<String>>)
        requires
            is_located(self.template_name),
            forall|o: PyObject| #[trigger] py_name.requires((o,)),
            forall|f: Float| #[trigger] float_text.requires((f,)),
        ensures
            ({
                let at = template_location(self.template_name);
                match template_name {
                    Content::String(s) => choice_view(r) == Ok::<_, PyRenderError<Seq<char>>>(
                        TemplateChoiceView::Key(
                            IncludeTemplateKeyView::String(
                                match s@ {
                                    ContentString::HtmlUnsafe(s) => escaped(s),
                                    other => other.raw(),
                                },
                            ),
                        ),
                    ),
                    Content::Py(object) => exists|name: PyTemplateName|
                        {
                            &&& #[trigger] py_name.ensures((object,), name)
                            &&& choice_view(r) == python_choice(at, name)
                        },
                    Content::Int(n) => choice_view(r) == Err::<TemplateChoiceView, _>(
                        invalid_name(at, decimal_text(n@)),
                    ),
                    Content::Float(f) => exists|text: String|
                        {
                            &&& #[trigger] float_text.ensures((f,), text)
                            &&& choice_view(r) == Err::<TemplateChoiceView, _>(
                                invalid_name(at, text@),
                            )
                        },
                    Content::Bool(b) => choice_view(r) == Err::<TemplateChoiceView, _>(
                        invalid_name(at, truth_text(b)),
                    ),
                }
            }),
    {
        match template_name {
            Content::String(content) => Ok(
                TemplateChoice::Key(IncludeTemplateKey::String(content.content())),
            ),
            Content::Py(object) => {
                let name = py_name(object);
                self.choose_python(name)
            },
            Content::Int(n) => Err(self.invalid_template_name(n.to_text().as_str())),
            Content::Float(f) => {
                let text = float_text(f);
                Err(self.invalid_template_name(text.as_str()))
            },
            Content::Bool(true) => Err(self.invalid_template_name("True")),
            Content::Bool(false) => Err(self.invalid_template_name("False")),
        }
    }

    /// The keywords of the tag, if each of them lies in the template.
    pub fn keywords(&self, template: TemplateString<'_>) -> (r: Option<Vec<String>>)
        ensures
            match r {
                Some(names) => {
                    &&& keywords_lie(template@, self.kwargs@)
                    &&& views(names@) == keyword_texts(template@, self.kwargs@)
                },
                None => !keywords_lie(template@, self.kwargs@),
            },
    {
        let mut r: Vec<String> = Vec::new();
        let mut i: usize = 0;
        while i < self.kwargs.len()
            invariant
                0 <= i <= self.kwargs@.len(),
                forall|j: int|
                    0 <= j < i ==> is_span(template@, (#[trigger] self.kwargs@[j]).0),
                r@.len() == i,
                forall|j: int|
                    0 <= j < i ==> (#[trigger] r@[j])@ == span(template@, self.kwargs@[j].0),
            decreases self.kwargs@.len() - i,
        {
            match template.get(self.kwargs[i].0) {
                Some(name) => {
                    r.push(name.to_owned());
                },
                None => {
                    return None;
                },
            }
            i += 1;
        }
        assert(views(r@) =~= keyword_texts(template@, self.kwargs@));
        Some(r)
    }
}

/// The keywords of a tag lie in the template.
pub open spec fn keywords_lie(template: Seq<char>, kwargs: Seq<(At, TagElement<Integer>)>) -> bool {
    forall|i: int| 0 <= i < kwargs.len() ==> is_span(template, (#[trigger] kwargs[i]).0)
}

/// The keywords of a tag.
pub open spec fn keyword_texts(template: Seq<char>, kwargs: Seq<(At, TagElement<Integer>)>) -> Seq<
    Seq<char>,
> {
    kwargs.map_values(|kwarg: (At, TagElement<Integer>)| span(template, kwarg.0))
}

/// The context of a template that sees nothing but given values.
pub open spec fn fresh_context(context: ContextView, values: Seq<(String, PyObject)>) -> ContextView {
    ContextView {
        context: map_of(values).map_values(|value: PyObject| seq![value]),
        loops: Seq::empty(),
        request: context.request,
        autoescape: context.autoescape,
        names: Seq::empty(),
        include_cache: Map::empty(),
        cycle_indices: Map::empty(),
    }
}

/// The context without the last value of each of some names, one after the other.
pub open spec fn popped_in_turn(context: ContextView, names: Seq<Seq<char>>) -> ContextView
    decreases names.len(),
{
    if names.len() == 0 {
        context
    } else {
        popped_in_turn(context.popped(names[0]), names.drop_first())
    }
}

/// Adds values for the keywords of a tag, for as long as a template is rendered in its place.
pub fn append_keywords(context: &mut Context, names: &Vec<String>, values: &Vec<PyObject>)
    requires
        names@.len() == values@.len(),
    ensures
        final(context)@ == old(context)@.inserted_all(views(names@), values@, false),
        old(context)@.wf() ==> final(context)@.wf(),
        forall|key: Seq<char>| #[trigger]
            views(names@).contains(key) ==> final(context)@.context.contains_key(key),
{
    let ghost all = views(names@);
    let ghost base = context@;
    let mut i: usize = 0;
    assert(base.inserted_all(all.take(0), values@.take(0), false) == base);
    while i < names.len()
        invariant
            0 <= i <= names@.len(),
            names@.len() == values@.len(),
            all == views(names@),
            base == old(context)@,
            context@ == base.inserted_all(all.take(i as int), values@.take(i as int), false),
            base.wf() ==> context@.wf(),
            forall|j: int| 0 <= j < i ==> context@.context.contains_key(#[trigger] all[j]),
        decreases names@.len() - i,
    {
        assert(all.take(i + 1).drop_last() =~= all.take(i as int));
        assert(values@.take(i + 1).drop_last() =~= values@.take(i as int));
        assert(all.take(i + 1).last() == names@[i as int]@);
        context.append(names[i].clone(), values[i]);
        i += 1;
    }
    proof {
        assert(all.take(i as int) =~= all);
        assert(values@.take(i as int) =~= values@);
        assert forall|key: Seq<char>| #[trigger] all.contains(key) implies context@.context
            .contains_key(key) by {
            let j = choose|j: int| 0 <= j < all.len() && all[j] == key;
            assert(context@.context.contains_key(all[j]));
        }
    }
}

/// Takes the values for the keywords of a tag away again.
pub fn pop_keywords(context: &mut Context, names: &Vec<String>)
    requires
        forall|key: Seq<char>| #[trigger]
            views(names@).contains(key) ==> old(context)@.context.contains_key(key),
    ensures
        final(context)@ == popped_in_turn(old(context)@, views(names@)),
        old(context)@.wf() ==> final(context)@.wf(),
{
    let ghost all = views(names@);
    let ghost base = context@;
    let mut i: usize = 0;
    assert(all.skip(0) =~= all);
    while i < names.len()
        invariant
            0 <= i <= names@.len(),
            all == views(names@),
            base == old(context)@,
            popped_in_turn(base, all) == popped_in_turn(context@, all.skip(i as int)),
            base.wf() ==> context@.wf(),
            forall|key: Seq<char>| #[trigger]
                all.contains(key) ==> context@.context.contains_key(key),
        decreases names@.len() - i,
    {
        assert(all.skip(i as int)[0] == names@[i as int]@);
        assert(all.skip(i as int).drop_first() =~= all.skip(i + 1));
        assert(all.contains(all[i as int]));
        context.pop_variable(names[i].as_str());
        i += 1;
    }
}

/// The context of a template that sees nothing but the keywords of a tag.
pub fn inner_context(context: &Context, values: &Vec<(String, PyObject)>) -> (r: Context)
    ensures
        r@.wf(),
        r@ == fresh_context(context@, values@),
{
    Context::new(values, context.request(), context.autoescape())
}

/// The number of times that a name is among others.
pub open spec fn occurrences(names: Seq<Seq<char>>, key: Seq<char>) -> nat
    decreases names.len(),
{
    if names.len() == 0 {
        0
    } else {
        occurrences(names.drop_first(), key) + if names[0] == key {
            1nat
        } else {
            0nat
        }
    }
}

proof fn lemma_occurrences_split(names: Seq<Seq<char>>, key: Seq<char>)
    requires
        names.len() > 0,
    ensures
        occurrences(names, key) == occurrences(names.drop_last(), key) + if names.last() == key {
            1nat
        } else {
            0nat
        },
    decreases names.len(),
{
    if names.len() == 1 {
        assert(names.drop_last() =~= Seq::<Seq<char>>::empty());
        assert(names.drop_first() =~= Seq::<Seq<char>>::empty());
        reveal_with_fuel(occurrences, 2);
    } else {
        lemma_occurrences_split(names.drop_first(), key);
        assert(names.drop_first().drop_last() =~= names.drop_last().drop_first());
    }
}

proof fn lemma_appended(
    context: ContextView,
    names: Seq<Seq<char>>,
    values: Seq<PyObject>,
    key: Seq<char>,
)
    requires
        names.len() == values.len(),
    ensures
        ({
            let before = context.stack(key);
            let after = context.inserted_all(names, values, false).stack(key);
            &&& after.len() == before.len() + occurrences(names, key)
            &&& after.take(before.len() as int) == before
        }),
    decreases names.len(),
{
    let before = context.stack(key);
    if names.len() > 0 {
        lemma_occurrences_split(names, key);
        lemma_appended(context, names.drop_last(), values.drop_last(), key);
        let middle = context.inserted_all(names.drop_last(), values.drop_last(), false).stack(key);
        let after = context.inserted_all(names, values, false).stack(key);
        assert(after.take(before.len() as int) =~= middle.take(before.len() as int));
    } else {
        assert(before.take(before.len() as int) =~= before);
    }
}

proof fn lemma_popped_in_turn(context: ContextView, names: Seq<Seq<char>>, key: Seq<char>)
    requires
        occurrences(names, key) <= context.stack(key).len(),
    ensures
        popped_in_turn(context, names).stack(key) == context.stack(key).take(
            context.stack(key).len() - occurrences(names, key),
        ),
    decreases names.len(),
{
    let stack = context.stack(key);
    if names.len() > 0 {
        let next = context.popped(names[0]);
        if names[0] == key {
            assert(next.stack(key) =~= stack.drop_last());
        } else {
            assert(next.stack(key) == stack);
        }
        lemma_popped_in_turn(next, names.drop_first(), key);
        let left = stack.len() - occurrences(names, key);
        assert(next.stack(key).take(left) =~= stack.take(left));
    } else {
        assert(stack.take(stack.len() as int) =~= stack);
    }
}

/// Taking the values for the keywords of a tag away leaves every name with the value that it had
/// before they were added, even where a keyword is given twice.
pub proof fn law_keywords_are_taken_back(
    context: ContextView,
    names: Seq<Seq<char>>,
    values: Seq<PyObject>,
)
    requires
        names.len() == values.len(),
    ensures
        same_values(popped_in_turn(context.inserted_all(names, values, false), names), context),
{
    let added = context.inserted_all(names, values, false);
    let after = popped_in_turn(added, names);
    assert forall|key: Seq<char>| #[trigger] after.lookup(key) == context.lookup(key) by {
        lemma_appended(context, names, values, key);
        lemma_popped_in_turn(added, names, key);
        assert(after.stack(key) == context.stack(key));
    }
}

/// The arguments that the function behind a tag around other nodes is called with: the nodes come
/// first.
pub fn block_arguments(content: PyObject, args: &Vec<PyObject>) -> (r: Vec<PyObject>)
    ensures
        r@ == seq![content] + args@,
{
    let mut r: Vec<PyObject> = Vec::new();
    r.push(content);
    let mut i: usize = 0;
    assert(r@ =~= seq![content] + args@.take(0));
    while i < args.len()
        invariant
            0 <= i <= args@.len(),
            r@ == seq![content] + args@.take(i as int),
        decreases args@.len() - i,
    {
        r.push(args[i]);
        i += 1;
        assert(r@ =~= seq![content] + args@.take(i as int));
    }
    assert(args@.take(i as int) =~= args@);
    r
}

/// A format of dates that goes by a name, or the standard one.
pub open spec fn is_named_format(format: Seq<char>) -> bool {
    format == ""@ || format == "DATE_FORMAT"@ || format == "DATETIME_FORMAT"@ || format
        == "SHORT_DATE_FORMAT"@ || format == "SHORT_DATETIME_FORMAT"@ || format
        == "YEAR_MONTH_FORMAT"@ || format == "MONTH_DAY_FORMAT"@ || format == "TIME_FORMAT"@
}

impl Now<String> {
    /// Whether the format goes by a name, or is the standard one.
    pub fn uses_named_format(&self) -> (r: bool)
        ensures
            r == is_named_format(self.format@),
    {
        let format = self.format.as_str();
        str_eq(format, "") || str_eq(format, "DATE_FORMAT") || str_eq(format, "DATETIME_FORMAT")
            || str_eq(format, "SHORT_DATE_FORMAT") || str_eq(format, "SHORT_DATETIME_FORMAT")
            || str_eq(format, "YEAR_MONTH_FORMAT") || str_eq(format, "MONTH_DAY_FORMAT") || str_eq(
            format,
            "TIME_FORMAT",
        )
    }
}

/// What the token against forged requests is.
#[derive(Debug)]
pub struct CsrfValue {
    /// The token, if it is a string.
    pub string: Option<String>,
    pub is_truthy: Result<bool, PyObject>,
    /// What is written of it.
    pub text: Result<String, PyObject>,
}

/// The input field that holds a token.
pub open spec fn input_field(token: Seq<char>) -> Seq<char> {
    "<input type=\"hidden\" name=\"csrfmiddlewaretoken\" value=\""@ + escaped(token) + "\">"@
}

/// What is written of a token: nothing, where there is none or it was not provided.
pub open spec fn csrf_text(token: CsrfValue) -> Result<Seq<char>, PyObject> {
    match token.string {
        Some(s) => Ok(
            if s@ == ""@ || s@ == "NOTPROVIDED"@ {
                ""@
            } else {
                input_field(s@)
            },
        ),
        None => match token.is_truthy {
            Err(e) => Err(e),
            Ok(false) => Ok(""@),
            Ok(true) => match token.text {
                Ok(s) => Ok(input_field(s@)),
                Err(e) => Err(e),
            },
        },
    }
}

impl CsrfToken {
    /// What is said where there is no token.
    pub open spec fn warning() -> Seq<char> {
        "A {% csrf_token %} was used in a template, but the context did not provide the value.  This is usually caused by not providing a request."@
    }

    /// What is said where there is no token.
    pub fn missing_warning() -> (r: &'static str)
        ensures
            r@ == CsrfToken::warning(),
    {
        "A {% csrf_token %} was used in a template, but the context did not provide the value.  This is usually caused by not providing a request."
    }

    /// The input field that holds a token.
    pub fn input_html(token: &str) -> (r: String)
        ensures
            r@ == input_field(token@),
    {
        let mut html =
            "<input type=\"hidden\" name=\"csrfmiddlewaretoken\" value=\"".to_owned();
        let value = ContentString::HtmlUnsafe(token.to_owned()).content();
        html.append(value.as_str());
        html.append("\">");
        html
    }

    /// What is written of a token.
    pub fn render_token(token: CsrfValue) -> (r: Result<String, PyObject>)
        ensures
            match r {
                Ok(text) => csrf_text(token) == Ok::<_, PyObject>(text@),
                Err(e) => csrf_text(token) == Err::<Seq<char>, _>(e),
            },
    {
        match token.string {
            Some(s) => {
                if str_eq(s.as_str(), "") || str_eq(s.as_str(), "NOTPROVIDED") {
                    Ok("".to_owned())
                } else {
                    Ok(CsrfToken::input_html(s.as_str()))
                }
            },
            None => match token.is_truthy {
                Err(e) => Err(e),
                Ok(false) => Ok("".to_owned()),
                Ok(true) => match token.text {
                    Ok(s) => Ok(CsrfToken::input_html(s.as_str())),
                    Err(e) => Err(e),
                },
            },
        }
    }
}

/// What placeholder text consists of.
#[derive(Clone, Copy, Debug, PartialEq, Eq, Structural)]
pub enum LoremPlan {
    Nothing,
    Words(usize),
    /// Paragraphs, in tags or not.
    Paragraphs { count: usize, wrapped: bool },
}

/// What placeholder text consists of, for a count. Where there are common words, a count below
/// zero leaves off some of them.
pub open spec fn lorem_plan(method: LoremMethod, common: bool, count: i64, common_words: usize) ->
    LoremPlan {
    match method {
        LoremMethod::Words => LoremPlan::Words(
            if count >= 0 {
                count as usize
            } else if common && common_words + count > 0 {
                (common_words + count) as usize
            } else {
                0
            },
        ),
        _ => if count <= 0 {
            LoremPlan::Nothing
        } else {
            LoremPlan::Paragraphs { count: count as usize, wrapped: method is Paragraphs }
        },
    }
}

/// The count that a value stands for: one, where it stands for none.
pub open spec fn count_value(count: Option<Integer>) -> i64 {
    match count {
        Some(n) => if i64::MIN <= n@ <= i64::MAX {
            n@ as i64
        } else {
            1
        },
        None => 1,
    }
}

/// Paragraphs put together, in tags or not.
pub open spec fn paragraphs_text(paragraphs: Seq<Seq<char>>, wrapped: bool) -> Seq<char> {
    joined_by(
        if wrapped {
            paragraphs.map_values(|text: Seq<char>| in_paragraph(text))
        } else {
            paragraphs
        },
        "\n\n"@,
    )
}

/// A paragraph in tags.
pub open spec fn in_paragraph(text: Seq<char>) -> Seq<char> {
    "<p>"@ + text + "</p>"@
}

impl Lorem<Integer> {
    /// The count that a value stands for: one, where it stands for none.
    pub fn count_of(count: &Option<Integer>) -> (r: i64)
        ensures
            r == count_value(*count),
    {
        match count {
            Some(n) => match n.to_i64() {
                Some(n) => n,
                None => 1,
            },
            None => 1,
        }
    }

    /// What the text consists of, for a count. `common_words` is the number of common words.
    pub fn plan(&self, count: i64, common_words: usize) -> (r: LoremPlan)
        requires
            common_words <= i64::MAX,
        ensures
            r == lorem_plan(self.method, self.common, count, common_words),
    {
        match self.method {
            LoremMethod::Words => {
                if count >= 0 {
                    LoremPlan::Words(count as usize)
                } else if self.common {
                    let left: i64 = common_words as i64 + count;
                    if left > 0 {
                        LoremPlan::Words(left as usize)
                    } else {
                        LoremPlan::Words(0)
                    }
                } else {
                    LoremPlan::Words(0)
                }
            },
            LoremMethod::Paragraphs => {
                if count <= 0 {
                    LoremPlan::Nothing
                } else {
                    LoremPlan::Paragraphs { count: count as usize, wrapped: true }
                }
            },
            LoremMethod::Blocks => {
                if count <= 0 {
                    LoremPlan::Nothing
                } else {
                    LoremPlan::Paragraphs { count: count as usize, wrapped: false }
                }
            },
        }
    }

    /// Puts paragraphs together, in tags or not.
    pub fn join_paragraphs(paragraphs: &Vec<String>, wrapped: bool) -> (r: String)
        ensures
            r@ == paragraphs_text(views(paragraphs@), wrapped),
    {
        if !wrapped {
            return join(paragraphs, "\n\n");
        }
        let mut texts: Vec<String> = Vec::new();
        let mut i: usize = 0;
        while i < paragraphs.len()
            invariant
                0 <= i <= paragraphs@.len(),
                texts@.len() == i,
                forall|j: int|
                    0 <= j < i ==> (#[trigger] texts@[j])@ == in_paragraph(paragraphs@[j]@),
            decreases paragraphs@.len() - i,
        {
            let mut text = "<p>".to_owned();
            text.append(paragraphs[i].as_str());
            text.append("</p>");
            texts.push(text);
            i += 1;
        }
        assert(views(texts@) =~= views(paragraphs@).map_values(
            |text: Seq<char>| in_paragraph(text),
        ));
        join(&texts, "\n\n")
    }
}

impl SimpleCycle {
    /// The value whose turn it is.
    pub fn next_value(&self, context: &mut Context) -> (r: &TagElement<Integer>)
        requires
            self.values@.len() > 0,
        ensures
            ({
                let index = next_index(
                    old(context)@.cycle_indices,
                    self.id,
                    self.values@.len() as usize,
                );
                &&& index < self.values@.len()
                &&& *r == self.values@[index as int]
                &&& final(context)@ == (ContextView {
                    cycle_indices: old(context)@.cycle_indices.insert(self.id.0, index),
                    ..old(context)@
                })
            }),
            old(context)@.wf() ==> final(context)@.wf(),
    {
        let length = self.values.len();
        let index = context.next_cycle_index(self.id, length);
        &self.values[index]
    }
}

impl Cycle {
    /// The values of the cycle.
    pub fn simple(&self) -> (r: &SimpleCycle)
        ensures
            *r == (match *self {
                Cycle::Simple(cycle) => cycle,
                Cycle::Named(cycle) => cycle.cycle,
                Cycle::SilentNamed(cycle) => cycle.cycle.cycle,
            }),
    {
        match self {
            Cycle::Simple(cycle) => cycle,
            Cycle::Named(cycle) => &cycle.cycle,
            Cycle::SilentNamed(cycle) => &cycle.cycle.cycle,
        }
    }

    /// The variable of the cycle, if it has one.
    pub fn named(&self) -> (r: Option<&NamedCycle>)
        ensures
            r == (match *self {
                Cycle::Simple(_) => None,
                Cycle::Named(cycle) => Some(&cycle),
                Cycle::SilentNamed(cycle) => Some(&cycle.cycle),
            }),
    {
        match self {
            Cycle::Simple(_) => None,
            Cycle::Named(cycle) => Some(cycle),
            Cycle::SilentNamed(cycle) => Some(&cycle.cycle),
        }
    }

    /// Whether the value whose turn it is gets written.
    pub fn is_shown(&self) -> (r: bool)
        ensures
            r == !(self is SilentNamed),
    {
        match self {
            Cycle::SilentNamed(_) => false,
            _ => true,
        }
    }
}

} // verus!
