//! Rendering tags that stand on their own.
use vstd::prelude::*;
use vstd::string::*;
use crate::dict::views;
use crate::integer::{decimal, Integer};
use crate::parse::tree::{
    Cycle, CsrfToken, FirstOf, Lorem, Now, SimpleCycle, SimpleTag, TagElement, Url,
};
use crate::render::condition::{
    first_true_value, resolve_element, resolves, Failures, Side,
};
use crate::render::content::{AsBorrowedContent, Content};
use crate::render::context::{next_index, Context, ContextView};
use crate::render::errors::PyRenderError;
use crate::render::host::{
    arguments_give, arguments_view, is_empty_text, keywords_give, keywords_view, make_arguments,
    make_keywords, make_text_object, nothing, shown, text_object, write_content, written, Called,
    Conversion, Fault, Host, Rendered, Shown,
};
use crate::render::tags::{
    app_at_hand, count_value, csrf_text, current_app, is_named_format, lorem_plan, paragraphs_text,
    url_concluded, CsrfValue, LoremPlan, RequestApp, ReverseError,
};
use crate::text::{is_span, span, At, TemplateString};
use crate::types::{Float, PyObject};

verus! {

/// What may be written of a value, or nothing where there is none.
pub open spec fn written_or_nothing<H: Host>(
    host: &H,
    content: Option<Content>,
    autoescape: bool,
    outcome: Shown,
) -> bool {
    match content {
        Some(content) => written(host, content, autoescape, outcome),
        None => outcome == nothing(),
    }
}

/// Writes a value, or nothing where there is none.
fn write_or_nothing<H: Host>(host: &H, content: Option<Content>, context: &Context) -> (r: Rendered)
    ensures
        written_or_nothing(host, content, context@.autoescape, shown(r)),
{
    match content {
        Some(content) => write_content(host, content, context),
        None => Ok("".to_owned()),
    }
}

/// The tree or the context is not what it must be.
pub open spec fn broken() -> Shown {
    Err(Fault::Broken)
}

/// The values of a cycle.
pub open spec fn simple_of(cycle: Cycle) -> SimpleCycle {
    match cycle {
        Cycle::Simple(cycle) => cycle,
        Cycle::Named(cycle) => cycle.cycle,
        Cycle::SilentNamed(cycle) => cycle.cycle.cycle,
    }
}

/// The value of a cycle whose turn it is.
pub open spec fn element_in_turn(cycle: SimpleCycle, context: ContextView) -> TagElement<Integer> {
    cycle.values@[next_index(
        context.cycle_indices,
        cycle.id,
        cycle.values@.len() as usize,
    ) as int]
}

/// The context after a cycle has had a turn.
pub open spec fn after_turn(cycle: SimpleCycle, context: ContextView) -> ContextView {
    ContextView {
        cycle_indices: context.cycle_indices.insert(
            cycle.id.0,
            next_index(context.cycle_indices, cycle.id, cycle.values@.len() as usize),
        ),
        ..context
    }
}

/// What becomes of a cycle and of the context.
pub open spec fn cycle_renders<H: Host>(
    host: &H,
    cycle: Cycle,
    before: Context,
    after: Context,
    outcome: Shown,
) -> bool {
    let simple = simple_of(cycle);
    if simple.values@.len() == 0 {
        after@ == before@ && outcome == broken()
    } else {
        exists|turned: Context, side: Side|
            {
                &&& turned@ == after_turn(simple, before@)
                &&& #[trigger] resolves(
                    host,
                    element_in_turn(simple, before@),
                    Failures::Raise,
                    turned,
                    side,
                )
                &&& match side {
                    Err(e) => after@ == turned@ && outcome == Err::<Seq<char>, _>(e@),
                    Ok(content) => match cycle {
                        Cycle::Simple(_) => {
                            &&& after@ == turned@
                            &&& written_or_nothing(host, content, after@.autoescape, outcome)
                        },
                        Cycle::Named(named) => {
                            &&& value_stored(host, content, named.asvar, turned@, after@)
                            &&& written_or_nothing(host, content, after@.autoescape, outcome)
                        },
                        Cycle::SilentNamed(silent) => {
                            &&& value_stored(host, content, silent.cycle.asvar, turned@, after@)
                            &&& outcome == nothing()
                        },
                    },
                }
            }
    }
}

/// A value has been stored under a name: an empty string, where there is none.
pub open spec fn value_stored<H: Host>(
    host: &H,
    content: Option<Content>,
    name: String,
    before: ContextView,
    after: ContextView,
) -> bool {
    exists|object: PyObject|
        {
            &&& #[trigger] text_object(host, content, Ok(object))
            &&& after == before.inserted(name@, object, true)
        }
}

/// Stores a value under a name.
fn store_value<H: Host>(
    host: &H,
    content: &Option<Content>,
    name: &String,
    context: &mut Context,
)
    ensures
        value_stored(host, *content, *name, old(context)@, final(context)@),
{
    let object = make_text_object(host, content);
    assert(text_object(host, *content, Ok(object)));
    context.insert(name.clone(), object);
}

impl Cycle {
    /// Renders the value whose turn it is.
    pub fn render<H: Host>(&self, host: &H, context: &mut Context) -> (r: Rendered)
        ensures
            cycle_renders(host, *self, *old(context), *final(context), shown(r)),
    {
        let simple = self.simple();
        if simple.values.len() == 0 {
            return Err(PyRenderError::Broken);
        }
        let ghost before = context@;
        let element = simple.next_value(context);
        let ghost turned = *context;
        let side = resolve_element(host, element, Failures::Raise, context);
        assert(*element == element_in_turn(*simple, before));
        assert(turned@ == after_turn(*simple, before));
        assert(resolves(
            host,
            element_in_turn(simple_of(*self), before),
            Failures::Raise,
            turned,
            side,
        ));
        let content = match side {
            Ok(content) => content,
            Err(e) => {
                return Err(e);
            },
        };
        match self.named() {
            Some(named) => store_value(host, &content, &named.asvar, context),
            None => {},
        }
        if self.is_shown() {
            write_or_nothing(host, content, context)
        } else {
            Ok("".to_owned())
        }
    }
}

/// What may be written in place of the token against forged requests.
pub open spec fn csrf_renders<H: Host>(host: &H, context: ContextView, outcome: Shown) -> bool {
    match context.lookup("csrf_token"@) {
        Some(token) => exists|value: CsrfValue|
            {
                &&& #[trigger] call_ensures(H::csrf_value, (host, token), value)
                &&& outcome == (match csrf_text(value) {
                    Ok(text) => Ok(text),
                    Err(e) => Err(Fault::PyErr(e)),
                })
            },
        None => exists|debug: Result<bool, PyObject>|
            {
                &&& #[trigger] call_ensures(H::debug, (host,), debug)
                &&& match debug {
                    Err(e) => outcome == Err::<Seq<char>, _>(Fault::PyErr(e)),
                    Ok(false) => outcome == nothing(),
                    Ok(true) => exists|message: &str, warned: Result<(), PyObject>|
                        {
                            &&& message@ == CsrfToken::warning()
                            &&& #[trigger] call_ensures(H::warn, (host, message), warned)
                            &&& outcome == (match warned {
                                Ok(_) => nothing(),
                                Err(e) => Err(Fault::PyErr(e)),
                            })
                        },
                }
            },
    }
}

impl CsrfToken {
    /// Renders the token of the context, or warns where there is none.
    pub fn render<H: Host>(&self, host: &H, context: &Context) -> (r: Rendered)
        ensures
            csrf_renders(host, context@, shown(r)),
    {
        match context.get("csrf_token") {
            Some(token) => {
                let value = host.csrf_value(token);
                assert(call_ensures(H::csrf_value, (host, token), value));
                match CsrfToken::render_token(value) {
                    Ok(text) => Ok(text),
                    Err(e) => Err(PyRenderError::PyErr(e)),
                }
            },
            None => {
                let debug = host.debug();
                assert(call_ensures(H::debug, (host,), debug));
                match debug {
                    Err(e) => Err(PyRenderError::PyErr(e)),
                    Ok(false) => Ok("".to_owned()),
                    Ok(true) => {
                        let message = CsrfToken::missing_warning();
                        let warned = host.warn(message);
                        assert(call_ensures(H::warn, (host, message), warned));
                        match warned {
                            Ok(_) => Ok("".to_owned()),
                            Err(e) => Err(PyRenderError::PyErr(e)),
                        }
                    },
                }
            },
        }
    }
}

/// The integer that a value may stand for.
pub open spec fn counts<H: Host>(host: &H, content: Option<Content>, count: Option<Integer>) -> bool {
    match content {
        None => count is None,
        Some(Content::Int(n)) => count matches Some(m) && m@ == n@,
        Some(Content::String(s)) => match decimal(s@.raw()) {
            Some(n) => count matches Some(m) && m@ == n,
            None => count is None,
        },
        Some(Content::Float(float)) => call_ensures(H::whole, (host, float), count),
        Some(Content::Py(object)) => call_ensures(H::integer, (host, object), count),
        Some(Content::Bool(b)) => count matches Some(m) && m@ == (if b {
            1int
        } else {
            0int
        }),
    }
}

/// What may be written in place of placeholder text.
pub open spec fn lorem_renders<H: Host>(
    host: &H,
    lorem: Lorem<Integer>,
    context: Context,
    outcome: Shown,
) -> bool {
    exists|side: Side|
        {
            &&& #[trigger] resolves(
                host,
                lorem.count,
                Failures::IgnoreVariableDoesNotExist,
                context,
                side,
            )
            &&& match side {
                Err(e) => outcome == Err::<Seq<char>, _>(e@),
                Ok(content) => exists|count: Option<Integer>, common_words: u32|
                    {
                        &&& #[trigger] counts(host, content, count)
                        &&& #[trigger] call_ensures(H::common_words, (host,), common_words)
                        &&& plan_renders(
                            host,
                            lorem_plan(
                                lorem.method,
                                lorem.common,
                                count_value(count),
                                common_words as usize,
                            ),
                            lorem.common,
                            outcome,
                        )
                    },
            }
        }
}

/// What may be written of placeholder text that consists of something.
pub open spec fn plan_renders<H: Host>(
    host: &H,
    plan: LoremPlan,
    common: bool,
    outcome: Shown,
) -> bool {
    match plan {
        LoremPlan::Nothing => outcome == nothing(),
        LoremPlan::Words(count) => exists|words: String|
            {
                &&& #[trigger] call_ensures(H::words, (host, count, common), words)
                &&& outcome == Ok::<_, Fault>(words@)
            },
        LoremPlan::Paragraphs { count, wrapped } => exists|paragraphs: Vec<String>|
            {
                &&& #[trigger] call_ensures(H::paragraphs, (host, count, common), paragraphs)
                &&& outcome == Ok::<_, Fault>(paragraphs_text(views(paragraphs@), wrapped))
            },
    }
}

impl Lorem<Integer> {
    /// Renders placeholder text.
    pub fn render<H: Host>(&self, host: &H, context: &Context) -> (r: Rendered)
        ensures
            lorem_renders(host, *self, *context, shown(r)),
    {
        let side = resolve_element(
            host,
            &self.count,
            Failures::IgnoreVariableDoesNotExist,
            context,
        );
        assert(resolves(
            host,
            self.count,
            Failures::IgnoreVariableDoesNotExist,
            *context,
            side,
        ));
        let content = match side {
            Ok(content) => content,
            Err(e) => {
                return Err(e);
            },
        };
        let count = match &content {
            Some(content) => {
                let integer = |object: PyObject| -> (n: Option<Integer>)
                    ensures
                        call_ensures(H::integer, (host, object), n),
                    { host.integer(object) };
                let whole = |float: Float| -> (n: Option<Integer>)
                    ensures
                        call_ensures(H::whole, (host, float), n),
                    { host.whole(float) };
                content.to_bigint(integer, whole)
            },
            None => None,
        };
        assert(counts(host, content, count));
        let common_words = host.common_words();
        assert(call_ensures(H::common_words, (host,), common_words));
        let plan = self.plan(Lorem::count_of(&count), common_words as usize);
        match plan {
            LoremPlan::Nothing => Ok("".to_owned()),
            LoremPlan::Words(n) => {
                let words = host.words(n, self.common);
                assert(call_ensures(H::words, (host, n, self.common), words));
                Ok(words)
            },
            LoremPlan::Paragraphs { count: n, wrapped } => {
                let paragraphs = host.paragraphs(n, self.common);
                assert(call_ensures(H::paragraphs, (host, n, self.common), paragraphs));
                Ok(Lorem::join_paragraphs(&paragraphs, wrapped))
            },
        }
    }
}

/// What becomes of the first of some values that is true, and of the context.
pub open spec fn firstof_renders<H: Host>(
    host: &H,
    tag: FirstOf,
    before: Context,
    after: Context,
    outcome: Shown,
) -> bool {
    exists|side: Side|
        {
            &&& #[trigger] first_true_value(host, before, tag.vars@, side)
            &&& match side {
                Err(e) => after@ == before@ && outcome == Err::<Seq<char>, _>(e@),
                Ok(content) => match tag.asvar {
                    Some(name) => {
                        &&& value_stored(host, content, name, before@, after@)
                        &&& outcome == nothing()
                    },
                    None => {
                        &&& after@ == before@
                        &&& written_or_nothing(host, content, before@.autoescape, outcome)
                    },
                },
            }
        }
}

impl FirstOf {
    /// Renders the first of the values that is true.
    pub fn render<H: Host>(&self, host: &H, context: &mut Context) -> (r: Rendered)
        ensures
            firstof_renders(host, *self, *old(context), *final(context), shown(r)),
    {
        let side = self.first_true(host, context);
        assert(first_true_value(host, *old(context), self.vars@, side));
        match side {
            Err(e) => Err(e),
            Ok(content) => match &self.asvar {
                Some(name) => {
                    store_value(host, &content, name, context);
                    Ok("".to_owned())
                },
                None => write_or_nothing(host, content, context),
            },
        }
    }
}

/// What becomes of the current date, and of the context.
pub open spec fn now_renders<H: Host>(
    host: &H,
    template: Seq<char>,
    now: Now<String>,
    before: ContextView,
    after: ContextView,
    outcome: Shown,
) -> bool {
    exists|named: bool, date: Result<PyObject, PyObject>|
        {
            &&& named == is_named_format(now.format@)
            &&& #[trigger] call_ensures(H::now, (host, &now.format, named), date)
            &&& match date {
                Err(e) => after == before && outcome == Err::<Seq<char>, _>(Fault::PyErr(e)),
                Ok(date) => match now.asvar {
                    Some(at) => if is_span(template, at) {
                        &&& after == before.inserted(span(template, at), date, true)
                        &&& outcome == nothing()
                    } else {
                        after == before && outcome == broken()
                    },
                    None => {
                        &&& after == before
                        &&& exists|text: Result<String, PyObject>|
                            {
                                &&& #[trigger] call_ensures(H::string_text, (host, date), text)
                                &&& outcome == (match text {
                                    Ok(text) => Ok(text@),
                                    Err(e) => Err(Fault::PyErr(e)),
                                })
                            }
                    },
                },
            }
        }
}

impl Now<String> {
    /// Renders the current date, or stores it.
    pub fn render<H: Host>(
        &self,
        host: &H,
        template: TemplateString<'_>,
        context: &mut Context,
    ) -> (r: Rendered)
        ensures
            now_renders(host, template@, *self, old(context)@, final(context)@, shown(r)),
    {
        let named = self.uses_named_format();
        let date = host.now(&self.format, named);
        assert(call_ensures(H::now, (host, &self.format, named), date));
        match date {
            Err(e) => Err(PyRenderError::PyErr(e)),
            Ok(date) => match self.asvar {
                Some(at) => match template.get(at) {
                    Some(name) => {
                        context.insert(name.to_owned(), date);
                        Ok("".to_owned())
                    },
                    None => Err(PyRenderError::Broken),
                },
                None => {
                    let text = host.string_text(date);
                    assert(call_ensures(H::string_text, (host, date), text));
                    match text {
                        Ok(text) => Ok(text),
                        Err(e) => Err(PyRenderError::PyErr(e)),
                    }
                },
            },
        }
    }
}

/// The application at hand may be something.
pub open spec fn app_given<H: Host>(
    host: &H,
    request: Option<PyObject>,
    app: Result<Option<PyObject>, PyObject>,
) -> bool {
    match request {
        None => app == app_at_hand(None),
        Some(request) => exists|said: RequestApp|
            {
                &&& #[trigger] call_ensures(H::request_app, (host, request), said)
                &&& app == app_at_hand(Some(said))
            },
    }
}

/// The application at hand.
fn give_app<H: Host>(host: &H, request: Option<PyObject>) -> (r: Result<Option<PyObject>, PyObject>)
    ensures
        app_given(host, request, r),
{
    match request {
        None => current_app(None),
        Some(request) => {
            let said = host.request_app(request);
            assert(call_ensures(H::request_app, (host, request), said));
            current_app(Some(said))
        },
    }
}

/// What looking a URL up may give: an error of one of its arguments comes first.
pub open spec fn url_found<H: Host>(
    host: &H,
    tag: Url,
    context: Context,
    reverse: PyObject,
    view_name: Content,
    app: Option<PyObject>,
    outcome: Result<Result<PyObject, ReverseError>, Fault>,
) -> bool {
    if tag.kwargs@.len() == 0 {
        exists|args: Result<Seq<PyObject>, Fault>|
            {
                &&& #[trigger] arguments_give(
                    host,
                    context,
                    tag.args@,
                    Conversion::PythonOrEmpty,
                    Seq::empty(),
                    args,
                )
                &&& match args {
                    Err(e) => outcome == Err::<Result<PyObject, ReverseError>, _>(e),
                    Ok(args) => exists|given: Vec<PyObject>, url: Result<PyObject, ReverseError>|
                        {
                            &&& given@ == args
                            &&& #[trigger] call_ensures(
                                H::reverse_args,
                                (host, reverse, &view_name, &given, app),
                                url,
                            )
                            &&& outcome == Ok::<_, Fault>(url)
                        },
                }
            }
    } else {
        exists|kwargs: Result<Seq<(String, PyObject)>, Fault>|
            {
                &&& #[trigger] keywords_give(host, context, tag.kwargs@, kwargs)
                &&& match kwargs {
                    Err(e) => outcome == Err::<Result<PyObject, ReverseError>, _>(e),
                    Ok(kwargs) => exists|
                        given: Vec<(String, PyObject)>,
                        url: Result<PyObject, ReverseError>,
                    |
                        {
                            &&& given@ == kwargs
                            &&& #[trigger] call_ensures(
                                H::reverse_kwargs,
                                (host, reverse, &view_name, &given, app),
                                url,
                            )
                            &&& outcome == Ok::<_, Fault>(url)
                        },
                }
            }
    }
}

/// A value, or the empty string where there is none.
pub open spec fn is_or_empty(content: Option<Content>, outcome: Content) -> bool {
    match content {
        Some(content) => outcome == content,
        None => is_empty_text(outcome),
    }
}

/// The view of the outcome of looking a URL up.
pub open spec fn url_view(
    outcome: Result<Result<PyObject, ReverseError>, PyRenderError<String>>,
) -> Result<Result<PyObject, ReverseError>, Fault> {
    match outcome {
        Ok(url) => Ok(url),
        Err(e) => Err(e@),
    }
}

/// Looks a URL up.
fn find_url<H: Host>(
    host: &H,
    tag: &Url,
    context: &Context,
    reverse: PyObject,
    view_name: &Content,
    app: Option<PyObject>,
) -> (r: Result<Result<PyObject, ReverseError>, PyRenderError<String>>)
    ensures
        url_found(
            host,
            *tag,
            *context,
            reverse,
            *view_name,
            app,
            url_view(r),
        ),
{
    if tag.kwargs.len() == 0 {
        let args = make_arguments(host, context, &tag.args, Conversion::PythonOrEmpty);
        assert(arguments_give(
            host,
            *context,
            tag.args@,
            Conversion::PythonOrEmpty,
            Seq::empty(),
            arguments_view(args),
        ));
        match args {
            Err(e) => Err(e),
            Ok(args) => {
                let url = host.reverse_args(reverse, view_name, &args, app);
                assert(call_ensures(
                    H::reverse_args,
                    (host, reverse, view_name, &args, app),
                    url,
                ));
                Ok(url)
            },
        }
    } else {
        let kwargs = make_keywords(host, context, &tag.kwargs);
        assert(keywords_give(host, *context, tag.kwargs@, keywords_view(kwargs)));
        match kwargs {
            Err(e) => Err(e),
            Ok(kwargs) => {
                let url = host.reverse_kwargs(reverse, view_name, &kwargs, app);
                assert(call_ensures(
                    H::reverse_kwargs,
                    (host, reverse, view_name, &kwargs, app),
                    url,
                ));
                Ok(url)
            },
        }
    }
}

/// What becomes of a URL, and of the context.
pub open spec fn url_renders<H: Host>(
    host: &H,
    tag: Url,
    before: Context,
    after: Context,
    outcome: Shown,
) -> bool {
    exists|view: Side|
        {
            &&& #[trigger] resolves(host, tag.view_name, Failures::Raise, before, view)
            &&& match view {
                Err(e) => after@ == before@ && outcome == Err::<Seq<char>, _>(e@),
                Ok(view) => exists|reverse: Result<PyObject, PyObject>|
                    {
                        &&& #[trigger] call_ensures(H::reverse, (host,), reverse)
                        &&& match reverse {
                            Err(e) => {
                                &&& after@ == before@
                                &&& outcome == Err::<Seq<char>, _>(Fault::PyErr(e))
                            },
                            Ok(reverse) => url_renders_by(
                                host,
                                tag,
                                before,
                                after,
                                reverse,
                                view,
                                outcome,
                            ),
                        }
                    },
            }
        }
}

/// What becomes of a URL once the function that looks it up is known.
pub open spec fn url_renders_by<H: Host>(
    host: &H,
    tag: Url,
    before: Context,
    after: Context,
    reverse: PyObject,
    view: Option<Content>,
    outcome: Shown,
) -> bool {
    exists|app: Result<Option<PyObject>, PyObject>|
        {
            &&& #[trigger] app_given(host, before@.request, app)
            &&& match app {
                Err(e) => {
                    &&& after@ == before@
                    &&& outcome == Err::<Seq<char>, _>(Fault::PyErr(e))
                },
                Ok(app) => url_looked_up(host, tag, before, after, reverse, view, app, outcome),
            }
        }
}

/// What becomes of a URL once it is known how to look it up.
pub open spec fn url_looked_up<H: Host>(
    host: &H,
    tag: Url,
    before: Context,
    after: Context,
    reverse: PyObject,
    view: Option<Content>,
    app: Option<PyObject>,
    outcome: Shown,
) -> bool {
    exists|name: Content, found: Result<Result<PyObject, ReverseError>, Fault>|
        {
            &&& is_or_empty(view, name)
            &&& #[trigger] url_found(host, tag, before, reverse, name, app, found)
            &&& match found {
                Err(e) => after@ == before@ && outcome == Err::<Seq<char>, _>(e),
                Ok(url) => exists|content: Side|
                    {
                        &&& #[trigger] url_concluded(tag, url, before@, after@, content)
                        &&& match content {
                            Err(e) => outcome == Err::<Seq<char>, _>(e@),
                            Ok(content) => written_or_nothing(
                                host,
                                content,
                                after@.autoescape,
                                outcome,
                            ),
                        }
                    },
            }
        }
}

impl Url {
    /// Renders the URL, or stores it.
    pub fn render<H: Host>(&self, host: &H, context: &mut Context) -> (r: Rendered)
        ensures
            url_renders(host, *self, *old(context), *final(context), shown(r)),
    {
        let view = resolve_element(host, &self.view_name, Failures::Raise, context);
        assert(resolves(host, self.view_name, Failures::Raise, *old(context), view));
        let view = match view {
            Ok(view) => view,
            Err(e) => {
                return Err(e);
            },
        };
        let ghost said = view;
        let reverse = host.reverse();
        assert(call_ensures(H::reverse, (host,), reverse));
        let reverse = match reverse {
            Ok(reverse) => reverse,
            Err(e) => {
                return Err(PyRenderError::PyErr(e));
            },
        };
        let r = self.render_by(host, reverse, view, context);
        assert(url_renders_by(host, *self, *old(context), *context, reverse, said, shown(r)));
        r
    }

    /// Renders the URL that a function finds, or stores it.
    fn render_by<H: Host>(
        &self,
        host: &H,
        reverse: PyObject,
        view: Option<Content>,
        context: &mut Context,
    ) -> (r: Rendered)
        ensures
            url_renders_by(
                host,
                *self,
                *old(context),
                *final(context),
                reverse,
                view,
                shown(r),
            ),
    {
        let app = give_app(host, context.request());
        assert(app_given(host, old(context)@.request, app));
        let app = match app {
            Ok(app) => app,
            Err(e) => {
                return Err(PyRenderError::PyErr(e));
            },
        };
        let ghost said = view;
        let name = match view {
            Some(name) => name,
            None => "".as_content(),
        };
        assert(is_or_empty(said, name));
        let found = find_url(host, self, context, reverse, &name, app);
        assert(url_found(host, *self, *old(context), reverse, name, app, url_view(found)));
        let url = match found {
            Ok(url) => url,
            Err(e) => {
                assert(url_looked_up(
                    host,
                    *self,
                    *old(context),
                    *context,
                    reverse,
                    said,
                    app,
                    Err(e@),
                ));
                return Err(e);
            },
        };
        let content = self.conclude(url, context);
        assert(url_concluded(*self, url, old(context)@, context@, content));
        let r = match content {
            Err(e) => Err(e),
            Ok(content) => write_or_nothing(host, content, context),
        };
        assert(url_looked_up(
            host,
            *self,
            *old(context),
            *context,
            reverse,
            said,
            app,
            shown(r),
        ));
        r
    }
}

/// What is shown of what calling a function with the context gave.
pub open spec fn called_shown(called: Called, at: At) -> Shown {
    match called {
        Ok(Ok(text)) => Ok(text@),
        Ok(Err(error)) => Err(Fault::Annotated { error, at, label: "here"@ }),
        Err(e) => Err(Fault::PyErr(e)),
    }
}

/// What calling a function with the context gave.
pub fn conclude_call(called: Called, at: At) -> (r: Rendered)
    ensures
        shown(r) == called_shown(called, at),
{
    match called {
        Ok(Ok(text)) => Ok(text),
        Ok(Err(error)) => Err(PyRenderError::Annotated { error, at, label: "here".to_owned() }),
        Err(e) => Err(PyRenderError::PyErr(e)),
    }
}

/// What calling the function behind a tag may give, and what becomes of the context.
pub open spec fn tag_called<H: Host>(
    host: &H,
    func: PyObject,
    takes_context: bool,
    at: At,
    args: Seq<PyObject>,
    kwargs: Seq<(String, PyObject)>,
    before: Context,
    after: Context,
    outcome: Shown,
) -> bool {
    if takes_context {
        exists|given: Context, a: Vec<PyObject>, k: Vec<(String, PyObject)>, called: Called|
            {
                &&& given@ == before@
                &&& a@ == args
                &&& k@ == kwargs
                &&& #[trigger] call_ensures(
                    H::call_tag_with_context,
                    (host, func, &a, &k, given),
                    (after, called),
                )
                &&& outcome == called_shown(called, at)
            }
    } else {
        &&& after@ == before@
        &&& exists|a: Vec<PyObject>, k: Vec<(String, PyObject)>, called: Result<String, PyObject>|
            {
                &&& a@ == args
                &&& k@ == kwargs
                &&& #[trigger] call_ensures(H::call_tag, (host, func, &a, &k), called)
                &&& outcome == called_shown(Ok(called), at)
            }
    }
}

/// Calls the function behind a tag.
pub fn call_tag<H: Host>(
    host: &H,
    func: PyObject,
    takes_context: bool,
    at: At,
    args: &Vec<PyObject>,
    kwargs: &Vec<(String, PyObject)>,
    context: &mut Context,
) -> (r: Rendered)
    ensures
        tag_called(
            host,
            func,
            takes_context,
            at,
            args@,
            kwargs@,
            *old(context),
            *final(context),
            shown(r),
        ),
{
    if takes_context {
        let given = context.take();
        let ghost handed = given;
        let (back, called) = host.call_tag_with_context(func, args, kwargs, given);
        assert(call_ensures(
            H::call_tag_with_context,
            (host, func, args, kwargs, handed),
            (back, called),
        ));
        *context = back;
        conclude_call(called, at)
    } else {
        let called = host.call_tag(func, args, kwargs);
        assert(call_ensures(H::call_tag, (host, func, args, kwargs), called));
        conclude_call(Ok(called), at)
    }
}

/// What becomes of what a tag gave: it is written, or stored.
pub open spec fn target_stored<H: Host>(
    host: &H,
    target_var: Option<String>,
    text: Seq<char>,
    before: ContextView,
    after: ContextView,
    outcome: Shown,
) -> bool {
    match target_var {
        None => after == before && outcome == Ok::<_, Fault>(text),
        Some(name) => {
            &&& outcome == nothing()
            &&& exists|held: String, object: PyObject|
                {
                    &&& held@ == text
                    &&& #[trigger] call_ensures(H::string, (host, &held), object)
                    &&& after == before.inserted(name@, object, true)
                }
        },
    }
}

/// Writes or stores what a tag gave.
pub fn store_target<H: Host>(
    host: &H,
    target_var: &Option<String>,
    text: String,
    context: &mut Context,
) -> (r: String)
    ensures
        target_stored(host, *target_var, text@, old(context)@, final(context)@, Ok(r@)),
{
    match target_var {
        None => text,
        Some(name) => {
            let object = host.string(&text);
            assert(call_ensures(H::string, (host, &text), object));
            context.insert(name.clone(), object);
            "".to_owned()
        },
    }
}

/// What becomes of the outcome of calling the function behind a tag.
pub open spec fn call_concluded<H: Host>(
    host: &H,
    target_var: Option<String>,
    called: Shown,
    before: ContextView,
    after: ContextView,
    outcome: Shown,
) -> bool {
    match called {
        Err(e) => after == before && outcome == Err::<Seq<char>, _>(e),
        Ok(text) => target_stored(host, target_var, text, before, after, outcome),
    }
}

/// Writes or stores what calling the function behind a tag gave.
pub fn conclude_tag<H: Host>(
    host: &H,
    target_var: &Option<String>,
    called: Rendered,
    context: &mut Context,
) -> (r: Rendered)
    ensures
        call_concluded(
            host,
            *target_var,
            shown(called),
            old(context)@,
            final(context)@,
            shown(r),
        ),
{
    match called {
        Err(e) => Err(e),
        Ok(text) => Ok(store_target(host, target_var, text, context)),
    }
}

/// What becomes of a tag of a library, and of the context.
pub open spec fn simple_tag_renders<H: Host>(
    host: &H,
    tag: SimpleTag,
    before: Context,
    after: Context,
    outcome: Shown,
) -> bool {
    exists|args: Result<Seq<PyObject>, Fault>|
        {
            &&& #[trigger] arguments_give(
                host,
                before,
                tag.args@,
                Conversion::Text(Failures::Raise),
                Seq::empty(),
                args,
            )
            &&& match args {
                Err(e) => after@ == before@ && outcome == Err::<Seq<char>, _>(e),
                Ok(args) => exists|kwargs: Result<Seq<(String, PyObject)>, Fault>|
                    {
                        &&& #[trigger] keywords_give(host, before, tag.kwargs@, kwargs)
                        &&& match kwargs {
                            Err(e) => after@ == before@ && outcome == Err::<Seq<char>, _>(e),
                            Ok(kwargs) => tag_concluded(
                                host,
                                tag,
                                args,
                                kwargs,
                                before,
                                after,
                                outcome,
                            ),
                        }
                    },
            }
        }
}

/// What becomes of a tag of a library once its arguments are known.
pub open spec fn tag_concluded<H: Host>(
    host: &H,
    tag: SimpleTag,
    args: Seq<PyObject>,
    kwargs: Seq<(String, PyObject)>,
    before: Context,
    after: Context,
    outcome: Shown,
) -> bool {
    exists|middle: Context, called: Shown|
        {
            &&& #[trigger] tag_called(
                host,
                tag.func,
                tag.takes_context,
                tag.at,
                args,
                kwargs,
                before,
                middle,
                called,
            )
            &&& call_concluded(host, tag.target_var, called, middle@, after@, outcome)
        }
}

impl SimpleTag {
    /// Renders what the function behind the tag gives, or stores it.
    pub fn render<H: Host>(&self, host: &H, context: &mut Context) -> (r: Rendered)
        ensures
            simple_tag_renders(host, *self, *old(context), *final(context), shown(r)),
    {
        let conversion = Conversion::Text(Failures::Raise);
        let args = make_arguments(host, context, &self.args, conversion);
        assert(arguments_give(
            host,
            *old(context),
            self.args@,
            Conversion::Text(Failures::Raise),
            Seq::empty(),
            arguments_view(args),
        ));
        let args = match args {
            Ok(args) => args,
            Err(e) => {
                return Err(e);
            },
        };
        let kwargs = make_keywords(host, context, &self.kwargs);
        assert(keywords_give(host, *old(context), self.kwargs@, keywords_view(kwargs)));
        let kwargs = match kwargs {
            Ok(kwargs) => kwargs,
            Err(e) => {
                return Err(e);
            },
        };
        let called = call_tag(
            host,
            self.func,
            self.takes_context,
            self.at,
            &args,
            &kwargs,
            context,
        );
        let ghost middle = *context;
        assert(tag_called(
            host,
            self.func,
            self.takes_context,
            self.at,
            args@,
            kwargs@,
            *old(context),
            middle,
            shown(called),
        ));
        let r = conclude_tag(host, &self.target_var, called, context);
        assert(tag_concluded(
            host,
            *self,
            args@,
            kwargs@,
            *old(context),
            *context,
            shown(r),
        ));
        r
    }
}

} // verus!
