//! What rendering leaves to Python and to the rest of the renderer.
use vstd::prelude::*;
use crate::integer::{decimal_text, Integer};
use crate::parse::tree::{TagElement, TokenTree};
use crate::render::condition::{resolve_element, resolves, Failures, Python, Side};
use crate::render::content::{
    python_text, rendered_text, source_of, truth_text, AsBorrowedContent, Content, ContentString,
    PySource, PyText,
};
use crate::render::context::{Context, IncludeTemplateKey, IterationError, TemplateRef};
use crate::render::errors::PyRenderError;
use crate::render::tags::{CsrfValue, PyTemplateName, RequestApp, ReverseError};
use crate::text::At;
use crate::types::{Float, PyObject};

verus! {

/// What calling a function with the context gave, or why the context could not be handed over.
pub type Called = Result<Result<String, PyObject>, PyObject>;

/// What Python and the rest of the renderer do for a tag. A context that is handed over comes
/// back.
pub trait Host: Python {
    /// What a node that is not a tag is replaced by.
    fn render_node(&self, node: &TokenTree, context: &Context) -> Result<
        String,
        PyRenderError<String>,
    >;

    /// The Python object that is made of a value; of an object it is not asked.
    fn to_object(&self, source: PySource<'_>) -> PyObject;

    /// The Python object that a value is converted to: `None`, where there is no value.
    fn to_argument(&self, content: &Option<Content>) -> Result<PyObject, PyObject>;

    /// A Python string.
    fn string(&self, text: &String) -> PyObject;

    /// A Python string of one character.
    fn character(&self, character: char) -> PyObject;

    /// What a Python object is as text.
    fn text(&self, object: PyObject) -> PyText;

    /// What is written of a floating point number.
    fn float_text(&self, float: Float) -> String;

    /// The integer that a Python object converts to, if it does.
    fn integer(&self, object: PyObject) -> Option<Integer>;

    /// The whole part of a floating point number, if it is finite.
    fn whole(&self, float: Float) -> Option<Integer>;

    /// What iterating over a Python object gives, item by item.
    fn iterate(&self, object: PyObject) -> Result<Vec<Result<PyObject, PyObject>>, PyObject>;

    /// What iterating over an item gives, which is to be unpacked into several names.
    fn unpack(&self, item: PyObject) -> Result<Vec<PyObject>, IterationError>;

    /// What a Python object is as the name of a template, in a template of a given name.
    fn template_name(&self, object: PyObject, origin: &Option<String>, at: At) -> PyTemplateName;

    /// Finds a template by its key.
    fn load_template(&self, engine: PyObject, key: &IncludeTemplateKey) -> Result<
        TemplateRef,
        PyObject,
    >;

    /// Renders a template.
    fn render_template(&self, template: TemplateRef, context: Context) -> (
        Context,
        Result<String, PyRenderError<String>>,
    );

    /// Calls the `render` method of an object with the context.
    fn call_render(&self, render: PyObject, context: Context) -> (Context, Called);

    /// Calls the function behind a tag.
    fn call_tag(
        &self,
        func: PyObject,
        args: &Vec<PyObject>,
        kwargs: &Vec<(String, PyObject)>,
    ) -> Result<String, PyObject>;

    /// Calls the function behind a tag with the context as its first argument.
    fn call_tag_with_context(
        &self,
        func: PyObject,
        args: &Vec<PyObject>,
        kwargs: &Vec<(String, PyObject)>,
        context: Context,
    ) -> (Context, Called);

    /// The function that looks URLs up.
    fn reverse(&self) -> Result<PyObject, PyObject>;

    /// What a request says of the application at hand.
    fn request_app(&self, request: PyObject) -> RequestApp;

    /// Looks a URL up by positional arguments.
    fn reverse_args(
        &self,
        reverse: PyObject,
        view_name: &Content,
        args: &Vec<PyObject>,
        app: Option<PyObject>,
    ) -> Result<PyObject, ReverseError>;

    /// Looks a URL up by arguments with keywords.
    fn reverse_kwargs(
        &self,
        reverse: PyObject,
        view_name: &Content,
        kwargs: &Vec<(String, PyObject)>,
        app: Option<PyObject>,
    ) -> Result<PyObject, ReverseError>;

    /// The current date in a format that goes by a name or is spelled out.
    fn now(&self, format: &String, named: bool) -> Result<PyObject, PyObject>;

    /// The text of a Python string.
    fn string_text(&self, object: PyObject) -> Result<String, PyObject>;

    /// What a token against forged requests is.
    fn csrf_value(&self, token: PyObject) -> CsrfValue;

    /// Whether errors are to be looked for.
    fn debug(&self) -> Result<bool, PyObject>;

    /// Gives a warning.
    fn warn(&self, message: &str) -> Result<(), PyObject>;

    /// The number of common words of placeholder text.
    fn common_words(&self) -> u32;

    /// Words of placeholder text.
    fn words(&self, count: usize, common: bool) -> String;

    /// Paragraphs of placeholder text.
    fn paragraphs(&self, count: usize, common: bool) -> Vec<String>;
}

/// The view of why a template could not be rendered.
pub type Fault = PyRenderError<Seq<char>>;

/// What is written in place of a tag, or why nothing is.
pub type Rendered = Result<String, PyRenderError<String>>;

/// The view of what is written in place of a tag.
pub type Shown = Result<Seq<char>, Fault>;

/// The view of what is written in place of a tag.
pub open spec fn shown(rendered: Rendered) -> Shown {
    match rendered {
        Ok(text) => Ok(text@),
        Err(e) => Err(e@),
    }
}

/// Nothing is written.
pub open spec fn nothing() -> Shown {
    Ok(""@)
}

/// What may be written of a value.
pub open spec fn written<H: Host>(
    host: &H,
    content: Content,
    autoescape: bool,
    outcome: Shown,
) -> bool {
    match content {
        Content::Py(object) => exists|text: PyText|
            {
                &&& #[trigger] call_ensures(H::text, (host, object), text)
                &&& outcome == (match python_text(text, autoescape) {
                    Ok(s) => Ok(rendered_text(s, autoescape)),
                    Err(e) => Err(Fault::PyErr(e)),
                })
            },
        Content::Float(float) => exists|text: String|
            {
                &&& #[trigger] call_ensures(H::float_text, (host, float), text)
                &&& outcome == Ok::<_, Fault>(text@)
            },
        Content::String(s) => outcome == Ok::<_, Fault>(
            rendered_text(s@, autoescape),
        ),
        Content::Int(n) => outcome == Ok::<_, Fault>(decimal_text(n@)),
        Content::Bool(b) => outcome == Ok::<_, Fault>(truth_text(b)),
    }
}

/// Writes a value.
pub fn write_content<H: Host>(host: &H, content: Content, context: &Context) -> (r: Rendered)
    ensures
        written(host, content, context@.autoescape, shown(r)),
{
    let py_text = |object: PyObject| -> (text: PyText)
        ensures
            call_ensures(H::text, (host, object), text),
        { host.text(object) };
    let float_text = |float: Float| -> (text: String)
        ensures
            call_ensures(H::float_text, (host, float), text),
        { host.float_text(float) };
    match content.render(context, py_text, float_text) {
        Ok(text) => Ok(text),
        Err(e) => Err(PyRenderError::PyErr(e)),
    }
}

/// How the arguments of a function are made from values of the template.
#[derive(Clone, Copy, Debug, PartialEq, Eq, Structural)]
pub enum Conversion {
    /// A missing value is an empty string.
    Text(Failures),
    /// A missing value is `None`.
    Python,
    /// A missing value is an empty string, converted like any other.
    PythonOrEmpty,
}

impl Conversion {
    /// What becomes of a variable that does not exist.
    pub open spec fn failures(self) -> Failures {
        match self {
            Conversion::Text(failures) => failures,
            _ => Failures::Raise,
        }
    }
}

/// What a value of the template may be as an argument.
pub open spec fn argument_gives<H: Host>(
    host: &H,
    context: Context,
    element: TagElement<Integer>,
    conversion: Conversion,
    outcome: Result<PyObject, Fault>,
) -> bool {
    exists|side: Side|
        {
            &&& #[trigger] resolves(host, element, conversion.failures(), context, side)
            &&& match side {
                Err(e) => outcome == Err::<PyObject, _>(e@),
                Ok(content) => match conversion {
                    Conversion::Text(_) => text_object(host, content, outcome),
                    Conversion::Python => argument_object(host, content, outcome),
                    Conversion::PythonOrEmpty => match content {
                        Some(_) => argument_object(host, content, outcome),
                        None => exists|empty: Content|
                            {
                                &&& is_empty_text(empty)
                                &&& #[trigger] argument_object(host, Some(empty), outcome)
                            },
                    },
                },
            }
        }
}

/// A value is the empty string.
pub open spec fn is_empty_text(content: Content) -> bool {
    content matches Content::String(ContentString::String(s)) && s@ == ""@
}

/// What Python object a value may become: an object is what it is.
pub open spec fn becomes_object<H: Host>(host: &H, content: Content, object: PyObject) -> bool {
    match source_of(&content) {
        PySource::Object(itself) => object == itself,
        source => call_ensures(H::to_object, (host, source), object),
    }
}

/// Makes a Python object of a value.
pub fn make_object<H: Host>(host: &H, content: &Content) -> (r: PyObject)
    ensures
        becomes_object(host, *content, r),
{
    match content.to_py() {
        PySource::Object(itself) => itself,
        source => host.to_object(source),
    }
}

/// What a value may be as a Python object: an empty string, where there is none.
pub open spec fn text_object<H: Host>(
    host: &H,
    content: Option<Content>,
    outcome: Result<PyObject, Fault>,
) -> bool {
    match content {
        Some(content) => exists|object: PyObject|
            {
                &&& #[trigger] becomes_object(host, content, object)
                &&& outcome == Ok::<_, Fault>(object)
            },
        None => exists|empty: String, object: PyObject|
            {
                &&& empty@ == ""@
                &&& #[trigger] call_ensures(H::string, (host, &empty), object)
                &&& outcome == Ok::<_, Fault>(object)
            },
    }
}

/// What a value may be converted to.
pub open spec fn argument_object<H: Host>(
    host: &H,
    content: Option<Content>,
    outcome: Result<PyObject, Fault>,
) -> bool {
    exists|converted: Result<PyObject, PyObject>|
        {
            &&& #[trigger] call_ensures(H::to_argument, (host, &content), converted)
            &&& outcome == (match converted {
                Ok(object) => Ok(object),
                Err(e) => Err(Fault::PyErr(e)),
            })
        }
}

/// The view of the outcome of making an argument.
pub open spec fn argument_view(outcome: Result<PyObject, PyRenderError<String>>) -> Result<
    PyObject,
    Fault,
> {
    match outcome {
        Ok(object) => Ok(object),
        Err(e) => Err(e@),
    }
}

/// A value as a Python object: an empty string, where there is none.
pub fn make_text_object<H: Host>(host: &H, content: &Option<Content>) -> (r: PyObject)
    ensures
        text_object(host, *content, Ok(r)),
{
    match content {
        Some(content) => make_object(host, content),
        None => {
            let empty = "".to_owned();
            host.string(&empty)
        },
    }
}

/// Converts a value.
fn make_argument_object<H: Host>(host: &H, content: &Option<Content>) -> (r: Result<
    PyObject,
    PyRenderError<String>,
>)
    ensures
        argument_object(host, *content, argument_view(r)),
{
    let converted = host.to_argument(content);
    assert(call_ensures(H::to_argument, (host, content), converted));
    match converted {
        Ok(object) => Ok(object),
        Err(e) => Err(PyRenderError::PyErr(e)),
    }
}

/// Makes an argument from a value of the template.
pub fn make_argument<H: Host>(
    host: &H,
    context: &Context,
    element: &TagElement<Integer>,
    conversion: Conversion,
) -> (r: Result<PyObject, PyRenderError<String>>)
    ensures
        argument_gives(host, *context, *element, conversion, argument_view(r)),
{
    let failures = match conversion {
        Conversion::Text(failures) => failures,
        _ => Failures::Raise,
    };
    let side = resolve_element(host, element, failures, context);
    assert(resolves(host, *element, conversion.failures(), *context, side));
    match side {
        Err(e) => Err(e),
        Ok(content) => match conversion {
            Conversion::Text(_) => Ok(make_text_object(host, &content)),
            Conversion::Python => make_argument_object(host, &content),
            Conversion::PythonOrEmpty => match content {
                Some(_) => make_argument_object(host, &content),
                None => {
                    let empty = Some("".as_content());
                    assert(is_empty_text(empty->Some_0));
                    let r = make_argument_object(host, &empty);
                    assert(argument_object(host, Some(empty->Some_0), argument_view(r)));
                    r
                },
            },
        },
    }
}

/// What values of the template may be as arguments, after some that were before: the first one
/// that is an error ends it.
pub open spec fn arguments_give<H: Host>(
    host: &H,
    context: Context,
    elements: Seq<TagElement<Integer>>,
    conversion: Conversion,
    before: Seq<PyObject>,
    outcome: Result<Seq<PyObject>, Fault>,
) -> bool
    decreases elements.len(),
{
    if elements.len() == 0 {
        outcome == Ok::<_, Fault>(before)
    } else {
        exists|first: Result<PyObject, Fault>|
            {
                &&& #[trigger] argument_gives(host, context, elements[0], conversion, first)
                &&& match first {
                    Err(e) => outcome == Err::<Seq<PyObject>, _>(e),
                    Ok(object) => arguments_give(
                        host,
                        context,
                        elements.drop_first(),
                        conversion,
                        before.push(object),
                        outcome,
                    ),
                }
            }
    }
}

/// The view of the outcome of making arguments.
pub open spec fn arguments_view(outcome: Result<Vec<PyObject>, PyRenderError<String>>) -> Result<
    Seq<PyObject>,
    Fault,
> {
    match outcome {
        Ok(objects) => Ok(objects@),
        Err(e) => Err(e@),
    }
}

/// Makes arguments from values of the template.
pub fn make_arguments<H: Host>(
    host: &H,
    context: &Context,
    elements: &Vec<TagElement<Integer>>,
    conversion: Conversion,
) -> (r: Result<Vec<PyObject>, PyRenderError<String>>)
    ensures
        arguments_give(host, *context, elements@, conversion, Seq::empty(), arguments_view(r)),
        r matches Ok(objects) ==> objects@.len() == elements@.len(),
{
    let mut objects: Vec<PyObject> = Vec::new();
    let ghost all = elements@;
    let mut i: usize = 0;
    assert(all.skip(0) =~= all);
    while i < elements.len()
        invariant
            0 <= i <= all.len(),
            all == elements@,
            objects@.len() == i,
            forall|outcome: Result<Seq<PyObject>, Fault>| #[trigger]
                arguments_give(
                    host,
                    *context,
                    all.skip(i as int),
                    conversion,
                    objects@,
                    outcome,
                ) ==> arguments_give(host, *context, all, conversion, Seq::empty(), outcome),
        decreases all.len() - i,
    {
        let ghost rest = all.skip(i as int);
        let ghost before = objects@;
        assert(rest[0] == all[i as int]);
        assert(rest.drop_first() =~= all.skip(i + 1));
        let argument = make_argument(host, context, &elements[i], conversion);
        assert(argument_gives(host, *context, rest[0], conversion, argument_view(argument)));
        match argument {
            Err(e) => {
                assert(arguments_give(host, *context, rest, conversion, before, Err(e@)));
                return Err(e);
            },
            Ok(object) => {
                objects.push(object);
                assert forall|outcome: Result<Seq<PyObject>, Fault>| #[trigger]
                    arguments_give(
                        host,
                        *context,
                        all.skip(i + 1),
                        conversion,
                        objects@,
                        outcome,
                    ) implies arguments_give(
                    host,
                    *context,
                    all,
                    conversion,
                    Seq::empty(),
                    outcome,
                ) by {
                    assert(arguments_give(host, *context, rest, conversion, before, outcome));
                }
            },
        }
        i += 1;
    }
    assert(all.skip(i as int) =~= Seq::empty());
    assert(arguments_give(
        host,
        *context,
        all.skip(i as int),
        conversion,
        objects@,
        Ok(objects@),
    ));
    Ok(objects)
}

/// The values of elements with keywords.
pub open spec fn keyword_elements(kwargs: Seq<(String, TagElement<Integer>)>) -> Seq<
    TagElement<Integer>,
> {
    kwargs.map_values(|kwarg: (String, TagElement<Integer>)| kwarg.1)
}

/// The keywords of elements.
pub open spec fn keyword_names(kwargs: Seq<(String, TagElement<Integer>)>) -> Seq<Seq<char>> {
    kwargs.map_values(|kwarg: (String, TagElement<Integer>)| kwarg.0@)
}

/// Arguments have given keywords and values.
pub open spec fn are_pairs(
    pairs: Seq<(String, PyObject)>,
    names: Seq<Seq<char>>,
    values: Seq<PyObject>,
) -> bool {
    &&& pairs.len() == names.len()
    &&& pairs.len() == values.len()
    &&& forall|i: int|
        0 <= i < pairs.len() ==> (#[trigger] pairs[i]).0@ == names[i] && pairs[i].1 == values[i]
}

/// What elements with keywords may be as arguments.
pub open spec fn keywords_give<H: Host>(
    host: &H,
    context: Context,
    kwargs: Seq<(String, TagElement<Integer>)>,
    outcome: Result<Seq<(String, PyObject)>, Fault>,
) -> bool {
    exists|values: Result<Seq<PyObject>, Fault>|
        {
            &&& #[trigger] arguments_give(
                host,
                context,
                keyword_elements(kwargs),
                Conversion::Python,
                Seq::empty(),
                values,
            )
            &&& match values {
                Err(e) => outcome == Err::<Seq<(String, PyObject)>, _>(e),
                Ok(values) => outcome matches Ok(pairs) && are_pairs(
                    pairs,
                    keyword_names(kwargs),
                    values,
                ),
            }
        }
}

/// The view of the outcome of making arguments with keywords.
pub open spec fn keywords_view(outcome: Result<Vec<(String, PyObject)>, PyRenderError<String>>) ->
    Result<Seq<(String, PyObject)>, Fault> {
    match outcome {
        Ok(pairs) => Ok(pairs@),
        Err(e) => Err(e@),
    }
}

/// Makes arguments from elements with keywords.
pub fn make_keywords<H: Host>(
    host: &H,
    context: &Context,
    kwargs: &Vec<(String, TagElement<Integer>)>,
) -> (r: Result<Vec<(String, PyObject)>, PyRenderError<String>>)
    ensures
        keywords_give(host, *context, kwargs@, keywords_view(r)),
{
    let mut pairs: Vec<(String, PyObject)> = Vec::new();
    let ghost mut values: Seq<PyObject> = Seq::empty();
    let ghost all = keyword_elements(kwargs@);
    let conversion = Conversion::Python;
    let mut i: usize = 0;
    assert(all.skip(0) =~= all);
    while i < kwargs.len()
        invariant
            0 <= i <= kwargs@.len(),
            all == keyword_elements(kwargs@),
            conversion == Conversion::Python,
            pairs@.len() == i,
            values.len() == i,
            forall|j: int|
                0 <= j < i ==> (#[trigger] pairs@[j]).0@ == kwargs@[j].0@ && pairs@[j].1
                    == values[j],
            forall|outcome: Result<Seq<PyObject>, Fault>| #[trigger]
                arguments_give(
                    host,
                    *context,
                    all.skip(i as int),
                    conversion,
                    values,
                    outcome,
                ) ==> arguments_give(host, *context, all, conversion, Seq::empty(), outcome),
        decreases kwargs@.len() - i,
    {
        let ghost rest = all.skip(i as int);
        let ghost before = values;
        assert(rest[0] == kwargs@[i as int].1);
        assert(rest.drop_first() =~= all.skip(i + 1));
        let argument = make_argument(host, context, &kwargs[i].1, conversion);
        assert(argument_gives(host, *context, rest[0], conversion, argument_view(argument)));
        match argument {
            Err(e) => {
                assert(arguments_give(host, *context, rest, conversion, before, Err(e@)));
                return Err(e);
            },
            Ok(object) => {
                pairs.push((kwargs[i].0.clone(), object));
                proof {
                    values = values.push(object);
                    assert forall|
                        outcome: Result<Seq<PyObject>, Fault>,
                    | #[trigger]
                        arguments_give(
                            host,
                            *context,
                            all.skip(i + 1),
                            conversion,
                            values,
                            outcome,
                        ) implies arguments_give(
                        host,
                        *context,
                        all,
                        conversion,
                        Seq::empty(),
                        outcome,
                    ) by {
                        assert(arguments_give(host, *context, rest, conversion, before, outcome));
                    }
                }
            },
        }
        i += 1;
    }
    assert(all.skip(i as int) =~= Seq::empty());
    assert(arguments_give(
        host,
        *context,
        all.skip(i as int),
        conversion,
        values,
        Ok(values),
    ));
    assert(are_pairs(pairs@, keyword_names(kwargs@), values));
    Ok(pairs)
}

} // verus!
