//! The values that are rendered.
use vstd::prelude::*;
use vstd::string::*;
use crate::integer::{decimal, decimal_text, Integer};
use crate::render::context::Context;
use crate::render::errors::{PyRenderError, RenderError};
use crate::text::At;
use crate::types::{Float, PyObject};
use crate::words::{quote, quoted};

verus! {

/// What a character is written as within a quoted attribute of HTML.
pub open spec fn escaped_char(c: char) -> Seq<char> {
    if c == '&' {
        "&amp;"@
    } else if c == '<' {
        "&lt;"@
    } else if c == '>' {
        "&gt;"@
    } else if c == '"' {
        "&quot;"@
    } else if c == '\'' {
        "&#x27;"@
    } else {
        seq![c]
    }
}

/// What a text is written as within a quoted attribute of HTML.
pub open spec fn escaped(s: Seq<char>) -> Seq<char>
    decreases s.len(),
{
    if s.len() == 0 {
        Seq::empty()
    } else {
        escaped(s.drop_last()) + escaped_char(s.last())
    }
}

/// `encode_quoted_attribute` of `html_escape` replaces each of the five characters that mean
/// something in HTML, as [`escaped_char`] says, and keeps the others.
#[verifier::external_body]
fn encode_quoted_attribute(text: &str) -> (r: String)
    ensures
        r@ == escaped(text@),
{
    html_escape::encode_quoted_attribute(text).to_string()
}

/// What escaped text does not hold as such.
pub open spec fn is_markup(c: char) -> bool {
    c == '<' || c == '>' || c == '"' || c == '\''
}

/// Escaped text holds neither brackets nor quotes.
pub proof fn law_escaped_holds_no_markup(s: Seq<char>)
    ensures
        forall|i: int| 0 <= i < escaped(s).len() ==> !is_markup(#[trigger] escaped(s)[i]),
    decreases s.len(),
{
    if s.len() > 0 {
        law_escaped_holds_no_markup(s.drop_last());
        let before = escaped(s.drop_last());
        let last = escaped_char(s.last());
        reveal_strlit("&amp;");
        reveal_strlit("&lt;");
        reveal_strlit("&gt;");
        reveal_strlit("&quot;");
        reveal_strlit("&#x27;");
        assert(forall|i: int| 0 <= i < last.len() ==> !is_markup(#[trigger] last[i]));
        assert forall|i: int| 0 <= i < escaped(s).len() implies !is_markup(
            #[trigger] escaped(s)[i],
        ) by {
            if i < before.len() {
                assert(escaped(s)[i] == before[i]);
            } else {
                assert(escaped(s)[i] == last[i - before.len()]);
            }
        }
    }
}

/// Text without brackets, quotes and ampersands stays as it is.
pub proof fn law_plain_text_is_not_escaped(s: Seq<char>)
    requires
        forall|i: int| 0 <= i < s.len() ==> !is_markup(#[trigger] s[i]) && s[i] != '&',
    ensures
        escaped(s) == s,
    decreases s.len(),
{
    if s.len() > 0 {
        assert(!is_markup(s[s.len() - 1]));
        law_plain_text_is_not_escaped(s.drop_last());
        assert(s.drop_last() + seq![s.last()] =~= s);
    }
}

/// Text to be rendered, and whether it is safe to be part of HTML. `S` stands for text.
#[derive(Debug, PartialEq, Eq)]
pub enum ContentString<S> {
    /// Text for which this does not matter.
    String(S),
    HtmlSafe(S),
    HtmlUnsafe(S),
}

impl View for ContentString<String> {
    type V = ContentString<Seq<char>>;

    open spec fn view(&self) -> ContentString<Seq<char>> {
        match *self {
            ContentString::String(s) => ContentString::String(s@),
            ContentString::HtmlSafe(s) => ContentString::HtmlSafe(s@),
            ContentString::HtmlUnsafe(s) => ContentString::HtmlUnsafe(s@),
        }
    }
}

impl<S> ContentString<S> {
    /// The text as it is.
    pub open spec fn raw(self) -> S {
        match self {
            ContentString::String(s) => s,
            ContentString::HtmlSafe(s) => s,
            ContentString::HtmlUnsafe(s) => s,
        }
    }
}

impl ContentString<String> {
    /// The text, escaped if it is not safe.
    pub fn content(self) -> (r: String)
        ensures
            r@ == (match self@ {
                ContentString::HtmlUnsafe(s) => escaped(s),
                other => other.raw(),
            }),
    {
        match self {
            ContentString::String(content) => content,
            ContentString::HtmlSafe(content) => content,
            ContentString::HtmlUnsafe(content) => encode_quoted_attribute(content.as_str()),
        }
    }

    /// The text as it is.
    pub fn as_raw(&self) -> (r: &String)
        ensures
            *r == self.raw(),
            r@ == self@.raw(),
    {
        match self {
            ContentString::String(content) => content,
            ContentString::HtmlSafe(content) => content,
            ContentString::HtmlUnsafe(content) => content,
        }
    }

    /// The text as it is.
    pub fn into_raw(self) -> (r: String)
        ensures
            r == self.raw(),
            r@ == self@.raw(),
    {
        match self {
            ContentString::String(content) => content,
            ContentString::HtmlSafe(content) => content,
            ContentString::HtmlUnsafe(content) => content,
        }
    }

    /// Other text, which is as safe as the one that it is made from.
    pub fn map_content<F: FnOnce(String) -> String>(self, f: F) -> (r: Content)
        requires
            f.requires((self.raw(),)),
        ensures
            match (self, r) {
                (ContentString::String(s), Content::String(ContentString::String(t))) => {
                    f.ensures((s,), t)
                },
                (ContentString::HtmlSafe(s), Content::String(ContentString::HtmlSafe(t))) => {
                    f.ensures((s,), t)
                },
                (ContentString::HtmlUnsafe(s), Content::String(ContentString::HtmlUnsafe(t))) => {
                    f.ensures((s,), t)
                },
                _ => false,
            },
    {
        Content::String(
            match self {
                ContentString::String(content) => ContentString::String(f(content)),
                ContentString::HtmlSafe(content) => ContentString::HtmlSafe(f(content)),
                ContentString::HtmlUnsafe(content) => ContentString::HtmlUnsafe(f(content)),
            },
        )
    }
}

/// A value to be rendered.
#[derive(Debug, PartialEq)]
pub enum Content {
    Py(PyObject),
    String(ContentString<String>),
    Float(Float),
    Int(Integer),
    Bool(bool),
}

/// What a Python object is as text.
#[derive(Debug)]
pub struct PyText {
    /// Whether it is a string.
    pub is_string: bool,
    /// What `str` gives.
    pub text: Result<String, PyObject>,
    /// What the method `__html__` of it, as a string, gives if there is one.
    pub html: Result<Option<String>, PyObject>,
}

/// The text of a Python object: where text is escaped, it is safe if the object says so.
pub open spec fn python_text(text: PyText, autoescape: bool) -> Result<
    ContentString<Seq<char>>,
    PyObject,
> {
    match (text.text, text.html) {
        (Ok(s), _) if !autoescape => Ok(ContentString::String(s@)),
        (Err(e), _) if !autoescape || !text.is_string => Err(e),
        (_, Err(e)) => Err(e),
        (_, Ok(Some(html))) => Ok(ContentString::HtmlSafe(html@)),
        (Ok(s), Ok(None)) => Ok(ContentString::HtmlUnsafe(s@)),
        (Err(e), Ok(None)) => Err(e),
    }
}

/// The view of text that Python may fail to give.
pub open spec fn text_view(r: Result<ContentString<String>, PyObject>) -> Result<
    ContentString<Seq<char>>,
    PyObject,
> {
    match r {
        Ok(s) => Ok(s@),
        Err(e) => Err(e),
    }
}

/// The text of a Python object.
pub fn resolve_python(text: PyText, context: &Context) -> (r: Result<
    ContentString<String>,
    PyObject,
>)
    ensures
        text_view(r) == python_text(text, context@.autoescape),
{
    if !context.autoescape() {
        return match text.text {
            Ok(s) => Ok(ContentString::String(s)),
            Err(e) => Err(e),
        };
    }
    if !text.is_string {
        if let Err(e) = &text.text {
            return Err(*e);
        }
    }
    match text.html {
        Ok(Some(html)) => Ok(ContentString::HtmlSafe(html)),
        Ok(None) => match text.text {
            Ok(s) => Ok(ContentString::HtmlUnsafe(s)),
            Err(e) => Err(e),
        },
        Err(e) => Err(e),
    }
}

/// What an integer is as a size: nothing below zero.
pub open spec fn size_of(n: int, at: At) -> Result<usize, PyRenderError<Seq<char>>> {
    if isize::MIN <= n <= isize::MAX {
        Ok(
            if n < 0 {
                0
            } else {
                n as usize
            },
        )
    } else {
        Err(
            PyRenderError::RenderError(
                RenderError::OverflowError { argument: decimal_text(n), argument_at: at },
            ),
        )
    }
}

/// The view of a size that may be missing.
pub open spec fn size_view(r: Result<usize, PyRenderError<String>>) -> Result<
    usize,
    PyRenderError<Seq<char>>,
> {
    match r {
        Ok(n) => Ok(n),
        Err(e) => Err(e@),
    }
}

/// An integer as a size.
fn resolve_bigint(n: &Integer, at: At) -> (r: Result<usize, PyRenderError<String>>)
    ensures
        size_view(r) == size_of(n@, at),
{
    match n.to_isize() {
        Some(n) => Ok(
            if n < 0 {
                0
            } else {
                n as usize
            },
        ),
        None => Err(
            PyRenderError::RenderError(
                RenderError::OverflowError { argument: n.to_text(), argument_at: at },
            ),
        ),
    }
}

/// What is written of a truth value.
pub open spec fn truth_text(b: bool) -> Seq<char> {
    if b {
        "True"@
    } else {
        "False"@
    }
}

/// What is written of a truth value.
pub fn bool_text(b: bool) -> (r: String)
    ensures
        r@ == truth_text(b),
{
    if b {
        "True".to_owned()
    } else {
        "False".to_owned()
    }
}

/// The text to be written of some text.
pub open spec fn rendered_text(value: ContentString<Seq<char>>, autoescape: bool) -> Seq<char> {
    match value {
        ContentString::HtmlUnsafe(s) if autoescape => escaped(s),
        other => other.raw(),
    }
}

/// The text to be written of some text.
fn render_value_in_context(value: ContentString<String>, context: &Context) -> (r: String)
    ensures
        r@ == rendered_text(value@, context@.autoescape),
{
    match value {
        ContentString::String(content) => content,
        ContentString::HtmlSafe(content) => content,
        ContentString::HtmlUnsafe(content) => {
            if context.autoescape() {
                encode_quoted_attribute(content.as_str())
            } else {
                content
            }
        },
    }
}

/// What a Python object is as a number.
#[derive(Debug)]
pub struct PyNumber {
    /// Its value, if it is an integer.
    pub integer: Option<Integer>,
    /// Whether it can be read as a floating point number.
    pub is_float: bool,
    /// What is written of it.
    pub text: String,
}

/// What a floating point number is without its fraction.
#[derive(Debug)]
pub struct FloatNumber {
    /// Its whole part, if it is finite.
    pub whole: Option<Integer>,
    /// What is written of it.
    pub text: String,
}

/// A Python object, or what is to be made one.
#[derive(Debug)]
pub enum PySource<'a> {
    Object(PyObject),
    Int(&'a Integer),
    Float(Float),
    Str(&'a String),
    /// A string that is to be marked as safe.
    SafeStr(&'a String),
    Bool(bool),
}

/// The Python object that a value is, or what is to be made one.
pub open spec fn source_of<'a>(content: &'a Content) -> PySource<'a> {
    match *content {
        Content::Py(object) => PySource::Object(object),
        Content::Int(n) => PySource::Int(&n),
        Content::Float(f) => PySource::Float(f),
        Content::String(ContentString::HtmlSafe(s)) => PySource::SafeStr(&s),
        Content::String(ContentString::String(s)) => PySource::Str(&s),
        Content::String(ContentString::HtmlUnsafe(s)) => PySource::Str(&s),
        Content::Bool(b) => PySource::Bool(b),
    }
}

impl Content {
    /// What is written of the value. `py_text` gives the text of a Python object and `float_text`
    /// what is written of a floating point number.
    pub fn render<P: FnOnce(PyObject) -> PyText, F: FnOnce(Float) -> String>(
        self,
        context: &Context,
        py_text: P,
        float_text: F,
    ) -> (r: Result<String, PyObject>)
        requires
            forall|o: PyObject| #[trigger] py_text.requires((o,)),
            forall|f: Float| #[trigger] float_text.requires((f,)),
        ensures
            match self {
                Content::Py(object) => exists|text: PyText|
                    {
                        &&& #[trigger] py_text.ensures((object,), text)
                        &&& match python_text(text, context@.autoescape) {
                            Ok(s) => r matches Ok(out) && out@ == rendered_text(
                                s,
                                context@.autoescape,
                            ),
                            Err(e) => r == Err::<String, _>(e),
                        }
                    },
                Content::Float(f) => r matches Ok(out) && float_text.ensures((f,), out),
                Content::String(s) => r matches Ok(out) && out@ == rendered_text(
                    s@,
                    context@.autoescape,
                ),
                Content::Int(n) => r matches Ok(out) && out@ == decimal_text(n@),
                Content::Bool(b) => r matches Ok(out) && out@ == truth_text(b),
            },
    {
        match self {
            Content::Py(object) => {
                let text = py_text(object);
                match resolve_python(text, context) {
                    Ok(s) => Ok(render_value_in_context(s, context)),
                    Err(e) => Err(e),
                }
            },
            Content::String(content) => Ok(render_value_in_context(content, context)),
            Content::Float(f) => Ok(float_text(f)),
            Content::Int(n) => Ok(n.to_text()),
            Content::Bool(b) => Ok(bool_text(b)),
        }
    }

    /// The value as text.
    pub fn resolve_string<P: FnOnce(PyObject) -> PyText, F: FnOnce(Float) -> String>(
        self,
        context: &Context,
        py_text: P,
        float_text: F,
    ) -> (r: Result<ContentString<String>, PyObject>)
        requires
            forall|o: PyObject| #[trigger] py_text.requires((o,)),
            forall|f: Float| #[trigger] float_text.requires((f,)),
        ensures
            match self {
                Content::Py(object) => exists|text: PyText|
                    {
                        &&& #[trigger] py_text.ensures((object,), text)
                        &&& text_view(r) == python_text(text, context@.autoescape)
                    },
                Content::Float(f) => r matches Ok(ContentString::String(out)) && float_text.ensures(
                    (f,),
                    out,
                ),
                Content::String(s) => r == Ok::<_, PyObject>(s),
                Content::Int(n) => r matches Ok(ContentString::String(out)) && out@ == decimal_text(
                    n@,
                ),
                Content::Bool(b) => r matches Ok(ContentString::String(out)) && out@ == truth_text(
                    b,
                ),
            },
    {
        match self {
            Content::String(content) => Ok(content),
            Content::Float(f) => Ok(ContentString::String(float_text(f))),
            Content::Int(n) => Ok(ContentString::String(n.to_text())),
            Content::Py(object) => {
                let text = py_text(object);
                resolve_python(text, context)
            },
            Content::Bool(b) => Ok(ContentString::String(bool_text(b))),
        }
    }

    /// The value as text, if it is a string or a Python object that is one.
    pub fn resolve_string_strict<P: FnOnce(PyObject) -> PyText>(
        self,
        context: &Context,
        argument_at: At,
        py_text: P,
    ) -> (r: Result<ContentString<String>, PyRenderError<String>>)
        requires
            forall|o: PyObject| #[trigger] py_text.requires((o,)),
        ensures
            match self {
                Content::String(s) => r == Ok::<_, PyRenderError<String>>(s),
                Content::Py(object) => exists|text: PyText|
                    {
                        &&& #[trigger] py_text.ensures((object,), text)
                        &&& if text.is_string {
                            match python_text(text, context@.autoescape) {
                                Ok(s) => r matches Ok(out) && out@ == s,
                                Err(e) => r == Err::<ContentString<String>, PyRenderError<String>>(
                                    PyRenderError::PyErr(e),
                                ),
                            }
                        } else {
                            r == Err::<ContentString<String>, PyRenderError<String>>(
                                PyRenderError::RenderError(
                                    RenderError::InvalidArgumentString { argument_at },
                                ),
                            )
                        }
                    },
                _ => r == Err::<ContentString<String>, PyRenderError<String>>(
                    PyRenderError::RenderError(RenderError::InvalidArgumentString { argument_at }),
                ),
            },
    {
        match self {
            Content::String(content) => Ok(content),
            Content::Py(object) => {
                let text = py_text(object);
                if text.is_string {
                    match resolve_python(text, context) {
                        Ok(s) => Ok(s),
                        Err(e) => Err(PyRenderError::PyErr(e)),
                    }
                } else {
                    Err(
                        PyRenderError::RenderError(
                            RenderError::InvalidArgumentString { argument_at },
                        ),
                    )
                }
            },
            _ => Err(
                PyRenderError::RenderError(RenderError::InvalidArgumentString { argument_at }),
            ),
        }
    }

    /// The value as an integer, if it can be one. `py_int` gives the integer that a Python object
    /// converts to and `whole` the whole part of a floating point number.
    pub fn to_bigint<
        P: FnOnce(PyObject) -> Option<Integer>,
        F: FnOnce(Float) -> Option<Integer>,
    >(&self, py_int: P, whole: F) -> (r: Option<Integer>)
        requires
            forall|o: PyObject| #[trigger] py_int.requires((o,)),
            forall|f: Float| #[trigger] whole.requires((f,)),
        ensures
            match *self {
                Content::Int(n) => r matches Some(out) && out@ == n@,
                Content::String(s) => match decimal(s@.raw()) {
                    Some(n) => r matches Some(out) && out@ == n,
                    None => r is None,
                },
                Content::Float(f) => whole.ensures((f,), r),
                Content::Py(object) => py_int.ensures((object,), r),
                Content::Bool(b) => r matches Some(out) && out@ == (if b {
                    1int
                } else {
                    0int
                }),
            },
    {
        match self {
            Content::Int(n) => Some(n.duplicate()),
            Content::String(s) => Integer::parse(s.as_raw().as_str()),
            Content::Float(f) => whole(*f),
            Content::Py(object) => py_int(*object),
            Content::Bool(true) => Some(Integer::from_u8(1)),
            Content::Bool(false) => Some(Integer::from_u8(0)),
        }
    }

    /// The value as a size: nothing where it is below zero.
    pub fn resolve_usize<P: FnOnce(PyObject) -> PyNumber, F: FnOnce(Float) -> FloatNumber>(
        self,
        argument_at: At,
        py_number: P,
        float_number: F,
    ) -> (r: Result<usize, PyRenderError<String>>)
        requires
            forall|o: PyObject| #[trigger] py_number.requires((o,)),
            forall|f: Float| #[trigger] float_number.requires((f,)),
        ensures
            match self {
                Content::Int(n) => size_view(r) == size_of(n@, argument_at),
                Content::String(s) => size_view(r) == (match decimal(s@.raw()) {
                    Some(n) => size_of(n, argument_at),
                    None => Err(
                        PyRenderError::RenderError(
                            RenderError::InvalidArgumentInteger {
                                argument: quoted(s@.raw()),
                                argument_at,
                            },
                        ),
                    ),
                }),
                Content::Float(f) => exists|number: FloatNumber|
                    {
                        &&& #[trigger] float_number.ensures((f,), number)
                        &&& size_view(r) == float_size(number, argument_at)
                    },
                Content::Py(object) => exists|number: PyNumber|
                    {
                        &&& #[trigger] py_number.ensures((object,), number)
                        &&& size_view(r) == py_size(number, argument_at)
                    },
                Content::Bool(b) => r == Ok::<_, PyRenderError<String>>(
                    if b {
                        1usize
                    } else {
                        0usize
                    },
                ),
            },
    {
        match self {
            Content::Int(n) => resolve_bigint(&n, argument_at),
            Content::String(s) => match Integer::parse(s.as_raw().as_str()) {
                Some(n) => resolve_bigint(&n, argument_at),
                None => Err(
                    PyRenderError::RenderError(
                        RenderError::InvalidArgumentInteger {
                            argument: quote(s.as_raw().as_str()),
                            argument_at,
                        },
                    ),
                ),
            },
            Content::Float(f) => {
                let number = float_number(f);
                resolve_float(number, argument_at)
            },
            Content::Py(object) => {
                let number = py_number(object);
                resolve_py_number(number, argument_at)
            },
            Content::Bool(true) => Ok(1),
            Content::Bool(false) => Ok(0),
        }
    }

    /// Whether the value is true. `py_truth` tells of a Python object.
    pub fn to_bool<P: FnOnce(PyObject) -> Result<bool, PyObject>>(&self, py_truth: P) -> (r: Result<
        bool,
        PyObject,
    >)
        requires
            forall|o: PyObject| #[trigger] py_truth.requires((o,)),
        ensures
            match *self {
                Content::Bool(b) => r == Ok::<_, PyObject>(b),
                Content::Int(n) => r == Ok::<_, PyObject>(n@ != 0),
                Content::Float(f) => r == Ok::<_, PyObject>(f.place() != Some(0int)),
                Content::String(s) => r == Ok::<_, PyObject>(s@.raw().len() > 0),
                Content::Py(object) => py_truth.ensures((object,), r),
            },
    {
        match self {
            Content::Bool(b) => Ok(*b),
            Content::Int(n) => Ok(!n.is_zero()),
            Content::Float(f) => Ok(f.is_nonzero()),
            Content::String(s) => Ok(!s.as_raw().as_str().is_empty()),
            Content::Py(object) => py_truth(*object),
        }
    }

    /// Whether the value is true; one that Python cannot tell of is not.
    pub fn evaluate<P: FnOnce(PyObject) -> Result<bool, PyObject>>(&self, py_truth: P) -> (r: bool)
        requires
            forall|o: PyObject| #[trigger] py_truth.requires((o,)),
        ensures
            match *self {
                Content::Bool(b) => r == b,
                Content::Int(n) => r == (n@ != 0),
                Content::Float(f) => r == (f.place() != Some(0int)),
                Content::String(s) => r == (s@.raw().len() > 0),
                Content::Py(object) => exists|truth: Result<bool, PyObject>|
                    {
                        &&& #[trigger] py_truth.ensures((object,), truth)
                        &&& r == (truth == Ok::<_, PyObject>(true))
                    },
            },
    {
        match self.to_bool(py_truth) {
            Ok(b) => b,
            Err(_) => false,
        }
    }

    /// The Python object that the value is, or what is to be made one.
    pub fn to_py(&self) -> (r: PySource<'_>)
        ensures
            r == source_of(self),
    {
        match self {
            Content::Py(object) => PySource::Object(*object),
            Content::Int(n) => PySource::Int(n),
            Content::Float(f) => PySource::Float(*f),
            Content::String(ContentString::HtmlSafe(s)) => PySource::SafeStr(s),
            Content::String(ContentString::String(s)) => PySource::Str(s),
            Content::String(ContentString::HtmlUnsafe(s)) => PySource::Str(s),
            Content::Bool(b) => PySource::Bool(*b),
        }
    }
}

/// What a floating point number is as a size.
pub open spec fn float_size(number: FloatNumber, at: At) -> Result<usize, PyRenderError<Seq<char>>> {
    match number.whole {
        Some(n) => size_of(n@, at),
        None => Err(
            PyRenderError::RenderError(
                RenderError::InvalidArgumentFloat { argument: number.text@, argument_at: at },
            ),
        ),
    }
}

/// What a Python object is as a size.
pub open spec fn py_size(number: PyNumber, at: At) -> Result<usize, PyRenderError<Seq<char>>> {
    match number.integer {
        Some(n) => size_of(n@, at),
        None => if number.is_float {
            Err(
                PyRenderError::RenderError(
                    RenderError::InvalidArgumentFloat { argument: number.text@, argument_at: at },
                ),
            )
        } else {
            Err(
                PyRenderError::RenderError(
                    RenderError::InvalidArgumentInteger { argument: number.text@, argument_at: at },
                ),
            )
        },
    }
}

/// A floating point number as a size.
pub fn resolve_float(number: FloatNumber, argument_at: At) -> (r: Result<
    usize,
    PyRenderError<String>,
>)
    ensures
        size_view(r) == float_size(number, argument_at),
{
    match number.whole {
        Some(n) => resolve_bigint(&n, argument_at),
        None => Err(
            PyRenderError::RenderError(
                RenderError::InvalidArgumentFloat { argument: number.text, argument_at },
            ),
        ),
    }
}

/// A Python object as a size.
pub fn resolve_py_number(number: PyNumber, argument_at: At) -> (r: Result<
    usize,
    PyRenderError<String>,
>)
    ensures
        size_view(r) == py_size(number, argument_at),
{
    match number.integer {
        Some(n) => resolve_bigint(&n, argument_at),
        None => {
            let argument = number.text;
            Err(
                PyRenderError::RenderError(
                    if number.is_float {
                        RenderError::InvalidArgumentFloat { argument, argument_at }
                    } else {
                        RenderError::InvalidArgumentInteger { argument, argument_at }
                    },
                ),
            )
        },
    }
}

/// Text that is to be rendered.
pub trait IntoOwnedContent {
    fn into_content(self) -> Content;
}

/// Text that is to be rendered, and stays.
pub trait AsBorrowedContent {
    fn as_content(&self) -> Content;
}

impl IntoOwnedContent for String {
    fn into_content(self) -> (r: Content)
        ensures
            r == Content::String(ContentString::String(self)),
    {
        Content::String(ContentString::String(self))
    }
}

impl AsBorrowedContent for str {
    fn as_content(&self) -> (r: Content)
        ensures
            r matches Content::String(ContentString::String(s)) && s@ == self@,
    {
        Content::String(ContentString::String(self.to_owned()))
    }
}

} // verus!
