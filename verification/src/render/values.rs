//! What values are written as, and what they count as.
use vstd::prelude::*;
use crate::integer::{decimal, decimal_text, law_text_reads_back, Integer};
use crate::render::content::{
    escaped, float_size, is_markup, law_escaped_holds_no_markup, py_size, python_text,
    rendered_text, size_of, source_of, truth_text, Content, ContentString, FloatNumber, PyNumber,
    PySource, PyText,
};
use crate::render::context::Context;
use crate::render::errors::{PyRenderError, RenderError};
use crate::text::At;
use crate::types::{Float, PyObject};

verus! {

/// Text that is not known to be safe is written without markup where text is escaped; all other
/// text is written as it is.
pub proof fn law_unsafe_text_is_escaped(value: ContentString<Seq<char>>, autoescape: bool)
    ensures
        autoescape && value is HtmlUnsafe ==> rendered_text(value, autoescape) == escaped(
            value->HtmlUnsafe_0,
        ) && forall|i: int|
            0 <= i < rendered_text(value, autoescape).len() ==> !is_markup(
                #[trigger] rendered_text(value, autoescape)[i],
            ),
        !autoescape || !(value is HtmlUnsafe) ==> rendered_text(value, autoescape) == (
        match value {
            ContentString::String(s) => s,
            ContentString::HtmlSafe(s) => s,
            ContentString::HtmlUnsafe(s) => s,
        }),
{
    law_escaped_holds_no_markup(value.raw());
}

/// What is written of a Python object is its text where text is not escaped. Elsewhere it is what
/// it says itself to be safe, or else its text without markup.
pub proof fn law_python_text_is_safe(text: PyText, autoescape: bool)
    ensures
        match python_text(text, autoescape) {
            Ok(s) => {
                let out = rendered_text(s, autoescape);
                if !autoescape {
                    text.text matches Ok(own) && out == own@
                } else {
                    match text.html {
                        Ok(Some(html)) => out == html@ && s is HtmlSafe,
                        Ok(None) => (text.text matches Ok(own) && out == escaped(own@))
                            && forall|i: int| 0 <= i < out.len() ==> !is_markup(#[trigger] out[i]),
                        Err(_) => false,
                    }
                }
            },
            Err(e) => {
                ||| text.text == Err::<String, _>(e)
                ||| autoescape && text.html == Err::<Option<String>, _>(e)
            },
        },
        text.text is Ok && (!autoescape || text.html is Ok) ==> python_text(text, autoescape)
            is Ok,
        autoescape && text.is_string && (text.html matches Ok(Some(_))) ==> python_text(
            text,
            autoescape,
        ) is Ok,
{
    if let Ok(own) = text.text {
        law_escaped_holds_no_markup(own@);
    }
}

/// An integer that fits is its own size, and one below zero has none.
pub proof fn law_sizes(n: int, at: At)
    ensures
        match size_of(n, at) {
            Ok(size) => {
                &&& isize::MIN <= n <= isize::MAX
                &&& n >= 0 ==> size == n
                &&& n < 0 ==> size == 0
            },
            Err(PyRenderError::RenderError(RenderError::OverflowError { argument, argument_at })) => {
                &&& n < isize::MIN || n > isize::MAX
                &&& decimal(argument) == Some(n)
                &&& argument_at == at
            },
            Err(_) => false,
        },
{
    law_text_reads_back(n);
}

/// What is not a number has no size, and is named as what it is.
pub proof fn law_no_sizes(float: FloatNumber, number: PyNumber, at: At)
    ensures
        float.whole matches Some(n) ==> float_size(float, at) == size_of(n@, at),
        float.whole is None ==> (float_size(float, at) matches Err(
            PyRenderError::RenderError(
                RenderError::InvalidArgumentFloat { argument, argument_at },
            ),
        ) && argument == float.text@ && argument_at == at),
        number.integer matches Some(n) ==> py_size(number, at) == size_of(n@, at),
        number.integer is None && number.is_float ==> (py_size(number, at) matches Err(
            PyRenderError::RenderError(
                RenderError::InvalidArgumentFloat { argument, argument_at },
            ),
        ) && argument == number.text@ && argument_at == at),
        number.integer is None && !number.is_float ==> (py_size(number, at) matches Err(
            PyRenderError::RenderError(
                RenderError::InvalidArgumentInteger { argument, argument_at },
            ),
        ) && argument == number.text@ && argument_at == at),
{
}

/// Truth values are written as Python writes them.
pub proof fn law_truth_values_are_written(truth: bool)
    ensures
        truth_text(truth) == "True"@ <==> truth,
        truth_text(truth) == "False"@ <==> !truth,
{
    reveal_strlit("True");
    assert("True"@.len() == 4);
    reveal_strlit("False");
    assert("False"@.len() == 5);
}

/// The number that is written of a value is the number that the text is.
pub proof fn law_written_numbers_are_numbers<
    P: FnOnce(PyObject) -> Option<Integer>,
    F: FnOnce(Float) -> Option<Integer>,
>(n: Integer, text: ContentString<String>, py_int: P, whole: F, a: Option<Integer>, b: Option<Integer>)
    requires
        text@.raw() == decimal_text(n@),
        call_ensures(Content::to_bigint::<P, F>, (&Content::Int(n), py_int, whole), a),
        call_ensures(Content::to_bigint::<P, F>, (&Content::String(text), py_int, whole), b),
    ensures
        a matches Some(a) && a@ == n@,
        b matches Some(b) && b@ == n@,
{
    law_text_reads_back(n@);
}

/// A truth value counts as one or as nothing, as a number and as a size.
pub proof fn law_truth_values_count<
    P: FnOnce(PyObject) -> Option<Integer>,
    F: FnOnce(Float) -> Option<Integer>,
    Q: FnOnce(PyObject) -> PyNumber,
    G: FnOnce(Float) -> FloatNumber,
>(
    truth: bool,
    at: At,
    py_int: P,
    whole: F,
    py_number: Q,
    float_number: G,
    number: Option<Integer>,
    size: Result<usize, PyRenderError<String>>,
)
    requires
        call_ensures(Content::to_bigint::<P, F>, (&Content::Bool(truth), py_int, whole), number),
        call_ensures(
            Content::resolve_usize::<Q, G>,
            (Content::Bool(truth), at, py_number, float_number),
            size,
        ),
    ensures
        number matches Some(n) && (n@ == 1 <==> truth) && (n@ == 0 <==> !truth),
        size matches Ok(n) && (n == 1 <==> truth) && (n == 0 <==> !truth),
{
}

/// What counts as true counts so whoever asks: a number that is not zero, a text that is not empty,
/// and what Python says is true.
pub proof fn law_values_count_as_true<P: FnOnce(PyObject) -> Result<bool, PyObject>>(
    content: Content,
    py_truth: P,
    asked: Result<bool, PyObject>,
    evaluated: bool,
)
    requires
        call_ensures(Content::to_bool::<P>, (&content, py_truth), asked),
        call_ensures(Content::evaluate::<P>, (&content, py_truth), evaluated),
        forall|o: PyObject, a: Result<bool, PyObject>, b: Result<bool, PyObject>|
            #![trigger py_truth.ensures((o,), a), py_truth.ensures((o,), b)]
            py_truth.ensures((o,), a) && py_truth.ensures((o,), b) ==> a == b,
    ensures
        evaluated <==> asked == Ok::<_, PyObject>(true),
        content matches Content::Int(n) ==> (evaluated <==> n@ != 0),
        content matches Content::Bool(b) ==> evaluated == b,
        content matches Content::String(s) ==> (evaluated <==> s@.raw() != Seq::<char>::empty()),
        content matches Content::Py(o) ==> py_truth.ensures((o,), asked),
        !(content is Py) ==> asked is Ok,
{
    if let Content::String(s) = content {
        if s@.raw().len() == 0 {
            assert(s@.raw() =~= Seq::<char>::empty());
        }
    }
}

/// A value goes to Python as what it is, and a text as a safe one just if it is safe.
pub proof fn law_values_go_to_python(content: Content)
    ensures
        match source_of(&content) {
            PySource::Object(o) => content == Content::Py(o),
            PySource::Int(n) => content == Content::Int(*n),
            PySource::Float(f) => content == Content::Float(f),
            PySource::Bool(b) => content == Content::Bool(b),
            PySource::SafeStr(s) => content == Content::String(ContentString::HtmlSafe(*s)),
            PySource::Str(s) => content is String && content->String_0.raw() == *s
                && !(content->String_0 is HtmlSafe),
        },
{
}

/// Where nothing but text will do, text is taken as it is, and a number or a truth value is refused
/// where it stands.
pub proof fn law_only_text_is_text<P: FnOnce(PyObject) -> PyText>(
    content: Content,
    context: Context,
    at: At,
    py_text: P,
    outcome: Result<ContentString<String>, PyRenderError<String>>,
)
    requires
        call_ensures(
            Content::resolve_string_strict::<P>,
            (content, &context, at, py_text),
            outcome,
        ),
    ensures
        content matches Content::String(s) ==> outcome == Ok::<_, PyRenderError<String>>(s),
        content is Int || content is Float || content is Bool ==> (outcome matches Err(
            PyRenderError::RenderError(RenderError::InvalidArgumentString { argument_at }),
        ) && argument_at == at),
{
}

/// Elsewhere a value is taken as what is written of it: the text of a number reads as this number.
pub proof fn law_values_resolve_to_texts<
    P: FnOnce(PyObject) -> PyText,
    F: FnOnce(Float) -> String,
>(
    content: Content,
    context: Context,
    py_text: P,
    float_text: F,
    outcome: Result<ContentString<String>, PyObject>,
)
    requires
        call_ensures(
            Content::resolve_string::<P, F>,
            (content, &context, py_text, float_text),
            outcome,
        ),
    ensures
        content matches Content::String(s) ==> outcome == Ok::<_, PyObject>(s),
        content matches Content::Int(n) ==> (outcome matches Ok(s) && s is String && decimal(
            s@.raw(),
        ) == Some(n@)),
        content matches Content::Bool(b) ==> (outcome matches Ok(s) && s is String && (s@.raw()
            == "True"@ <==> b)),
        content matches Content::Float(f) ==> (outcome matches Ok(ContentString::String(text))
            && float_text.ensures((f,), text)),
{
    if let Content::Int(n) = content {
        law_text_reads_back(n@);
    }
    if let Content::Bool(b) = content {
        law_truth_values_are_written(b);
    }
}

/// Text that is made from other text is as safe as that is.
pub proof fn law_safety_is_kept<F: FnOnce(String) -> String>(
    text: ContentString<String>,
    f: F,
    outcome: Content,
)
    requires
        call_ensures(ContentString::<String>::map_content::<F>, (text, f), outcome),
    ensures
        outcome is String,
        outcome->String_0 is HtmlSafe <==> text is HtmlSafe,
        outcome->String_0 is HtmlUnsafe <==> text is HtmlUnsafe,
        f.ensures((text.raw(),), outcome->String_0.raw()),
{
}

} // verus!
