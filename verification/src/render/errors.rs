//! What can go wrong while a template is rendered.
use vstd::prelude::*;
use crate::lexer::tokens::LexerFault;
use crate::text::At;
use crate::types::PyObject;

verus! {

/// What is wrong with the values that a template is rendered with. `S` stands for text.
#[derive(Debug, PartialEq, Eq)]
pub enum RenderError<S> {
    /// A value that does not have as many items as there are names to unpack it into.
    TupleUnpackError { expected_count: usize, actual_count: usize, expected_at: At, actual_at: At },
    /// An integer too large to be used.
    OverflowError { argument: S, argument_at: At },
    /// A value that is no string.
    InvalidArgumentString { argument_at: At },
    /// A value that cannot be converted to an integer.
    InvalidArgumentInteger { argument: S, argument_at: At },
    /// A number that cannot be converted to an integer.
    InvalidArgumentFloat { argument: S, argument_at: At },
    RelativePathError(LexerFault),
}

/// The exceptions that rendering raises of its own accord.
#[derive(Clone, Copy, Debug, PartialEq, Eq, Structural)]
pub enum PyException {
    TypeError,
    TemplateDoesNotExist,
}

/// Why a template could not be rendered. `S` stands for text.
#[derive(Debug, PartialEq, Eq)]
pub enum PyRenderError<S> {
    /// Python raised an error.
    PyErr(PyObject),
    /// Python raised an error, which is to point to a location in the template.
    Annotated { error: PyObject, at: At, label: S },
    /// An exception that points to a location in the template.
    Raised { exception: PyException, message: S, at: At, label: S },
    RenderError(RenderError<S>),
    /// A tree that no template has, or a context that lost what a tag had put there.
    Broken,
}

impl View for RenderError<String> {
    type V = RenderError<Seq<char>>;

    open spec fn view(&self) -> RenderError<Seq<char>> {
        match *self {
            RenderError::TupleUnpackError {
                expected_count,
                actual_count,
                expected_at,
                actual_at,
            } => RenderError::TupleUnpackError {
                expected_count,
                actual_count,
                expected_at,
                actual_at,
            },
            RenderError::OverflowError { argument, argument_at } => RenderError::OverflowError {
                argument: argument@,
                argument_at,
            },
            RenderError::InvalidArgumentString { argument_at } =>
                RenderError::InvalidArgumentString { argument_at },
            RenderError::InvalidArgumentInteger { argument, argument_at } =>
                RenderError::InvalidArgumentInteger { argument: argument@, argument_at },
            RenderError::InvalidArgumentFloat { argument, argument_at } =>
                RenderError::InvalidArgumentFloat { argument: argument@, argument_at },
            RenderError::RelativePathError(e) => RenderError::RelativePathError(e),
        }
    }
}

impl View for PyRenderError<String> {
    type V = PyRenderError<Seq<char>>;

    open spec fn view(&self) -> PyRenderError<Seq<char>> {
        match *self {
            PyRenderError::PyErr(e) => PyRenderError::PyErr(e),
            PyRenderError::Annotated { error, at, label } => PyRenderError::Annotated {
                error,
                at,
                label: label@,
            },
            PyRenderError::Raised { exception, message, at, label } => PyRenderError::Raised {
                exception,
                message: message@,
                at,
                label: label@,
            },
            PyRenderError::RenderError(e) => PyRenderError::RenderError(e@),
            PyRenderError::Broken => PyRenderError::Broken,
        }
    }
}

} // verus!
