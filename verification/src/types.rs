//! The values that templates are made of.
use vstd::prelude::*;
use vstd::std_specs::convert::FromSpecImpl;
use crate::dict::Duplicate;
use crate::integer::Integer;
use crate::text::At;

verus! {

/// One of two values.
#[derive(Debug, PartialEq, Eq)]
pub enum Either<L, R> {
    Left(L),
    Right(R),
}

/// A floating point number, known by its bits only.
#[derive(Clone, Copy, Debug, PartialEq, Eq, Structural)]
pub struct Float {
    pub bits: u64,
}

/// A Python object, known by its identity only.
#[derive(Clone, Copy, Debug, PartialEq, Eq, Structural)]
pub struct PyObject {
    pub id: u64,
}

impl View for PyObject {
    type V = PyObject;

    open spec fn view(&self) -> PyObject {
        *self
    }
}

impl Duplicate for PyObject {
    fn duplicate(&self) -> (r: Self) {
        *self
    }
}

/// A string literal, or text between tags.
#[derive(Clone, Copy, Debug, PartialEq, Eq)]
pub struct Text {
    pub at: At,
}

impl Text {
    pub fn new(at: At) -> (r: Self)
        ensures
            r == (Text { at }),
    {
        Text { at }
    }
}

/// A string literal to be translated.
#[derive(Clone, Copy, Debug, PartialEq, Eq)]
pub struct TranslatedText {
    pub at: At,
}

impl TranslatedText {
    pub fn new(at: At) -> (r: Self)
        ensures
            r == (TranslatedText { at }),
    {
        TranslatedText { at }
    }
}

/// A name to look up in the context, with the attributes to look up in turn.
#[derive(Clone, Copy, Debug, PartialEq, Eq)]
pub struct Variable {
    pub at: At,
}

impl Variable {
    pub fn new(at: At) -> (r: Self)
        ensures
            r == (Variable { at }),
    {
        Variable { at }
    }
}

/// What a `forloop` variable asks of a loop.
#[derive(Clone, Copy, Debug, PartialEq, Eq, Structural)]
pub enum ForVariableName {
    Counter,
    Counter0,
    RevCounter,
    RevCounter0,
    First,
    Last,
    Object,
}

/// A `forloop` variable: it speaks of the loop that `parent_count` loops lie within.
#[derive(Clone, Copy, Debug, PartialEq, Eq)]
pub struct ForVariable {
    pub variant: ForVariableName,
    pub parent_count: usize,
    pub at: At,
}

/// The value of the argument of a filter. `I` stands for the integers.
#[derive(Debug, PartialEq)]
pub enum ArgumentType<I> {
    Variable(Variable),
    ForVariable(ForVariable),
    Text(Text),
    TranslatedText(TranslatedText),
    Int(I),
    Float(Float),
}

/// The argument of a filter. `I` stands for the integers.
#[derive(Debug, PartialEq)]
pub struct Argument<I> {
    pub at: At,
    pub argument_type: ArgumentType<I>,
}

impl View for ArgumentType<Integer> {
    type V = ArgumentType<int>;

    open spec fn view(&self) -> ArgumentType<int> {
        match *self {
            ArgumentType::Variable(v) => ArgumentType::Variable(v),
            ArgumentType::ForVariable(v) => ArgumentType::ForVariable(v),
            ArgumentType::Text(t) => ArgumentType::Text(t),
            ArgumentType::TranslatedText(t) => ArgumentType::TranslatedText(t),
            ArgumentType::Int(n) => ArgumentType::Int(n@),
            ArgumentType::Float(f) => ArgumentType::Float(f),
        }
    }
}

impl View for Argument<Integer> {
    type V = Argument<int>;

    open spec fn view(&self) -> Argument<int> {
        Argument { at: self.at, argument_type: self.argument_type@ }
    }
}

impl Duplicate for ArgumentType<Integer> {
    fn duplicate(&self) -> (r: Self) {
        match self {
            ArgumentType::Variable(v) => ArgumentType::Variable(*v),
            ArgumentType::ForVariable(v) => ArgumentType::ForVariable(*v),
            ArgumentType::Text(t) => ArgumentType::Text(*t),
            ArgumentType::TranslatedText(t) => ArgumentType::TranslatedText(*t),
            ArgumentType::Int(n) => ArgumentType::Int(n.duplicate()),
            ArgumentType::Float(f) => ArgumentType::Float(*f),
        }
    }
}

impl Duplicate for Argument<Integer> {
    fn duplicate(&self) -> (r: Self) {
        Argument { at: self.at, argument_type: self.argument_type.duplicate() }
    }
}

/// The argument that a variable is.
pub open spec fn variable_argument(variable: Either<Variable, ForVariable>) -> ArgumentType<int> {
    match variable {
        Either::Left(v) => ArgumentType::Variable(v),
        Either::Right(v) => ArgumentType::ForVariable(v),
    }
}

impl From<Either<Variable, ForVariable>> for ArgumentType<Integer> {
    fn from(variable: Either<Variable, ForVariable>) -> (r: Self)
        ensures
            r@ == variable_argument(variable),
    {
        match variable {
            Either::Left(v) => ArgumentType::Variable(v),
            Either::Right(v) => ArgumentType::ForVariable(v),
        }
    }
}

impl FromSpecImpl<Either<Variable, ForVariable>> for ArgumentType<Integer> {
    open spec fn obeys_from_spec() -> bool {
        true
    }

    open spec fn from_spec(variable: Either<Variable, ForVariable>) -> Self {
        match variable {
            Either::Left(v) => ArgumentType::Variable(v),
            Either::Right(v) => ArgumentType::ForVariable(v),
        }
    }
}

} // verus!
