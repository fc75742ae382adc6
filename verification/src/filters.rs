//! The filters that a template can apply. `I` stands for the integers throughout.
use vstd::prelude::*;
use crate::dict::{option_view, Duplicate};
use crate::integer::Integer;
use crate::text::At;
use crate::types::{Argument, PyObject};

verus! {

#[derive(Debug, PartialEq)]
pub struct AddFilter<I> {
    pub argument: Argument<I>,
}

#[derive(Clone, Copy, Debug, PartialEq, Eq)]
pub struct AddSlashesFilter;

#[derive(Clone, Copy, Debug, PartialEq, Eq)]
pub struct CapfirstFilter;

#[derive(Debug, PartialEq)]
pub struct CenterFilter<I> {
    pub argument: Argument<I>,
}

#[derive(Debug, PartialEq)]
pub struct CutFilter<I> {
    pub argument: Argument<I>,
}

#[derive(Debug, PartialEq)]
pub struct DateFilter<I> {
    pub argument: Option<Argument<I>>,
    pub at: At,
}

#[derive(Debug, PartialEq)]
pub struct DefaultFilter<I> {
    pub argument: Argument<I>,
    pub at: At,
}

#[derive(Debug, PartialEq)]
pub struct DefaultIfNoneFilter<I> {
    pub argument: Argument<I>,
}

#[derive(Debug, PartialEq)]
pub struct DivisibleByFilter<I> {
    pub at: At,
    pub argument: Argument<I>,
}

#[derive(Clone, Copy, Debug, PartialEq, Eq)]
pub struct EscapeFilter;

#[derive(Clone, Copy, Debug, PartialEq, Eq)]
pub struct EscapejsFilter;

/// A filter that a tag library defines.
#[derive(Debug, PartialEq)]
pub struct ExternalFilter<I> {
    pub filter: PyObject,
    pub argument: Option<Argument<I>>,
}

#[derive(Clone, Copy, Debug, PartialEq, Eq)]
pub struct ForceEscapeFilter;

#[derive(Clone, Copy, Debug, PartialEq, Eq)]
pub struct LastFilter {
    pub at: At,
}

#[derive(Clone, Copy, Debug, PartialEq, Eq)]
pub struct LengthFilter;

#[derive(Clone, Copy, Debug, PartialEq, Eq)]
pub struct LowerFilter;

#[derive(Clone, Copy, Debug, PartialEq, Eq)]
pub struct SafeFilter;

#[derive(Clone, Copy, Debug, PartialEq, Eq)]
pub struct SlugifyFilter;

#[derive(Clone, Copy, Debug, PartialEq, Eq)]
pub struct TitleFilter;

#[derive(Clone, Copy, Debug, PartialEq, Eq)]
pub struct UpperFilter;

#[derive(Clone, Copy, Debug, PartialEq, Eq)]
pub struct WordcountFilter;

#[derive(Debug, PartialEq)]
pub struct WordwrapFilter<I> {
    pub argument: Argument<I>,
}

#[derive(Debug, PartialEq)]
pub struct YesnoFilter<I> {
    pub at: At,
    pub argument: Option<Argument<I>>,
}

/// A filter and its argument.
#[derive(Debug, PartialEq)]
pub enum FilterType<I> {
    Add(AddFilter<I>),
    AddSlashes(AddSlashesFilter),
    Capfirst(CapfirstFilter),
    Center(CenterFilter<I>),
    Cut(CutFilter<I>),
    Date(DateFilter<I>),
    Default(DefaultFilter<I>),
    DefaultIfNone(DefaultIfNoneFilter<I>),
    DivisibleBy(DivisibleByFilter<I>),
    Escape(EscapeFilter),
    Escapejs(EscapejsFilter),
    External(ExternalFilter<I>),
    ForceEscape(ForceEscapeFilter),
    Last(LastFilter),
    Length(LengthFilter),
    Lower(LowerFilter),
    Safe(SafeFilter),
    Slugify(SlugifyFilter),
    Title(TitleFilter),
    Upper(UpperFilter),
    Wordcount(WordcountFilter),
    Wordwrap(WordwrapFilter<I>),
    Yesno(YesnoFilter<I>),
}

impl View for FilterType<Integer> {
    type V = FilterType<int>;

    open spec fn view(&self) -> FilterType<int> {
        match *self {
            FilterType::Add(f) => FilterType::Add(AddFilter { argument: f.argument@ }),
            FilterType::AddSlashes(f) => FilterType::AddSlashes(f),
            FilterType::Capfirst(f) => FilterType::Capfirst(f),
            FilterType::Center(f) => FilterType::Center(CenterFilter { argument: f.argument@ }),
            FilterType::Cut(f) => FilterType::Cut(CutFilter { argument: f.argument@ }),
            FilterType::Date(f) => FilterType::Date(
                DateFilter { argument: option_view(f.argument), at: f.at },
            ),
            FilterType::Default(f) => FilterType::Default(
                DefaultFilter { argument: f.argument@, at: f.at },
            ),
            FilterType::DefaultIfNone(f) => FilterType::DefaultIfNone(
                DefaultIfNoneFilter { argument: f.argument@ },
            ),
            FilterType::DivisibleBy(f) => FilterType::DivisibleBy(
                DivisibleByFilter { at: f.at, argument: f.argument@ },
            ),
            FilterType::Escape(f) => FilterType::Escape(f),
            FilterType::Escapejs(f) => FilterType::Escapejs(f),
            FilterType::External(f) => FilterType::External(
                ExternalFilter { filter: f.filter, argument: option_view(f.argument) },
            ),
            FilterType::ForceEscape(f) => FilterType::ForceEscape(f),
            FilterType::Last(f) => FilterType::Last(f),
            FilterType::Length(f) => FilterType::Length(f),
            FilterType::Lower(f) => FilterType::Lower(f),
            FilterType::Safe(f) => FilterType::Safe(f),
            FilterType::Slugify(f) => FilterType::Slugify(f),
            FilterType::Title(f) => FilterType::Title(f),
            FilterType::Upper(f) => FilterType::Upper(f),
            FilterType::Wordcount(f) => FilterType::Wordcount(f),
            FilterType::Wordwrap(f) => FilterType::Wordwrap(
                WordwrapFilter { argument: f.argument@ },
            ),
            FilterType::Yesno(f) => FilterType::Yesno(
                YesnoFilter { at: f.at, argument: option_view(f.argument) },
            ),
        }
    }
}

/// The argument of a filter that may go without one.
fn duplicate_argument(argument: &Option<Argument<Integer>>) -> (r: Option<Argument<Integer>>)
    ensures
        option_view(r) == option_view(*argument),
{
    match argument {
        Some(a) => Some(a.duplicate()),
        None => None,
    }
}

impl Duplicate for FilterType<Integer> {
    fn duplicate(&self) -> (r: Self) {
        match self {
            FilterType::Add(f) => FilterType::Add(AddFilter { argument: f.argument.duplicate() }),
            FilterType::AddSlashes(f) => FilterType::AddSlashes(*f),
            FilterType::Capfirst(f) => FilterType::Capfirst(*f),
            FilterType::Center(f) => FilterType::Center(
                CenterFilter { argument: f.argument.duplicate() },
            ),
            FilterType::Cut(f) => FilterType::Cut(CutFilter { argument: f.argument.duplicate() }),
            FilterType::Date(f) => FilterType::Date(
                DateFilter { argument: duplicate_argument(&f.argument), at: f.at },
            ),
            FilterType::Default(f) => FilterType::Default(
                DefaultFilter { argument: f.argument.duplicate(), at: f.at },
            ),
            FilterType::DefaultIfNone(f) => FilterType::DefaultIfNone(
                DefaultIfNoneFilter { argument: f.argument.duplicate() },
            ),
            FilterType::DivisibleBy(f) => FilterType::DivisibleBy(
                DivisibleByFilter { at: f.at, argument: f.argument.duplicate() },
            ),
            FilterType::Escape(f) => FilterType::Escape(*f),
            FilterType::Escapejs(f) => FilterType::Escapejs(*f),
            FilterType::External(f) => FilterType::External(
                ExternalFilter { filter: f.filter, argument: duplicate_argument(&f.argument) },
            ),
            FilterType::ForceEscape(f) => FilterType::ForceEscape(*f),
            FilterType::Last(f) => FilterType::Last(*f),
            FilterType::Length(f) => FilterType::Length(*f),
            FilterType::Lower(f) => FilterType::Lower(*f),
            FilterType::Safe(f) => FilterType::Safe(*f),
            FilterType::Slugify(f) => FilterType::Slugify(*f),
            FilterType::Title(f) => FilterType::Title(*f),
            FilterType::Upper(f) => FilterType::Upper(*f),
            FilterType::Wordcount(f) => FilterType::Wordcount(*f),
            FilterType::Wordwrap(f) => FilterType::Wordwrap(
                WordwrapFilter { argument: f.argument.duplicate() },
            ),
            FilterType::Yesno(f) => FilterType::Yesno(
                YesnoFilter { at: f.at, argument: duplicate_argument(&f.argument) },
            ),
        }
    }
}

} // verus!
