//! The tree of a template.
//!
//! `I` stands for the integers and `S` for text: the executable types hold [`Integer`] and
//! `String`, their views `int` and `Seq<char>`. Where a type holds a vector, its view is a type
//! of its own.
use vstd::prelude::*;
use vstd::std_specs::convert::FromSpecImpl;
use crate::dict::{duplicate_all, option_view, views, Duplicate};
use crate::filters::FilterType;
use crate::integer::Integer;
use crate::lexer::tokens::{AutoescapeEnabled, LoremMethod, TemplateTag};
use crate::text::At;
use crate::types::{Either, Float, ForVariable, PyObject, Text, Variable};

verus! {

/// A value in a template.
#[derive(Debug, PartialEq)]
pub enum TagElement<I> {
    Int(I),
    Float(Float),
    Text(Text),
    TranslatedText(Text),
    Variable(Variable),
    ForVariable(ForVariable),
    Filter(Box<Filter<I>>),
}

/// A filter and what it is applied to.
#[derive(Debug, PartialEq)]
pub struct Filter<I> {
    pub at: At,
    pub all_at: At,
    pub left: TagElement<I>,
    pub filter: FilterType<I>,
}

pub open spec fn element_view(element: TagElement<Integer>) -> TagElement<int>
    decreases element,
{
    match element {
        TagElement::Int(n) => TagElement::Int(n@),
        TagElement::Float(f) => TagElement::Float(f),
        TagElement::Text(t) => TagElement::Text(t),
        TagElement::TranslatedText(t) => TagElement::TranslatedText(t),
        TagElement::Variable(v) => TagElement::Variable(v),
        TagElement::ForVariable(v) => TagElement::ForVariable(v),
        TagElement::Filter(f) => TagElement::Filter(
            Box::new(
                Filter {
                    at: f.at,
                    all_at: f.all_at,
                    left: element_view(f.left),
                    filter: f.filter@,
                },
            ),
        ),
    }
}

impl View for TagElement<Integer> {
    type V = TagElement<int>;

    open spec fn view(&self) -> TagElement<int> {
        element_view(*self)
    }
}

impl View for Filter<Integer> {
    type V = Filter<int>;

    open spec fn view(&self) -> Filter<int> {
        Filter { at: self.at, all_at: self.all_at, left: self.left@, filter: self.filter@ }
    }
}

/// Another value with the same view.
fn duplicate_element(element: &TagElement<Integer>) -> (r: TagElement<Integer>)
    ensures
        r@ == element@,
    decreases element,
{
    match element {
        TagElement::Int(n) => TagElement::Int(n.duplicate()),
        TagElement::Float(f) => TagElement::Float(*f),
        TagElement::Text(t) => TagElement::Text(*t),
        TagElement::TranslatedText(t) => TagElement::TranslatedText(*t),
        TagElement::Variable(v) => TagElement::Variable(*v),
        TagElement::ForVariable(v) => TagElement::ForVariable(*v),
        TagElement::Filter(f) => TagElement::Filter(
            Box::new(
                Filter {
                    at: f.at,
                    all_at: f.all_at,
                    left: duplicate_element(&f.left),
                    filter: f.filter.duplicate(),
                },
            ),
        ),
    }
}

impl Duplicate for TagElement<Integer> {
    fn duplicate(&self) -> (r: Self) {
        duplicate_element(self)
    }
}

/// The value that a variable is.
pub open spec fn variable_element(variable: Either<Variable, ForVariable>) -> TagElement<int> {
    match variable {
        Either::Left(v) => TagElement::Variable(v),
        Either::Right(v) => TagElement::ForVariable(v),
    }
}

impl From<Either<Variable, ForVariable>> for TagElement<Integer> {
    fn from(variable: Either<Variable, ForVariable>) -> (r: Self)
        ensures
            r@ == variable_element(variable),
    {
        match variable {
            Either::Left(v) => TagElement::Variable(v),
            Either::Right(v) => TagElement::ForVariable(v),
        }
    }
}

impl FromSpecImpl<Either<Variable, ForVariable>> for TagElement<Integer> {
    open spec fn obeys_from_spec() -> bool {
        true
    }

    open spec fn from_spec(variable: Either<Variable, ForVariable>) -> Self {
        match variable {
            Either::Left(v) => TagElement::Variable(v),
            Either::Right(v) => TagElement::ForVariable(v),
        }
    }
}

/// A URL to be looked up by the name of its view.
#[derive(Debug, PartialEq)]
pub struct Url {
    pub at: At,
    pub view_name: TagElement<Integer>,
    pub args: Vec<TagElement<Integer>>,
    pub kwargs: Vec<(String, TagElement<Integer>)>,
    pub asvar: Option<String>,
}

pub struct UrlView {
    pub at: At,
    pub view_name: TagElement<int>,
    pub args: Seq<TagElement<int>>,
    pub kwargs: Seq<(Seq<char>, TagElement<int>)>,
    pub asvar: Option<Seq<char>>,
}

impl View for Url {
    type V = UrlView;

    open spec fn view(&self) -> UrlView {
        UrlView {
            at: self.at,
            view_name: self.view_name@,
            args: views(self.args@),
            kwargs: views(self.kwargs@),
            asvar: option_view(self.asvar),
        }
    }
}

/// A condition of an if tag.
#[derive(Debug, PartialEq)]
pub enum IfCondition<I> {
    Variable(TagElement<I>),
    And(Box<(IfCondition<I>, IfCondition<I>)>),
    Or(Box<(IfCondition<I>, IfCondition<I>)>),
    Not(Box<IfCondition<I>>),
    Equal(Box<(IfCondition<I>, IfCondition<I>)>),
    NotEqual(Box<(IfCondition<I>, IfCondition<I>)>),
    LessThan(Box<(IfCondition<I>, IfCondition<I>)>),
    GreaterThan(Box<(IfCondition<I>, IfCondition<I>)>),
    LessThanEqual(Box<(IfCondition<I>, IfCondition<I>)>),
    GreaterThanEqual(Box<(IfCondition<I>, IfCondition<I>)>),
    In(Box<(IfCondition<I>, IfCondition<I>)>),
    NotIn(Box<(IfCondition<I>, IfCondition<I>)>),
    Is(Box<(IfCondition<I>, IfCondition<I>)>),
    IsNot(Box<(IfCondition<I>, IfCondition<I>)>),
}

pub open spec fn condition_view(condition: IfCondition<Integer>) -> IfCondition<int>
    decreases condition,
{
    match condition {
        IfCondition::Variable(element) => IfCondition::Variable(element@),
        IfCondition::And(c) => IfCondition::And(
            Box::new((condition_view(c.0), condition_view(c.1))),
        ),
        IfCondition::Or(c) => IfCondition::Or(Box::new((condition_view(c.0), condition_view(c.1)))),
        IfCondition::Not(c) => IfCondition::Not(Box::new(condition_view(*c))),
        IfCondition::Equal(c) => IfCondition::Equal(
            Box::new((condition_view(c.0), condition_view(c.1))),
        ),
        IfCondition::NotEqual(c) => IfCondition::NotEqual(
            Box::new((condition_view(c.0), condition_view(c.1))),
        ),
        IfCondition::LessThan(c) => IfCondition::LessThan(
            Box::new((condition_view(c.0), condition_view(c.1))),
        ),
        IfCondition::GreaterThan(c) => IfCondition::GreaterThan(
            Box::new((condition_view(c.0), condition_view(c.1))),
        ),
        IfCondition::LessThanEqual(c) => IfCondition::LessThanEqual(
            Box::new((condition_view(c.0), condition_view(c.1))),
        ),
        IfCondition::GreaterThanEqual(c) => IfCondition::GreaterThanEqual(
            Box::new((condition_view(c.0), condition_view(c.1))),
        ),
        IfCondition::In(c) => IfCondition::In(Box::new((condition_view(c.0), condition_view(c.1)))),
        IfCondition::NotIn(c) => IfCondition::NotIn(
            Box::new((condition_view(c.0), condition_view(c.1))),
        ),
        IfCondition::Is(c) => IfCondition::Is(Box::new((condition_view(c.0), condition_view(c.1)))),
        IfCondition::IsNot(c) => IfCondition::IsNot(
            Box::new((condition_view(c.0), condition_view(c.1))),
        ),
    }
}

impl View for IfCondition<Integer> {
    type V = IfCondition<int>;

    open spec fn view(&self) -> IfCondition<int> {
        condition_view(*self)
    }
}

/// What a for loop iterates over.
#[derive(Debug, PartialEq)]
pub struct ForIterable<I> {
    pub iterable: TagElement<I>,
    pub at: At,
}

impl View for ForIterable<Integer> {
    type V = ForIterable<int>;

    open spec fn view(&self) -> ForIterable<int> {
        ForIterable { iterable: self.iterable@, at: self.at }
    }
}

/// The names that a for loop binds.
#[derive(Debug, PartialEq, Eq)]
pub struct ForNames {
    pub names: Vec<String>,
    pub at: At,
}

pub struct ForNamesView {
    pub names: Seq<Seq<char>>,
    pub at: At,
}

impl View for ForNames {
    type V = ForNamesView;

    open spec fn view(&self) -> ForNamesView {
        ForNamesView { names: views(self.names@), at: self.at }
    }
}

/// A for loop.
#[derive(Debug, PartialEq)]
pub struct For {
    pub iterable: ForIterable<Integer>,
    pub variables: ForNames,
    pub reversed: bool,
    pub body: Vec<TokenTree>,
    pub empty: Option<Vec<TokenTree>>,
}

pub struct ForView {
    pub iterable: ForIterable<int>,
    pub variables: ForNamesView,
    pub reversed: bool,
    pub body: Seq<TokenTreeView>,
    pub empty: Option<Seq<TokenTreeView>>,
}

/// A path that was relative to the template at hand.
#[derive(Debug, PartialEq, Eq)]
pub struct RelativePath<S> {
    pub at: At,
    pub path: S,
}

/// The name of a template to render in place of a tag.
#[derive(Debug, PartialEq)]
pub enum IncludeTemplateName<I, S> {
    Text(Text),
    Variable(TagElement<I>),
    Relative(RelativePath<S>),
}

impl View for IncludeTemplateName<Integer, String> {
    type V = IncludeTemplateName<int, Seq<char>>;

    open spec fn view(&self) -> IncludeTemplateName<int, Seq<char>> {
        match *self {
            IncludeTemplateName::Text(text) => IncludeTemplateName::Text(text),
            IncludeTemplateName::Variable(element) => IncludeTemplateName::Variable(element@),
            IncludeTemplateName::Relative(path) => IncludeTemplateName::Relative(
                RelativePath { at: path.at, path: path.path@ },
            ),
        }
    }
}

/// A template to render in place of a tag.
#[derive(Debug)]
pub struct Include {
    pub template_name: IncludeTemplateName<Integer, String>,
    pub origin: Option<String>,
    pub engine: PyObject,
    pub only: bool,
    pub kwargs: Vec<(At, TagElement<Integer>)>,
}

pub struct IncludeView {
    pub template_name: IncludeTemplateName<int, Seq<char>>,
    pub origin: Option<Seq<char>>,
    pub engine: PyObject,
    pub only: bool,
    pub kwargs: Seq<(At, TagElement<int>)>,
}

/// The view of elements with the locations of their keywords.
pub open spec fn located_views(kwargs: Seq<(At, TagElement<Integer>)>) -> Seq<
    (At, TagElement<int>),
> {
    kwargs.map_values(|kwarg: (At, TagElement<Integer>)| (kwarg.0, kwarg.1@))
}

impl View for Include {
    type V = IncludeView;

    open spec fn view(&self) -> IncludeView {
        IncludeView {
            template_name: self.template_name@,
            origin: option_view(self.origin),
            engine: self.engine,
            only: self.only,
            kwargs: located_views(self.kwargs@),
        }
    }
}

/// A tag that a library defines.
#[derive(Debug)]
pub struct SimpleTag {
    pub func: PyObject,
    pub at: At,
    pub takes_context: bool,
    pub args: Vec<TagElement<Integer>>,
    pub kwargs: Vec<(String, TagElement<Integer>)>,
    pub target_var: Option<String>,
}

pub struct SimpleTagView {
    pub func: PyObject,
    pub at: At,
    pub takes_context: bool,
    pub args: Seq<TagElement<int>>,
    pub kwargs: Seq<(Seq<char>, TagElement<int>)>,
    pub target_var: Option<Seq<char>>,
}

impl View for SimpleTag {
    type V = SimpleTagView;

    open spec fn view(&self) -> SimpleTagView {
        SimpleTagView {
            func: self.func,
            at: self.at,
            takes_context: self.takes_context,
            args: views(self.args@),
            kwargs: views(self.kwargs@),
            target_var: option_view(self.target_var),
        }
    }
}

/// A tag that a library defines, around other nodes.
#[derive(Debug)]
pub struct SimpleBlockTag {
    pub func: PyObject,
    pub nodes: Vec<TokenTree>,
    pub at: At,
    pub takes_context: bool,
    pub args: Vec<TagElement<Integer>>,
    pub kwargs: Vec<(String, TagElement<Integer>)>,
    pub target_var: Option<String>,
}

pub struct SimpleBlockTagView {
    pub func: PyObject,
    pub nodes: Seq<TokenTreeView>,
    pub at: At,
    pub takes_context: bool,
    pub args: Seq<TagElement<int>>,
    pub kwargs: Seq<(Seq<char>, TagElement<int>)>,
    pub target_var: Option<Seq<char>>,
}

#[derive(Clone, Copy, Debug, PartialEq, Eq)]
pub struct Comment;

#[derive(Clone, Copy, Debug, PartialEq, Eq)]
pub struct CsrfToken;

/// Placeholder text.
#[derive(Debug, PartialEq)]
pub struct Lorem<I> {
    pub count: TagElement<I>,
    pub method: LoremMethod,
    pub common: bool,
}

impl View for Lorem<Integer> {
    type V = Lorem<int>;

    open spec fn view(&self) -> Lorem<int> {
        Lorem { count: self.count@, method: self.method, common: self.common }
    }
}

/// The current date.
#[derive(Debug, PartialEq)]
pub struct Now<S> {
    pub format: S,
    pub asvar: Option<At>,
}

impl View for Now<String> {
    type V = Now<Seq<char>>;

    open spec fn view(&self) -> Now<Seq<char>> {
        Now { format: self.format@, asvar: self.asvar }
    }
}

/// The first of some values that is true.
#[derive(Debug, PartialEq)]
pub struct FirstOf {
    pub vars: Vec<TagElement<Integer>>,
    pub asvar: Option<String>,
}

pub struct FirstOfView {
    pub vars: Seq<TagElement<int>>,
    pub asvar: Option<Seq<char>>,
}

impl View for FirstOf {
    type V = FirstOfView;

    open spec fn view(&self) -> FirstOfView {
        FirstOfView { vars: views(self.vars@), asvar: option_view(self.asvar) }
    }
}

/// What tells one cycle from another.
#[derive(Clone, Copy, Debug, PartialEq, Eq, Hash, Structural)]
pub struct CycleId(pub usize);

#[derive(Debug, PartialEq)]
pub struct SimpleCycle {
    pub id: CycleId,
    pub values: Vec<TagElement<Integer>>,
}

pub struct SimpleCycleView {
    pub id: CycleId,
    pub values: Seq<TagElement<int>>,
}

impl View for SimpleCycle {
    type V = SimpleCycleView;

    open spec fn view(&self) -> SimpleCycleView {
        SimpleCycleView { id: self.id, values: views(self.values@) }
    }
}

impl Duplicate for SimpleCycle {
    fn duplicate(&self) -> (r: Self) {
        SimpleCycle { id: self.id, values: duplicate_all(&self.values) }
    }
}

#[derive(Debug, PartialEq)]
pub struct NamedCycle {
    pub cycle: SimpleCycle,
    pub asvar: String,
}

pub struct NamedCycleView {
    pub cycle: SimpleCycleView,
    pub asvar: Seq<char>,
}

impl View for NamedCycle {
    type V = NamedCycleView;

    open spec fn view(&self) -> NamedCycleView {
        NamedCycleView { cycle: self.cycle@, asvar: self.asvar@ }
    }
}

impl Duplicate for NamedCycle {
    fn duplicate(&self) -> (r: Self) {
        NamedCycle { cycle: self.cycle.duplicate(), asvar: self.asvar.clone() }
    }
}

#[derive(Debug, PartialEq)]
pub struct SilentNamedCycle {
    pub cycle: NamedCycle,
}

/// Values that take turns.
#[derive(Debug, PartialEq)]
pub enum Cycle {
    Simple(SimpleCycle),
    Named(NamedCycle),
    SilentNamed(SilentNamedCycle),
}

pub enum CycleView {
    Simple(SimpleCycleView),
    Named(NamedCycleView),
    SilentNamed(NamedCycleView),
}

impl View for Cycle {
    type V = CycleView;

    open spec fn view(&self) -> CycleView {
        match *self {
            Cycle::Simple(cycle) => CycleView::Simple(cycle@),
            Cycle::Named(cycle) => CycleView::Named(cycle@),
            Cycle::SilentNamed(cycle) => CycleView::SilentNamed(cycle.cycle@),
        }
    }
}

impl Duplicate for Cycle {
    fn duplicate(&self) -> (r: Self) {
        match self {
            Cycle::Simple(cycle) => Cycle::Simple(cycle.duplicate()),
            Cycle::Named(cycle) => Cycle::Named(cycle.duplicate()),
            Cycle::SilentNamed(cycle) => Cycle::SilentNamed(
                SilentNamedCycle { cycle: cycle.cycle.duplicate() },
            ),
        }
    }
}

/// A tag.
#[derive(Debug, PartialEq)]
pub enum Tag {
    Autoescape { enabled: AutoescapeEnabled, nodes: Vec<TokenTree> },
    If {
        condition: IfCondition<Integer>,
        truthy: Vec<TokenTree>,
        falsey: Option<Vec<TokenTree>>,
    },
    For(For),
    Include(Include),
    Load,
    SimpleTag(SimpleTag),
    SimpleBlockTag(SimpleBlockTag),
    Url(Url),
    CsrfToken(CsrfToken),
    Lorem(Lorem<Integer>),
    Comment(Comment),
    Now(Now<String>),
    FirstOf(FirstOf),
    TemplateTag(TemplateTag),
    Cycle(Cycle),
}

pub enum TagView {
    Autoescape { enabled: AutoescapeEnabled, nodes: Seq<TokenTreeView> },
    If {
        condition: IfCondition<int>,
        truthy: Seq<TokenTreeView>,
        falsey: Option<Seq<TokenTreeView>>,
    },
    For(ForView),
    Include(IncludeView),
    Load,
    SimpleTag(SimpleTagView),
    SimpleBlockTag(SimpleBlockTagView),
    Url(UrlView),
    CsrfToken(CsrfToken),
    Lorem(Lorem<int>),
    Comment(Comment),
    Now(Now<Seq<char>>),
    FirstOf(FirstOfView),
    TemplateTag(TemplateTag),
    Cycle(CycleView),
}

/// A node of the tree of a template.
#[derive(Debug, PartialEq)]
pub enum TokenTree {
    Text(Text),
    TranslatedText(Text),
    Int(Integer),
    Float(Float),
    Tag(Tag),
    Variable(Variable),
    ForVariable(ForVariable),
    Filter(Box<Filter<Integer>>),
}

pub enum TokenTreeView {
    Text(Text),
    TranslatedText(Text),
    Int(int),
    Float(Float),
    Tag(TagView),
    Variable(Variable),
    ForVariable(ForVariable),
    Filter(Filter<int>),
}

pub open spec fn nodes_view(nodes: Seq<TokenTree>) -> Seq<TokenTreeView>
    decreases nodes,
{
    if nodes.len() == 0 {
        Seq::empty()
    } else {
        nodes_view(nodes.drop_last()).push(node_view(nodes.last()))
    }
}

pub open spec fn node_view(node: TokenTree) -> TokenTreeView
    decreases node,
{
    match node {
        TokenTree::Text(text) => TokenTreeView::Text(text),
        TokenTree::TranslatedText(text) => TokenTreeView::TranslatedText(text),
        TokenTree::Int(n) => TokenTreeView::Int(n@),
        TokenTree::Float(f) => TokenTreeView::Float(f),
        TokenTree::Tag(tag) => TokenTreeView::Tag(tag_view(tag)),
        TokenTree::Variable(v) => TokenTreeView::Variable(v),
        TokenTree::ForVariable(v) => TokenTreeView::ForVariable(v),
        TokenTree::Filter(f) => TokenTreeView::Filter(f@),
    }
}

pub open spec fn tag_view(tag: Tag) -> TagView
    decreases tag,
{
    match tag {
        Tag::Autoescape { enabled, nodes } => TagView::Autoescape {
            enabled,
            nodes: nodes_view(nodes@),
        },
        Tag::If { condition, truthy, falsey } => TagView::If {
            condition: condition@,
            truthy: nodes_view(truthy@),
            falsey: match falsey {
                Some(nodes) => Some(nodes_view(nodes@)),
                None => None,
            },
        },
        Tag::For(f) => TagView::For(
            ForView {
                iterable: f.iterable@,
                variables: f.variables@,
                reversed: f.reversed,
                body: nodes_view(f.body@),
                empty: match f.empty {
                    Some(nodes) => Some(nodes_view(nodes@)),
                    None => None,
                },
            },
        ),
        Tag::Include(t) => TagView::Include(t@),
        Tag::Load => TagView::Load,
        Tag::SimpleTag(t) => TagView::SimpleTag(t@),
        Tag::SimpleBlockTag(t) => TagView::SimpleBlockTag(
            SimpleBlockTagView {
                func: t.func,
                nodes: nodes_view(t.nodes@),
                at: t.at,
                takes_context: t.takes_context,
                args: views(t.args@),
                kwargs: views(t.kwargs@),
                target_var: option_view(t.target_var),
            },
        ),
        Tag::Url(t) => TagView::Url(t@),
        Tag::CsrfToken(t) => TagView::CsrfToken(t),
        Tag::Lorem(t) => TagView::Lorem(t@),
        Tag::Comment(t) => TagView::Comment(t),
        Tag::Now(t) => TagView::Now(t@),
        Tag::FirstOf(t) => TagView::FirstOf(t@),
        Tag::TemplateTag(t) => TagView::TemplateTag(t),
        Tag::Cycle(t) => TagView::Cycle(t@),
    }
}

impl View for TokenTree {
    type V = TokenTreeView;

    open spec fn view(&self) -> TokenTreeView {
        node_view(*self)
    }
}

impl View for Tag {
    type V = TagView;

    open spec fn view(&self) -> TagView {
        tag_view(*self)
    }
}

/// Pushing a node pushes its view.
pub proof fn lemma_nodes_view_push(nodes: Seq<TokenTree>, node: TokenTree)
    ensures
        nodes_view(nodes.push(node)) == nodes_view(nodes).push(node@),
{
    assert(nodes.push(node).drop_last() =~= nodes);
}

/// The node that a value is.
pub open spec fn element_node(element: TagElement<int>) -> TokenTreeView {
    match element {
        TagElement::Text(text) => TokenTreeView::Text(text),
        TagElement::TranslatedText(text) => TokenTreeView::TranslatedText(text),
        TagElement::Variable(variable) => TokenTreeView::Variable(variable),
        TagElement::ForVariable(variable) => TokenTreeView::ForVariable(variable),
        TagElement::Filter(filter) => TokenTreeView::Filter(*filter),
        TagElement::Int(n) => TokenTreeView::Int(n),
        TagElement::Float(f) => TokenTreeView::Float(f),
    }
}

impl From<TagElement<Integer>> for TokenTree {
    fn from(tag_element: TagElement<Integer>) -> (r: Self)
        ensures
            r@ == element_node(tag_element@),
    {
        match tag_element {
            TagElement::Text(text) => TokenTree::Text(text),
            TagElement::TranslatedText(text) => TokenTree::TranslatedText(text),
            TagElement::Variable(variable) => TokenTree::Variable(variable),
            TagElement::ForVariable(variable) => TokenTree::ForVariable(variable),
            TagElement::Filter(filter) => TokenTree::Filter(filter),
            TagElement::Int(n) => TokenTree::Int(n),
            TagElement::Float(f) => TokenTree::Float(f),
        }
    }
}

impl FromSpecImpl<TagElement<Integer>> for TokenTree {
    open spec fn obeys_from_spec() -> bool {
        true
    }

    open spec fn from_spec(tag_element: TagElement<Integer>) -> Self {
        match tag_element {
            TagElement::Text(text) => TokenTree::Text(text),
            TagElement::TranslatedText(text) => TokenTree::TranslatedText(text),
            TagElement::Variable(variable) => TokenTree::Variable(variable),
            TagElement::ForVariable(variable) => TokenTree::ForVariable(variable),
            TagElement::Filter(filter) => TokenTree::Filter(filter),
            TagElement::Int(n) => TokenTree::Int(n),
            TagElement::Float(f) => TokenTree::Float(f),
        }
    }
}

/// A tag that ends a part of the tree.
#[derive(Debug, PartialEq, Eq)]
pub enum EndTagType<S> {
    Autoescape,
    Elif,
    Else,
    EndIf,
    Empty,
    EndFor,
    Verbatim,
    Custom(S),
}

impl View for EndTagType<String> {
    type V = EndTagType<Seq<char>>;

    open spec fn view(&self) -> EndTagType<Seq<char>> {
        match *self {
            EndTagType::Autoescape => EndTagType::Autoescape,
            EndTagType::Elif => EndTagType::Elif,
            EndTagType::Else => EndTagType::Else,
            EndTagType::EndIf => EndTagType::EndIf,
            EndTagType::Empty => EndTagType::Empty,
            EndTagType::EndFor => EndTagType::EndFor,
            EndTagType::Verbatim => EndTagType::Verbatim,
            EndTagType::Custom(name) => EndTagType::Custom(name@),
        }
    }
}

} // verus!
