//! When two parts of the tree of a template are equal.
//!
//! Python objects are equal where they are the same one.
use vstd::prelude::*;
use vstd::std_specs::cmp::PartialEqSpecImpl;
use crate::dict::{option_view, views};
use crate::filters::FilterType;
use crate::integer::Integer;
use crate::parse::tree::{
    located_views, nodes_view, tag_view, Cycle, FirstOf, ForIterable, ForNames, IfCondition,
    Include, IncludeTemplateName, Lorem, NamedCycle, Now, SimpleBlockTag, SimpleCycle, SimpleTag,
    Tag, TagElement, TokenTree, Url,
};
use crate::text::{str_eq, At};
use crate::types::{Argument, ArgumentType, ForVariable};

verus! {

/// A value that can be held against another one.
pub trait Same: View + Sized {
    /// Whether two values have the same view.
    fn same(&self, other: &Self) -> (r: bool)
        ensures
            r == (self@ == other@),
    ;
}

/// Whether two locations are the same.
fn same_at(a: At, b: At) -> (r: bool)
    ensures
        r == (a == b),
{
    a.0 == b.0 && a.1 == b.1
}

/// Whether two optional values have the same view.
fn same_option<T: Same>(a: &Option<T>, b: &Option<T>) -> (r: bool)
    ensures
        r == (option_view(*a) == option_view(*b)),
{
    match (a, b) {
        (Some(a), Some(b)) => a.same(b),
        (None, None) => true,
        _ => false,
    }
}

/// Whether the items of two vectors have the same views.
fn same_all<T: Same>(a: &Vec<T>, b: &Vec<T>) -> (r: bool)
    ensures
        r == (views(a@) == views(b@)),
{
    if a.len() != b.len() {
        assert(views(a@).len() != views(b@).len());
        return false;
    }
    let mut i: usize = 0;
    while i < a.len()
        invariant
            0 <= i <= a@.len(),
            a@.len() == b@.len(),
            forall|j: int| 0 <= j < i ==> (#[trigger] a@[j])@ == b@[j]@,
        decreases a@.len() - i,
    {
        if !a[i].same(&b[i]) {
            assert(views(a@)[i as int] != views(b@)[i as int]);
            return false;
        }
        i += 1;
    }
    assert(views(a@) =~= views(b@));
    true
}

impl Same for String {
    fn same(&self, other: &Self) -> (r: bool) {
        str_eq(self.as_str(), other.as_str())
    }
}

impl Same for (String, TagElement<Integer>) {
    fn same(&self, other: &Self) -> (r: bool) {
        self.0.same(&other.0) && self.1.same(&other.1)
    }
}

fn same_for_variable(a: &ForVariable, b: &ForVariable) -> (r: bool)
    ensures
        r == (a == b),
{
    a.variant == b.variant && a.parent_count == b.parent_count && same_at(a.at, b.at)
}

impl Same for Argument<Integer> {
    fn same(&self, other: &Self) -> (r: bool) {
        same_at(self.at, other.at) && match (&self.argument_type, &other.argument_type) {
            (ArgumentType::Variable(a), ArgumentType::Variable(b)) => same_at(a.at, b.at),
            (ArgumentType::ForVariable(a), ArgumentType::ForVariable(b)) => same_for_variable(a, b),
            (ArgumentType::Text(a), ArgumentType::Text(b)) => same_at(a.at, b.at),
            (ArgumentType::TranslatedText(a), ArgumentType::TranslatedText(b)) => {
                same_at(a.at, b.at)
            },
            (ArgumentType::Int(a), ArgumentType::Int(b)) => a.equals(b),
            (ArgumentType::Float(a), ArgumentType::Float(b)) => *a == *b,
            _ => false,
        }
    }
}

impl Same for FilterType<Integer> {
    fn same(&self, other: &Self) -> (r: bool) {
        match (self, other) {
            (FilterType::Add(f), FilterType::Add(g)) => f.argument.same(&g.argument),
            (FilterType::AddSlashes(_), FilterType::AddSlashes(_)) => true,
            (FilterType::Capfirst(_), FilterType::Capfirst(_)) => true,
            (FilterType::Center(f), FilterType::Center(g)) => f.argument.same(&g.argument),
            (FilterType::Cut(f), FilterType::Cut(g)) => f.argument.same(&g.argument),
            (FilterType::Date(f), FilterType::Date(g)) => {
                same_option(&f.argument, &g.argument) && same_at(f.at, g.at)
            },
            (FilterType::Default(f), FilterType::Default(g)) => {
                f.argument.same(&g.argument) && same_at(f.at, g.at)
            },
            (FilterType::DefaultIfNone(f), FilterType::DefaultIfNone(g)) => {
                f.argument.same(&g.argument)
            },
            (FilterType::DivisibleBy(f), FilterType::DivisibleBy(g)) => {
                f.argument.same(&g.argument) && same_at(f.at, g.at)
            },
            (FilterType::Escape(_), FilterType::Escape(_)) => true,
            (FilterType::Escapejs(_), FilterType::Escapejs(_)) => true,
            (FilterType::External(f), FilterType::External(g)) => {
                f.filter == g.filter && same_option(&f.argument, &g.argument)
            },
            (FilterType::ForceEscape(_), FilterType::ForceEscape(_)) => true,
            (FilterType::Last(f), FilterType::Last(g)) => same_at(f.at, g.at),
            (FilterType::Length(_), FilterType::Length(_)) => true,
            (FilterType::Lower(_), FilterType::Lower(_)) => true,
            (FilterType::Safe(_), FilterType::Safe(_)) => true,
            (FilterType::Slugify(_), FilterType::Slugify(_)) => true,
            (FilterType::Title(_), FilterType::Title(_)) => true,
            (FilterType::Upper(_), FilterType::Upper(_)) => true,
            (FilterType::Wordcount(_), FilterType::Wordcount(_)) => true,
            (FilterType::Wordwrap(f), FilterType::Wordwrap(g)) => f.argument.same(&g.argument),
            (FilterType::Yesno(f), FilterType::Yesno(g)) => {
                same_option(&f.argument, &g.argument) && same_at(f.at, g.at)
            },
            _ => false,
        }
    }
}

/// Whether two elements have the same view.
fn same_element(a: &TagElement<Integer>, b: &TagElement<Integer>) -> (r: bool)
    ensures
        r == (a@ == b@),
    decreases a,
{
    match (a, b) {
        (TagElement::Int(a), TagElement::Int(b)) => a.equals(b),
        (TagElement::Float(a), TagElement::Float(b)) => *a == *b,
        (TagElement::Text(a), TagElement::Text(b)) => same_at(a.at, b.at),
        (TagElement::TranslatedText(a), TagElement::TranslatedText(b)) => same_at(a.at, b.at),
        (TagElement::Variable(a), TagElement::Variable(b)) => same_at(a.at, b.at),
        (TagElement::ForVariable(a), TagElement::ForVariable(b)) => same_for_variable(a, b),
        (TagElement::Filter(a), TagElement::Filter(b)) => {
            same_at(a.at, b.at) && same_at(a.all_at, b.all_at) && same_element(&a.left, &b.left)
                && a.filter.same(&b.filter)
        },
        _ => false,
    }
}

impl Same for TagElement<Integer> {
    fn same(&self, other: &Self) -> (r: bool) {
        same_element(self, other)
    }
}

/// Whether two conditions have the same view.
fn same_condition(a: &IfCondition<Integer>, b: &IfCondition<Integer>) -> (r: bool)
    ensures
        r == (a@ == b@),
    decreases a,
{
    match (a, b) {
        (IfCondition::Variable(a), IfCondition::Variable(b)) => same_element(a, b),
        (IfCondition::Not(a), IfCondition::Not(b)) => same_condition(a, b),
        (IfCondition::And(a), IfCondition::And(b)) => {
            same_condition(&a.0, &b.0) && same_condition(&a.1, &b.1)
        },
        (IfCondition::Or(a), IfCondition::Or(b)) => {
            same_condition(&a.0, &b.0) && same_condition(&a.1, &b.1)
        },
        (IfCondition::Equal(a), IfCondition::Equal(b)) => {
            same_condition(&a.0, &b.0) && same_condition(&a.1, &b.1)
        },
        (IfCondition::NotEqual(a), IfCondition::NotEqual(b)) => {
            same_condition(&a.0, &b.0) && same_condition(&a.1, &b.1)
        },
        (IfCondition::LessThan(a), IfCondition::LessThan(b)) => {
            same_condition(&a.0, &b.0) && same_condition(&a.1, &b.1)
        },
        (IfCondition::GreaterThan(a), IfCondition::GreaterThan(b)) => {
            same_condition(&a.0, &b.0) && same_condition(&a.1, &b.1)
        },
        (IfCondition::LessThanEqual(a), IfCondition::LessThanEqual(b)) => {
            same_condition(&a.0, &b.0) && same_condition(&a.1, &b.1)
        },
        (IfCondition::GreaterThanEqual(a), IfCondition::GreaterThanEqual(b)) => {
            same_condition(&a.0, &b.0) && same_condition(&a.1, &b.1)
        },
        (IfCondition::In(a), IfCondition::In(b)) => {
            same_condition(&a.0, &b.0) && same_condition(&a.1, &b.1)
        },
        (IfCondition::NotIn(a), IfCondition::NotIn(b)) => {
            same_condition(&a.0, &b.0) && same_condition(&a.1, &b.1)
        },
        (IfCondition::Is(a), IfCondition::Is(b)) => {
            same_condition(&a.0, &b.0) && same_condition(&a.1, &b.1)
        },
        (IfCondition::IsNot(a), IfCondition::IsNot(b)) => {
            same_condition(&a.0, &b.0) && same_condition(&a.1, &b.1)
        },
        _ => false,
    }
}

impl Same for Url {
    fn same(&self, other: &Self) -> (r: bool) {
        same_at(self.at, other.at) && self.view_name.same(&other.view_name) && same_all(
            &self.args,
            &other.args,
        ) && same_all(&self.kwargs, &other.kwargs) && same_option(&self.asvar, &other.asvar)
    }
}

/// Whether the elements of two vectors, and the locations of their keywords, are the same.
fn same_located(a: &Vec<(At, TagElement<Integer>)>, b: &Vec<(At, TagElement<Integer>)>) -> (r: bool)
    ensures
        r == (located_views(a@) == located_views(b@)),
{
    if a.len() != b.len() {
        assert(located_views(a@).len() != located_views(b@).len());
        return false;
    }
    let mut i: usize = 0;
    while i < a.len()
        invariant
            0 <= i <= a@.len(),
            a@.len() == b@.len(),
            forall|j: int|
                0 <= j < i ==> (#[trigger] a@[j]).0 == b@[j].0 && a@[j].1@ == b@[j].1@,
        decreases a@.len() - i,
    {
        if !same_at(a[i].0, b[i].0) || !a[i].1.same(&b[i].1) {
            assert(located_views(a@)[i as int] != located_views(b@)[i as int]);
            return false;
        }
        i += 1;
    }
    assert(located_views(a@) =~= located_views(b@));
    true
}

impl Same for IncludeTemplateName<Integer, String> {
    fn same(&self, other: &Self) -> (r: bool) {
        match (self, other) {
            (IncludeTemplateName::Text(a), IncludeTemplateName::Text(b)) => same_at(a.at, b.at),
            (IncludeTemplateName::Variable(a), IncludeTemplateName::Variable(b)) => a.same(b),
            (IncludeTemplateName::Relative(a), IncludeTemplateName::Relative(b)) => {
                same_at(a.at, b.at) && a.path.same(&b.path)
            },
            _ => false,
        }
    }
}

impl Same for Include {
    fn same(&self, other: &Self) -> (r: bool) {
        self.only == other.only && same_option(&self.origin, &other.origin)
            && self.template_name.same(&other.template_name) && same_located(
            &self.kwargs,
            &other.kwargs,
        ) && self.engine == other.engine
    }
}

impl PartialEq for Include {
    fn eq(&self, other: &Self) -> (r: bool) {
        self.same(other)
    }
}

impl PartialEqSpecImpl for Include {
    open spec fn obeys_eq_spec() -> bool {
        true
    }

    open spec fn eq_spec(&self, other: &Self) -> bool {
        self@ == other@
    }
}

impl Same for SimpleTag {
    fn same(&self, other: &Self) -> (r: bool) {
        same_at(self.at, other.at) && self.takes_context == other.takes_context && same_all(
            &self.args,
            &other.args,
        ) && same_all(&self.kwargs, &other.kwargs) && same_option(
            &self.target_var,
            &other.target_var,
        ) && self.func == other.func
    }
}

impl PartialEq for SimpleTag {
    fn eq(&self, other: &Self) -> (r: bool) {
        self.same(other)
    }
}

impl PartialEqSpecImpl for SimpleTag {
    open spec fn obeys_eq_spec() -> bool {
        true
    }

    open spec fn eq_spec(&self, other: &Self) -> bool {
        self@ == other@
    }
}

impl Same for SimpleCycle {
    fn same(&self, other: &Self) -> (r: bool) {
        self.id.0 == other.id.0 && same_all(&self.values, &other.values)
    }
}

impl Same for NamedCycle {
    fn same(&self, other: &Self) -> (r: bool) {
        self.cycle.same(&other.cycle) && self.asvar.same(&other.asvar)
    }
}

impl Same for Cycle {
    fn same(&self, other: &Self) -> (r: bool) {
        match (self, other) {
            (Cycle::Simple(a), Cycle::Simple(b)) => a.same(b),
            (Cycle::Named(a), Cycle::Named(b)) => a.same(b),
            (Cycle::SilentNamed(a), Cycle::SilentNamed(b)) => a.cycle.same(&b.cycle),
            _ => false,
        }
    }
}

impl Same for ForNames {
    fn same(&self, other: &Self) -> (r: bool) {
        same_at(self.at, other.at) && same_all(&self.names, &other.names)
    }
}

impl Same for ForIterable<Integer> {
    fn same(&self, other: &Self) -> (r: bool) {
        same_at(self.at, other.at) && self.iterable.same(&other.iterable)
    }
}

impl Same for Lorem<Integer> {
    fn same(&self, other: &Self) -> (r: bool) {
        self.count.same(&other.count) && self.method == other.method && self.common == other.common
    }
}

impl Same for Now<String> {
    fn same(&self, other: &Self) -> (r: bool) {
        self.format.same(&other.format) && match (self.asvar, other.asvar) {
            (Some(a), Some(b)) => same_at(a, b),
            (None, None) => true,
            _ => false,
        }
    }
}

impl Same for FirstOf {
    fn same(&self, other: &Self) -> (r: bool) {
        same_all(&self.vars, &other.vars) && same_option(&self.asvar, &other.asvar)
    }
}

/// The view of each of some nodes.
proof fn lemma_nodes_view(nodes: Seq<TokenTree>)
    ensures
        nodes_view(nodes).len() == nodes.len(),
        forall|i: int| 0 <= i < nodes.len() ==> #[trigger] nodes_view(nodes)[i] == nodes[i]@,
    decreases nodes.len(),
{
    if nodes.len() > 0 {
        lemma_nodes_view(nodes.drop_last());
        assert forall|i: int| 0 <= i < nodes.len() implies #[trigger] nodes_view(nodes)[i]
            == nodes[i]@ by {
            if i < nodes.len() - 1 {
                assert(nodes_view(nodes)[i] == nodes_view(nodes.drop_last())[i]);
            }
        }
    }
}

/// Whether nodes have the same views.
fn same_nodes(a: &Vec<TokenTree>, b: &Vec<TokenTree>) -> (r: bool)
    ensures
        r == (nodes_view(a@) == nodes_view(b@)),
    decreases a, 0int,
{
    proof {
        lemma_nodes_view(a@);
        lemma_nodes_view(b@);
    }
    if a.len() != b.len() {
        return false;
    }
    let mut i: usize = 0;
    while i < a.len()
        invariant
            0 <= i <= a@.len(),
            a@.len() == b@.len(),
            nodes_view(a@).len() == a@.len(),
            nodes_view(b@).len() == b@.len(),
            forall|j: int| 0 <= j < a@.len() ==> #[trigger] nodes_view(a@)[j] == a@[j]@,
            forall|j: int| 0 <= j < b@.len() ==> #[trigger] nodes_view(b@)[j] == b@[j]@,
            forall|j: int| 0 <= j < i ==> (#[trigger] a@[j])@ == b@[j]@,
        decreases a@.len() - i,
    {
        if !same_node(&a[i], &b[i]) {
            assert(nodes_view(a@)[i as int] != nodes_view(b@)[i as int]);
            return false;
        }
        i += 1;
    }
    assert(nodes_view(a@) =~= nodes_view(b@));
    true
}

/// Whether nodes that may be left out have the same views.
fn same_optional_nodes(a: &Option<Vec<TokenTree>>, b: &Option<Vec<TokenTree>>) -> (r: bool)
    ensures
        r == match (*a, *b) {
            (Some(a), Some(b)) => nodes_view(a@) == nodes_view(b@),
            (None, None) => true,
            _ => false,
        },
    decreases a, 0int,
{
    match (a, b) {
        (Some(a), Some(b)) => same_nodes(a, b),
        (None, None) => true,
        _ => false,
    }
}

/// Whether two nodes have the same view.
fn same_node(a: &TokenTree, b: &TokenTree) -> (r: bool)
    ensures
        r == (a@ == b@),
    decreases a, 0int,
{
    match (a, b) {
        (TokenTree::Text(a), TokenTree::Text(b)) => same_at(a.at, b.at),
        (TokenTree::TranslatedText(a), TokenTree::TranslatedText(b)) => same_at(a.at, b.at),
        (TokenTree::Int(a), TokenTree::Int(b)) => a.equals(b),
        (TokenTree::Float(a), TokenTree::Float(b)) => *a == *b,
        (TokenTree::Variable(a), TokenTree::Variable(b)) => same_at(a.at, b.at),
        (TokenTree::ForVariable(a), TokenTree::ForVariable(b)) => same_for_variable(a, b),
        (TokenTree::Filter(a), TokenTree::Filter(b)) => {
            same_at(a.at, b.at) && same_at(a.all_at, b.all_at) && a.left.same(&b.left)
                && a.filter.same(&b.filter)
        },
        (TokenTree::Tag(a), TokenTree::Tag(b)) => same_tag(a, b),
        _ => false,
    }
}

/// Whether two tags have the same view.
fn same_tag(a: &Tag, b: &Tag) -> (r: bool)
    ensures
        r == (a@ == b@),
    decreases a, 0int,
{
    match (a, b) {
        (
            Tag::Autoescape { enabled: a, nodes: m },
            Tag::Autoescape { enabled: b, nodes: n },
        ) => *a == *b && same_nodes(m, n),
        (
            Tag::If { condition: a, truthy: m, falsey: f },
            Tag::If { condition: b, truthy: n, falsey: g },
        ) => same_condition(a, b) && same_nodes(m, n) && same_optional_nodes(f, g),
        (Tag::For(a), Tag::For(b)) => {
            a.iterable.same(&b.iterable) && a.variables.same(&b.variables) && a.reversed
                == b.reversed && same_nodes(&a.body, &b.body) && same_optional_nodes(
                &a.empty,
                &b.empty,
            )
        },
        (Tag::Include(a), Tag::Include(b)) => a.same(b),
        (Tag::Load, Tag::Load) => true,
        (Tag::SimpleTag(a), Tag::SimpleTag(b)) => a.same(b),
        (Tag::SimpleBlockTag(a), Tag::SimpleBlockTag(b)) => same_block(a, b),
        (Tag::Url(a), Tag::Url(b)) => a.same(b),
        (Tag::CsrfToken(_), Tag::CsrfToken(_)) => true,
        (Tag::Lorem(a), Tag::Lorem(b)) => a.same(b),
        (Tag::Comment(_), Tag::Comment(_)) => true,
        (Tag::Now(a), Tag::Now(b)) => a.same(b),
        (Tag::FirstOf(a), Tag::FirstOf(b)) => a.same(b),
        (Tag::TemplateTag(a), Tag::TemplateTag(b)) => *a == *b,
        (Tag::Cycle(a), Tag::Cycle(b)) => a.same(b),
        _ => false,
    }
}

/// Whether two tags around nodes have the same view.
fn same_block(a: &SimpleBlockTag, b: &SimpleBlockTag) -> (r: bool)
    ensures
        r == (tag_view(Tag::SimpleBlockTag(*a)) == tag_view(Tag::SimpleBlockTag(*b))),
    decreases a, 0int,
{
    same_at(a.at, b.at) && a.takes_context == b.takes_context && same_all(&a.args, &b.args)
        && same_all(&a.kwargs, &b.kwargs) && same_option(&a.target_var, &b.target_var)
        && same_nodes(&a.nodes, &b.nodes) && a.func == b.func
}

impl PartialEq for SimpleBlockTag {
    fn eq(&self, other: &Self) -> (r: bool) {
        same_block(self, other)
    }
}

impl PartialEqSpecImpl for SimpleBlockTag {
    open spec fn obeys_eq_spec() -> bool {
        true
    }

    open spec fn eq_spec(&self, other: &Self) -> bool {
        tag_view(Tag::SimpleBlockTag(*self)) == tag_view(Tag::SimpleBlockTag(*other))
    }
}

} // verus!
