//! The scope of a replay: what each variable of a span stands for.

use vstd::prelude::*;
use vstd::string::StringExecFns;
use crate::glang::emit::{lookup, BindingView, ExpanderView};
use crate::glang::expander::text::TextExpander;
use crate::glang::expander::{Expander, ScopeEntry};
use crate::glang::template::{TemplateError, TemplateErrorView};
use crate::text::same_text;

verus! {

/// A variable and the expander it is bound to.
#[derive(Debug, Clone, Copy)]
pub struct Binding<'a> {
    pub name: &'a str,
    pub expander: ScopeEntry<'a>,
}

impl<'a> View for Binding<'a> {
    type V = BindingView;

    open spec fn view(&self) -> BindingView {
        BindingView { name: self.name@, expander: self.expander@ }
    }
}

/// The values of a sequence of bindings.
pub open spec fn binding_views(bindings: Seq<Binding<'_>>) -> Seq<BindingView> {
    bindings.map_values(|b: Binding| b@)
}

/// The variables that a span may name, each with its expander. A name that
/// is bound again stands for the later expander.
pub struct Scope<'a> {
    entries: Vec<Binding<'a>>,
}

impl<'a> View for Scope<'a> {
    type V = Seq<BindingView>;

    closed spec fn view(&self) -> Seq<BindingView> {
        binding_views(self.entries@)
    }
}

impl<'a> Scope<'a> {
    /// A scope that binds nothing.
    pub fn new() -> (scope: Self)
        ensures
            scope@ == Seq::<BindingView>::empty(),
    {
        let scope = Self { entries: Vec::new() };
        assert(scope@ =~= Seq::empty());
        scope
    }

    /// The scope with `name` bound to a text.
    pub fn add_text(self, name: &'a str, text: &'a str) -> (scope: Self)
        ensures
            scope@ == self@.push(
                BindingView { name: name@, expander: ExpanderView::Text(text@) },
            ),
    {
        self.add_entry(name, ScopeEntry::Text(TextExpander(text)))
    }

    /// The scope with `name` bound to an expander.
    pub fn add_expander<E: Expander<'a>>(self, name: &'a str, expander: E) -> (scope: Self)
        ensures
            scope@ == self@.push(BindingView { name: name@, expander: expander.value() }),
    {
        self.add_entry(name, expander.entry())
    }

    /// The scope with `name` bound to one of the four expanders.
    pub fn add_entry(self, name: &'a str, expander: ScopeEntry<'a>) -> (scope: Self)
        ensures
            scope@ == self@.push(BindingView { name: name@, expander: expander@ }),
    {
        let mut scope = self;
        let binding = Binding { name, expander };
        scope.entries.push(binding);
        assert(scope@ =~= self@.push(binding@));
        scope
    }

    /// The expander that `name` is bound to; a name that the scope does not
    /// bind is an error.
    pub fn get_expander(&self, name: &str) -> (r: Result<ScopeEntry<'a>, TemplateError>)
        ensures
            match r {
                Ok(e) => lookup(self@, name@) == Some(e@),
                Err(e) => lookup(self@, name@) is None && e@ == TemplateErrorView::UnboundVariable(
                    name@,
                ),
            },
    {
        let mut i: usize = self.entries.len();
        assert(self@.take(i as int) =~= self@);
        while i > 0
            invariant
                i <= self.entries.len(),
                lookup(self@, name@) == lookup(self@.take(i as int), name@),
            decreases i,
        {
            let ghost head = self@.take(i as int);
            assert(head.last() == self@[i - 1]);
            assert(head.drop_last() =~= self@.take(i - 1));
            assert(self@[i - 1] == self.entries@[i - 1]@);
            if same_text(self.entries[i - 1].name, name) {
                return Ok(self.entries[i - 1].expander);
            }
            i -= 1;
        }
        Err(TemplateError::UnboundVariable(String::from_str(name)))
    }
}

} // verus!
