//! Expanders: what a variable of a scope can stand for.

use vstd::prelude::*;
use crate::glang::emit::{expansion, text_result_view, weight, ExpanderView, SpanWriter};
use crate::glang::template::{ExpandOptions, Template, TemplateError};
use vstd::string::StringExecFns;
use crate::items::{field_views, variant_views};

pub mod msg_enum;
pub mod msg_struct;
pub mod text;
pub mod typ;

use msg_enum::EnumVariantsExpander;
use msg_struct::StructFieldsExpander;
use text::TextExpander;
use typ::TypeExpander;

verus! {

/// What a scope binds a variable to: one of the four expanders.
#[derive(Debug, Clone, Copy)]
pub enum ScopeEntry<'a> {
    Text(TextExpander<'a>),
    Type(TypeExpander<'a>),
    Fields(StructFieldsExpander<'a>),
    Variants(EnumVariantsExpander<'a>),
}

impl<'a> View for ScopeEntry<'a> {
    type V = ExpanderView;

    open spec fn view(&self) -> ExpanderView {
        match self {
            ScopeEntry::Text(e) => ExpanderView::Text(e.0@),
            ScopeEntry::Type(e) => ExpanderView::Type(e.0@),
            ScopeEntry::Fields(e) => ExpanderView::Fields(field_views(e.fields@)),
            ScopeEntry::Variants(e) => ExpanderView::Variants(variant_views(e.variants@)),
        }
    }
}

/// Expands a variable at an indent.
pub fn expand_entry(
    entry: &ScopeEntry,
    indent: u16,
    opts: &ExpandOptions,
    template: &Template,
) -> (r: Result<String, TemplateError>)
    ensures
        text_result_view(r) == expansion(entry@, indent, opts@, template@),
    decreases weight(entry@), 0nat, 1nat,
{
    match entry {
        ScopeEntry::Text(e) => Ok(String::from_str(e.0)),
        ScopeEntry::Type(e) => typ::expand_type(e.0, indent, opts, template),
        ScopeEntry::Fields(e) => msg_struct::expand_fields(e.fields, indent, opts, template),
        ScopeEntry::Variants(e) => msg_enum::expand_variants(e.variants, indent, opts, template),
    }
}

/// Something that a variable of a scope can stand for: it knows what it
/// expands to at an indent.
pub trait Expander<'a>: Sized {
    /// What the expander stands for.
    spec fn value(&self) -> ExpanderView;

    /// The expander as an entry of a scope.
    fn entry(self) -> (e: ScopeEntry<'a>)
        ensures
            e@ == self.value(),
    ;

    /// Emits to `dest` what the expander expands to at `indent`. Where it
    /// cannot be expanded, nothing is emitted.
    fn expand(
        &self,
        dest: &mut SpanWriter,
        indent: u16,
        opts: &ExpandOptions,
        template: &Template,
    ) -> (r: Result<(), TemplateError>)
        ensures
            match r {
                Ok(()) => expansion(self.value(), indent, opts@, template@) matches Ok(text)
                    && final(dest)@ == old(dest)@ + text,
                Err(e) => expansion(self.value(), indent, opts@, template@) == Err::<Seq<char>, _>(
                    e@,
                ) && final(dest)@ == old(dest)@,
            },
    ;
}

/// Emits a text that may have failed to render.
fn emit_text(dest: &mut SpanWriter, text: Result<String, TemplateError>) -> (r: Result<
    (),
    TemplateError,
>)
    ensures
        match r {
            Ok(()) => text_result_view(text) matches Ok(t) && final(dest)@ == old(dest)@ + t,
            Err(e) => text_result_view(text) == Err::<Seq<char>, _>(e@) && final(dest)@ == old(
                dest,
            )@,
        },
{
    match text {
        Ok(t) => {
            dest.write_str(t.as_str());
            Ok(())
        },
        Err(e) => Err(e),
    }
}

impl<'a> Expander<'a> for ScopeEntry<'a> {
    open spec fn value(&self) -> ExpanderView {
        self@
    }

    fn entry(self) -> (e: ScopeEntry<'a>) {
        self
    }

    fn expand(
        &self,
        dest: &mut SpanWriter,
        indent: u16,
        opts: &ExpandOptions,
        template: &Template,
    ) -> (r: Result<(), TemplateError>) {
        emit_text(dest, expand_entry(self, indent, opts, template))
    }
}

impl<'a> Expander<'a> for TextExpander<'a> {
    open spec fn value(&self) -> ExpanderView {
        ExpanderView::Text(self.0@)
    }

    fn entry(self) -> (e: ScopeEntry<'a>) {
        ScopeEntry::Text(self)
    }

    fn expand(
        &self,
        dest: &mut SpanWriter,
        indent: u16,
        opts: &ExpandOptions,
        template: &Template,
    ) -> (r: Result<(), TemplateError>) {
        dest.write_str(self.0);
        Ok(())
    }
}

impl<'a> Expander<'a> for TypeExpander<'a> {
    open spec fn value(&self) -> ExpanderView {
        ExpanderView::Type(self.0@)
    }

    fn entry(self) -> (e: ScopeEntry<'a>) {
        ScopeEntry::Type(self)
    }

    fn expand(
        &self,
        dest: &mut SpanWriter,
        indent: u16,
        opts: &ExpandOptions,
        template: &Template,
    ) -> (r: Result<(), TemplateError>) {
        emit_text(dest, typ::expand_type(self.0, indent, opts, template))
    }
}

impl<'a> Expander<'a> for StructFieldsExpander<'a> {
    open spec fn value(&self) -> ExpanderView {
        ExpanderView::Fields(field_views(self.fields@))
    }

    fn entry(self) -> (e: ScopeEntry<'a>) {
        ScopeEntry::Fields(self)
    }

    fn expand(
        &self,
        dest: &mut SpanWriter,
        indent: u16,
        opts: &ExpandOptions,
        template: &Template,
    ) -> (r: Result<(), TemplateError>) {
        emit_text(dest, msg_struct::expand_fields(self.fields, indent, opts, template))
    }
}

impl<'a> Expander<'a> for EnumVariantsExpander<'a> {
    open spec fn value(&self) -> ExpanderView {
        ExpanderView::Variants(variant_views(self.variants@))
    }

    fn entry(self) -> (e: ScopeEntry<'a>) {
        ScopeEntry::Variants(self)
    }

    fn expand(
        &self,
        dest: &mut SpanWriter,
        indent: u16,
        opts: &ExpandOptions,
        template: &Template,
    ) -> (r: Result<(), TemplateError>) {
        emit_text(dest, msg_enum::expand_variants(self.variants, indent, opts, template))
    }
}

} // verus!
