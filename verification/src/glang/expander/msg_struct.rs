//! A variable that stands for the fields of a struct.

use vstd::prelude::*;
use crate::glang::emit::{
    expansion, field_items, field_scope, lemma_field_scope_weight, newline_delimeters,
    render_text, text_result_view, weight, ExpanderView, SpanWriter,
};
use crate::glang::expander::typ::TypeExpander;
use crate::glang::expander::ScopeEntry;
use crate::glang::scope::Scope;
use crate::glang::template::{
    ExpandOptions, Template, TemplateError, TemplateErrorView, TemplateView,
};
use crate::items::{field_views, text_views, StructField, StructFieldView};

verus! {

/// Expands to the declarations of its fields, joined as the placeholder
/// asks.
#[derive(Debug, Clone, Copy)]
pub struct StructFieldsExpander<'a> {
    pub fields: &'a Vec<StructField>,
}

impl<'a> StructFieldsExpander<'a> {
    /// An expander for `fields`.
    pub fn new(fields: &'a Vec<StructField>) -> (e: Self)
        ensures
            e.fields == fields,
    {
        Self { fields }
    }
}

/// Expands the fields of a struct: renders the declaration of each field
/// in a scope that binds `name` to its name and `ty` to its type, and joins
/// the declarations as the placeholder asks.
pub fn expand_fields(
    fields: &Vec<StructField>,
    indent: u16,
    opts: &ExpandOptions,
    template: &Template,
) -> (r: Result<String, TemplateError>)
    ensures
        text_result_view(r) == expansion(
            ExpanderView::Fields(field_views(fields@)),
            indent,
            opts@,
            template@,
        ),
    decreases weight(ExpanderView::Fields(field_views(fields@))), 0nat, 0nat,
{
    let ghost views = field_views(fields@);
    let mut items: Vec<String> = Vec::new();
    let mut i: usize = 0;
    assert(text_views(items@) =~= Seq::empty());
    while i < fields.len()
        invariant
            i <= fields.len(),
            views == field_views(fields@),
            field_items(views, i as nat, indent, template@) == Ok::<_, TemplateErrorView>(
                text_views(items@),
            ),
        decreases fields.len() - i,
    {
        let field = &fields[i];
        assert(views[i as int] == field@);
        proof {
            lemma_field_scope_weight(views, i as int);
        }
        let scope = Scope::new().add_text("name", field.name.as_str()).add_entry(
            "ty",
            ScopeEntry::Type(TypeExpander(&field.datatype)),
        );
        assert(scope@ =~= field_scope(field@));
        match render_text(&template.field_body, &scope, indent, template) {
            Ok(text) => {
                let ghost before = text_views(items@);
                items.push(text);
                assert(text_views(items@) =~= before.push(text@));
            },
            Err(e) => {
                proof {
                    lemma_field_error_stays(views, (i + 1) as nat, views.len(), indent, template@);
                }
                return Err(e);
            },
        }
        i += 1;
    }
    let mut writer = SpanWriter::new(String::new());
    newline_delimeters(&mut writer, &items, opts, indent);
    let text = writer.into_inner();
    assert(text@ =~= crate::glang::emit::joined(text_views(items@), opts@, indent));
    Ok(text)
}

/// Fields that have failed to render stay failed, with the same error.
pub proof fn lemma_field_error_stays(
    fields: Seq<StructFieldView>,
    n: nat,
    m: nat,
    indent: u16,
    t: TemplateView,
)
    requires
        n <= m <= fields.len(),
        field_items(fields, n, indent, t) is Err,
    ensures
        field_items(fields, m, indent, t) == field_items(fields, n, indent, t),
    decreases m,
{
    if n < m {
        lemma_field_error_stays(fields, n, (m - 1) as nat, indent, t);
    }
}

} // verus!
