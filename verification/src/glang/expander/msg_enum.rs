//! A variable that stands for the variants of an enum.

use vstd::prelude::*;
use crate::glang::emit::{
    expansion, int_text, lemma_variant_scope_weight, newline_delimeters, render_text,
    text_result_view, value_text, variant_items, variant_scope, weight, ExpanderView, SpanWriter,
};
use crate::glang::scope::Scope;
use crate::glang::template::{
    ExpandOptions, Template, TemplateError, TemplateErrorView, TemplateView,
};
use crate::items::{text_views, variant_views, EnumVariant, EnumVariantValue, EnumVariantView};

verus! {

/// Expands to its variants, joined as the placeholder asks.
#[derive(Debug, Clone, Copy)]
pub struct EnumVariantsExpander<'a> {
    pub variants: &'a Vec<EnumVariant>,
}

impl<'a> EnumVariantsExpander<'a> {
    /// An expander for `variants`.
    pub fn new(variants: &'a Vec<EnumVariant>) -> (e: Self)
        ensures
            e.variants == variants,
    {
        Self { variants }
    }
}

/// The text of the value of a variant: an integer in decimal notation, a
/// string between double quotes.
pub fn variant_value_text(value: &EnumVariantValue) -> (text: String)
    ensures
        text@ == value_text(value@),
{
    match value {
        EnumVariantValue::Int(val) => int_text(*val),
        EnumVariantValue::String(val) => {
            let mut text = String::new();
            text.push('"');
            text.append(val.as_str());
            text.push('"');
            assert(text@ =~= value_text(value@));
            text
        },
    }
}

/// Expands the variants of an enum: renders each variant in a scope that
/// binds `name` to its name and `val` to the text of its value, and joins
/// the variants as the placeholder asks.
pub fn expand_variants(
    variants: &Vec<EnumVariant>,
    indent: u16,
    opts: &ExpandOptions,
    template: &Template,
) -> (r: Result<String, TemplateError>)
    ensures
        text_result_view(r) == expansion(
            ExpanderView::Variants(variant_views(variants@)),
            indent,
            opts@,
            template@,
        ),
    decreases weight(ExpanderView::Variants(variant_views(variants@))), 0nat, 0nat,
{
    let ghost views = variant_views(variants@);
    let mut items: Vec<String> = Vec::new();
    let mut i: usize = 0;
    assert(text_views(items@) =~= Seq::empty());
    while i < variants.len()
        invariant
            i <= variants.len(),
            views == variant_views(variants@),
            variant_items(views, i as nat, indent, template@) == Ok::<_, TemplateErrorView>(
                text_views(items@),
            ),
        decreases variants.len() - i,
    {
        let variant = &variants[i];
        assert(views[i as int] == variant@);
        proof {
            lemma_variant_scope_weight(views[i as int]);
        }
        let value = variant_value_text(&variant.value);
        let scope = Scope::new().add_text("name", variant.name.as_str()).add_text(
            "val",
            value.as_str(),
        );
        assert(scope@ =~= variant_scope(variant@));
        match render_text(&template.enum_variant, &scope, indent, template) {
            Ok(text) => {
                let ghost before = text_views(items@);
                items.push(text);
                assert(text_views(items@) =~= before.push(text@));
            },
            Err(e) => {
                proof {
                    lemma_variant_error_stays(
                        views,
                        (i + 1) as nat,
                        views.len(),
                        indent,
                        template@,
                    );
                }
                return Err(e);
            },
        }
        i += 1;
    }
    let mut writer = SpanWriter::new(String::new());
    newline_delimeters(&mut writer, &items, opts, indent);
    let text = writer.into_inner();
    assert(text@ =~= crate::glang::emit::joined(text_views(items@), opts@, indent));
    Ok(text)
}

/// Variants that have failed to render stay failed, with the same error.
pub proof fn lemma_variant_error_stays(
    variants: Seq<EnumVariantView>,
    n: nat,
    m: nat,
    indent: u16,
    t: TemplateView,
)
    requires
        n <= m <= variants.len(),
        variant_items(variants, n, indent, t) is Err,
    ensures
        variant_items(variants, m, indent, t) == variant_items(variants, n, indent, t),
    decreases m,
{
    if n < m {
        lemma_variant_error_stays(variants, n, (m - 1) as nat, indent, t);
    }
}

} // verus!
