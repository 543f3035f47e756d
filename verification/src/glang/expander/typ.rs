//! A variable that stands for a type.

use vstd::prelude::*;
use crate::glang::emit::{
    expansion, lemma_tuple_height, lemma_type_rule_weight, render_text, text_result_view,
    tuple_text, weight, ExpanderView,
};
use crate::glang::expander::ScopeEntry;
use crate::glang::scope::Scope;
use crate::glang::template::{ExpandOptions, Template, TemplateError, TemplateErrorView};
use crate::items::{PrimitiveType, TyKind, TyKindView};
use vstd::string::StringExecFns;

verus! {

/// Expands to what the rule of the types section for its type renders to.
#[derive(Debug, Clone, Copy)]
pub struct TypeExpander<'s>(pub &'s TyKind);

/// Expands a type: renders the rule of the types section that fits the
/// type, in a scope that binds `T` to what the type is built from. The
/// types of a tuple are expanded one behind the other.
pub fn expand_type(ty: &TyKind, indent: u16, opts: &ExpandOptions, template: &Template) -> (r:
    Result<String, TemplateError>)
    ensures
        text_result_view(r) == expansion(ExpanderView::Type(ty@), indent, opts@, template@),
    decreases weight(ExpanderView::Type(ty@)), 0nat, 0nat,
{
    proof {
        lemma_type_rule_weight(ty@, template@);
    }
    match ty {
        TyKind::Primitive(prim) => match prim {
            PrimitiveType::String => render_text(
                &template.field_string,
                &Scope::new(),
                indent,
                template,
            ),
            PrimitiveType::Int => render_text(&template.field_int, &Scope::new(), indent, template),
            PrimitiveType::Float => render_text(
                &template.field_float,
                &Scope::new(),
                indent,
                template,
            ),
            PrimitiveType::Bool => render_text(
                &template.field_bool,
                &Scope::new(),
                indent,
                template,
            ),
        },
        TyKind::UserDefined(name) => render_text(
            &template.field_struct,
            &Scope::new().add_text("T", name.as_str()),
            indent,
            template,
        ),
        TyKind::Nullable(inner) => render_text(
            &template.field_null,
            &Scope::new().add_entry("T", ScopeEntry::Type(TypeExpander(&**inner))),
            indent,
            template,
        ),
        TyKind::Array(inner) => render_text(
            &template.field_array,
            &Scope::new().add_entry("T", ScopeEntry::Type(TypeExpander(&**inner))),
            indent,
            template,
        ),
        TyKind::MapOf(inner) => render_text(
            &template.field_map,
            &Scope::new().add_entry("T", ScopeEntry::Type(TypeExpander(&**inner))),
            indent,
            template,
        ),
        TyKind::Tuple(inner_tys) => {
            let ghost elements = ty@->Tuple_0;
            let mut text = String::new();
            let mut i: usize = 0;
            assert(elements.len() == inner_tys.len());
            while i < inner_tys.len()
                invariant
                    i <= inner_tys.len(),
                    ty@ == TyKindView::Tuple(elements),
                    elements.len() == inner_tys.len(),
                    forall|k: int| 0 <= k < elements.len() ==> elements[k] == inner_tys@[k]@,
                    tuple_text(elements, i as nat, indent, opts@, template@) == Ok::<
                        _,
                        TemplateErrorView,
                    >(text@),
                decreases inner_tys.len() - i,
            {
                proof {
                    lemma_tuple_height(elements, elements.len(), i as int);
                }
                match expand_type(&inner_tys[i], indent, opts, template) {
                    Ok(piece) => {
                        text.append(piece.as_str());
                    },
                    Err(e) => {
                        proof {
                            lemma_tuple_error_stays(
                                elements,
                                (i + 1) as nat,
                                elements.len(),
                                indent,
                                opts@,
                                template@,
                            );
                        }
                        return Err(e);
                    },
                }
                i += 1;
            }
            Ok(text)
        },
    }
}

/// A tuple that has failed to render stays failed, with the same error.
pub proof fn lemma_tuple_error_stays(
    elements: Seq<TyKindView>,
    n: nat,
    m: nat,
    indent: u16,
    opts: crate::glang::template::ExpandOptionsView,
    t: crate::glang::template::TemplateView,
)
    requires
        n <= m <= elements.len(),
        tuple_text(elements, n, indent, opts, t) is Err,
    ensures
        tuple_text(elements, m, indent, opts, t) == tuple_text(elements, n, indent, opts, t),
    decreases m,
{
    if n < m {
        lemma_tuple_error_stays(elements, n, (m - 1) as nat, indent, opts, t);
    }
}

} // verus!
