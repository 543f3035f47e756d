//! The text of types for the fixed TypeScript generator: the generator
//! that emits classes with a table of their fields, without a template.
//!
//! That generator knows primitive types, messages and arrays, with or
//! without null. A type that holds a map or a tuple has no text here.

use vstd::prelude::*;
use vstd::string::StringExecFns;
use crate::items::{PrimitiveType, TyKind, TyKindView};

verus! {

/// How the TypeScript runtime tells the type of a field.
#[derive(Debug, PartialEq, Eq)]
pub enum TsFieldType {
    Primitive,
    Array(Box<TsFieldType>),
    Message(String),
}

/// The mathematical value of a [`TsFieldType`].
pub enum TsFieldTypeView {
    Primitive,
    Array(Box<TsFieldTypeView>),
    Message(Seq<char>),
}

/// The mathematical value of a [`TsFieldType`].
pub open spec fn field_type_view(t: TsFieldType) -> TsFieldTypeView
    decreases t,
{
    match t {
        TsFieldType::Primitive => TsFieldTypeView::Primitive,
        TsFieldType::Array(inner) => TsFieldTypeView::Array(Box::new(field_type_view(*inner))),
        TsFieldType::Message(name) => TsFieldTypeView::Message(name@),
    }
}

impl View for TsFieldType {
    type V = TsFieldTypeView;

    open spec fn view(&self) -> TsFieldTypeView {
        field_type_view(*self)
    }
}

/// Whether the generator knows a type: it is built from primitive types,
/// messages, arrays and null.
pub open spec fn ts_supported(ty: TyKindView) -> bool
    decreases ty,
{
    match ty {
        TyKindView::Primitive(_) => true,
        TyKindView::UserDefined(_) => true,
        TyKindView::Array(inner) => ts_supported(*inner),
        TyKindView::Nullable(inner) => ts_supported(*inner),
        TyKindView::MapOf(_) => false,
        TyKindView::Tuple(_) => false,
    }
}

/// How the runtime tells a type that the generator knows. Null leaves no
/// mark: a nullable type is told as the type it wraps.
pub open spec fn field_type_of(ty: TyKindView) -> TsFieldTypeView
    decreases ty,
{
    match ty {
        TyKindView::UserDefined(name) => TsFieldTypeView::Message(name),
        TyKindView::Array(inner) => TsFieldTypeView::Array(Box::new(field_type_of(*inner))),
        TyKindView::Nullable(inner) => field_type_of(*inner),
        _ => TsFieldTypeView::Primitive,
    }
}

/// How the runtime tells the type of a field, if the generator knows the
/// type.
pub fn ts_field_type(value: &TyKind) -> (r: Option<TsFieldType>)
    ensures
        match r {
            Some(t) => ts_supported(value@) && t@ == field_type_of(value@),
            None => !ts_supported(value@),
        },
    decreases value,
{
    match value {
        TyKind::Primitive(_) => Some(TsFieldType::Primitive),
        TyKind::UserDefined(name) => Some(TsFieldType::Message(name.clone())),
        TyKind::Array(inner) => match ts_field_type(inner) {
            Some(t) => Some(TsFieldType::Array(Box::new(t))),
            None => None,
        },
        TyKind::Nullable(inner) => ts_field_type(inner),
        TyKind::MapOf(_) => None,
        TyKind::Tuple(_) => None,
    }
}

/// The object literal by which the runtime tells a type.
pub open spec fn field_type_text(t: TsFieldTypeView) -> Seq<char>
    decreases t,
{
    match t {
        TsFieldTypeView::Primitive => "{ kind: TyKindTag.Primitive }"@,
        TsFieldTypeView::Message(name) => "{ kind: TyKindTag.Message, of: \""@ + name + "\" }"@,
        TsFieldTypeView::Array(inner) => "{ kind: TyKindTag.Array, of: "@ + field_type_text(*inner)
            + "}"@,
    }
}

impl TsFieldType {
    /// Writes the object literal by which the runtime tells this type.
    pub fn write_ts_field_type(&self, dest: &mut String)
        ensures
            final(dest)@ == old(dest)@ + field_type_text(self@),
        decreases self,
    {
        match self {
            TsFieldType::Primitive => {
                dest.append("{ kind: TyKindTag.Primitive }");
            },
            TsFieldType::Message(name) => {
                dest.append("{ kind: TyKindTag.Message, of: \"");
                dest.append(name.as_str());
                dest.append("\" }");
                assert(dest@ =~= old(dest)@ + field_type_text(self@));
            },
            TsFieldType::Array(inner) => {
                dest.append("{ kind: TyKindTag.Array, of: ");
                inner.write_ts_field_type(dest);
                dest.append("}");
                assert(dest@ =~= old(dest)@ + field_type_text(self@));
            },
        }
    }
}

/// The TypeScript type for a type that the generator knows.
pub open spec fn static_type_text(ty: TyKindView) -> Seq<char>
    decreases ty,
{
    match ty {
        TyKindView::Primitive(PrimitiveType::String) => "string"@,
        TyKindView::Primitive(PrimitiveType::Int) => "number"@,
        TyKindView::Primitive(PrimitiveType::Float) => "number"@,
        TyKindView::Primitive(PrimitiveType::Bool) => "boolean"@,
        TyKindView::UserDefined(name) => name,
        TyKindView::Array(inner) => "Array<"@ + static_type_text(*inner) + ">"@,
        TyKindView::Nullable(inner) => "("@ + static_type_text(*inner) + ") | null"@,
        _ => Seq::empty(),
    }
}

/// The TypeScript type for a type, if the generator knows the type.
pub fn static_type(ty: &TyKind) -> (r: Option<String>)
    ensures
        match r {
            Some(text) => ts_supported(ty@) && text@ == static_type_text(ty@),
            None => !ts_supported(ty@),
        },
    decreases ty,
{
    match ty {
        TyKind::Primitive(prim) => Some(
            match prim {
                PrimitiveType::String => String::from_str("string"),
                PrimitiveType::Int => String::from_str("number"),
                PrimitiveType::Float => String::from_str("number"),
                PrimitiveType::Bool => String::from_str("boolean"),
            },
        ),
        TyKind::UserDefined(name) => Some(name.clone()),
        TyKind::Array(inner) => match static_type(inner) {
            Some(text) => {
                let mut out = String::from_str("Array<");
                out.append(text.as_str());
                out.append(">");
                Some(out)
            },
            None => None,
        },
        TyKind::Nullable(inner) => match static_type(inner) {
            Some(text) => {
                let mut out = String::from_str("(");
                out.append(text.as_str());
                out.append(") | null");
                Some(out)
            },
            None => None,
        },
        TyKind::MapOf(_) => None,
        TyKind::Tuple(_) => None,
    }
}

/// Writes the TypeScript type for `ty` and says that it did; for a type
/// that the generator does not know it writes nothing and says so.
pub fn render_static_type(dest: &mut String, ty: &TyKind) -> (written: bool)
    ensures
        written == ts_supported(ty@),
        final(dest)@ == if written {
            old(dest)@ + static_type_text(ty@)
        } else {
            old(dest)@
        },
{
    match static_type(ty) {
        Some(text) => {
            dest.append(text.as_str());
            true
        },
        None => false,
    }
}

} // verus!
