//! The program model: what a validated schema declares.

use vstd::prelude::*;

verus! {

/// The built-in scalar types.
#[derive(Debug, Clone, Copy, PartialEq, Eq, Structural)]
pub enum PrimitiveType {
    String,
    Int,
    Float,
    Bool,
}

/// A type expression.
#[derive(Debug, PartialEq, Eq)]
pub enum TyKind {
    /// A built-in scalar type.
    Primitive(PrimitiveType),
    /// A struct or enum of the same program, referred to by name.
    UserDefined(String),
    /// The nullable type `T?`.
    Nullable(Box<TyKind>),
    /// The array type `[T]`.
    Array(Box<TyKind>),
    /// The map type `<T>`, keyed implicitly.
    MapOf(Box<TyKind>),
    /// A tuple of types.
    Tuple(Vec<TyKind>),
}

/// The mathematical value of a [`TyKind`].
pub enum TyKindView {
    Primitive(PrimitiveType),
    UserDefined(Seq<char>),
    Nullable(Box<TyKindView>),
    Array(Box<TyKindView>),
    MapOf(Box<TyKindView>),
    Tuple(Seq<TyKindView>),
}

/// The mathematical value of a type expression.
pub open spec fn type_view(ty: TyKind) -> TyKindView
    decreases ty,
{
    match ty {
        TyKind::Primitive(p) => TyKindView::Primitive(p),
        TyKind::UserDefined(name) => TyKindView::UserDefined(name@),
        TyKind::Nullable(inner) => TyKindView::Nullable(Box::new(type_view(*inner))),
        TyKind::Array(inner) => TyKindView::Array(Box::new(type_view(*inner))),
        TyKind::MapOf(inner) => TyKindView::MapOf(Box::new(type_view(*inner))),
        TyKind::Tuple(elements) => TyKindView::Tuple(
            Seq::new(
                elements@.len(),
                |i: int|
                    if 0 <= i < elements@.len() {
                        type_view(elements@[i])
                    } else {
                        TyKindView::Tuple(Seq::empty())
                    },
            ),
        ),
    }
}

impl View for TyKind {
    type V = TyKindView;

    open spec fn view(&self) -> TyKindView {
        type_view(*self)
    }
}

/// One field of a struct.
#[derive(Debug, PartialEq, Eq)]
pub struct StructField {
    pub datatype: TyKind,
    pub name: String,
}

/// The mathematical value of a [`StructField`].
pub struct StructFieldView {
    pub datatype: TyKindView,
    pub name: Seq<char>,
}

impl View for StructField {
    type V = StructFieldView;

    open spec fn view(&self) -> StructFieldView {
        StructFieldView { datatype: self.datatype@, name: self.name@ }
    }
}

/// A struct: a name and its fields in declaration order.
#[derive(Debug, PartialEq, Eq)]
pub struct StructDefinition {
    pub name: String,
    pub fields: Vec<StructField>,
}

/// The mathematical value of a [`StructDefinition`].
pub struct StructDefinitionView {
    pub name: Seq<char>,
    pub fields: Seq<StructFieldView>,
}

impl View for StructDefinition {
    type V = StructDefinitionView;

    open spec fn view(&self) -> StructDefinitionView {
        StructDefinitionView {
            name: self.name@,
            fields: field_views(self.fields@),
        }
    }
}

/// The value of an enum variant.
#[derive(Debug, Clone, PartialEq, Eq)]
pub enum EnumVariantValue {
    Int(i32),
    String(String),
}

/// The mathematical value of an [`EnumVariantValue`].
pub enum EnumVariantValueView {
    Int(i32),
    String(Seq<char>),
}

impl View for EnumVariantValue {
    type V = EnumVariantValueView;

    open spec fn view(&self) -> EnumVariantValueView {
        match self {
            EnumVariantValue::Int(v) => EnumVariantValueView::Int(*v),
            EnumVariantValue::String(s) => EnumVariantValueView::String(s@),
        }
    }
}

/// One variant of an enum.
#[derive(Debug, Clone, PartialEq, Eq)]
pub struct EnumVariant {
    pub name: String,
    pub value: EnumVariantValue,
}

/// The mathematical value of an [`EnumVariant`].
pub struct EnumVariantView {
    pub name: Seq<char>,
    pub value: EnumVariantValueView,
}

impl View for EnumVariant {
    type V = EnumVariantView;

    open spec fn view(&self) -> EnumVariantView {
        EnumVariantView { name: self.name@, value: self.value@ }
    }
}

/// An enum: a name and its variants in declaration order.
#[derive(Debug, Clone, PartialEq, Eq)]
pub struct EnumDefinition {
    pub name: String,
    pub variants: Vec<EnumVariant>,
}

/// The mathematical value of an [`EnumDefinition`].
pub struct EnumDefinitionView {
    pub name: Seq<char>,
    pub variants: Seq<EnumVariantView>,
}

impl View for EnumDefinition {
    type V = EnumDefinitionView;

    open spec fn view(&self) -> EnumDefinitionView {
        EnumDefinitionView {
            name: self.name@,
            variants: variant_views(self.variants@),
        }
    }
}

/// A whole schema: its structs and its enums.
#[derive(Debug, PartialEq, Eq)]
pub struct Program {
    pub structs: Vec<StructDefinition>,
    pub enums: Vec<EnumDefinition>,
}

/// The mathematical value of a [`Program`].
pub struct ProgramView {
    pub structs: Seq<StructDefinitionView>,
    pub enums: Seq<EnumDefinitionView>,
}

impl View for Program {
    type V = ProgramView;

    open spec fn view(&self) -> ProgramView {
        ProgramView {
            structs: struct_views(self.structs@),
            enums: enum_views(self.enums@),
        }
    }
}

/// The values of a sequence of fields.
pub open spec fn field_views(fields: Seq<StructField>) -> Seq<StructFieldView> {
    fields.map_values(|f: StructField| f@)
}

/// The values of a sequence of variants.
pub open spec fn variant_views(variants: Seq<EnumVariant>) -> Seq<EnumVariantView> {
    variants.map_values(|v: EnumVariant| v@)
}

/// The values of a sequence of structs.
pub open spec fn struct_views(structs: Seq<StructDefinition>) -> Seq<StructDefinitionView> {
    structs.map_values(|d: StructDefinition| d@)
}

/// The values of a sequence of enums.
pub open spec fn enum_views(enums: Seq<EnumDefinition>) -> Seq<EnumDefinitionView> {
    enums.map_values(|d: EnumDefinition| d@)
}

/// The texts of a sequence of strings.
pub open spec fn text_views(texts: Seq<String>) -> Seq<Seq<char>> {
    texts.map_values(|t: String| t@)
}

} // verus!
