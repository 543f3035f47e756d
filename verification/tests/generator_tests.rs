use forser::codegen::{render_static_type, static_type, ts_field_type, TsFieldType};
use forser::generators::python::PYTHON_TEMPLATE;
use forser::generators::typescript::TYPESCRIPT_TEMPLATE;
use forser::generators::{PythonGenerator, TypeScriptGenerator};
use forser::glang::template::compile_template;
use forser::items::{PrimitiveType, TyKind};
use forser::language::Language;
use forser::parser::parse_schema;

const SCHEMA: &str = "// a small schema
enum Color { Red, Green = 4, Blue }
enum Unit { Meter = \"m\", Foot = \"ft\" }
struct Point { x: float, y: float, label: string? }
struct Shape {
    name: string,
    color: Color,
    points: [Point],
    tags: <[int]?>,
    visible: bool
}
";

fn integer() -> TyKind {
    TyKind::Primitive(PrimitiveType::Int)
}

fn udt(name: &str) -> TyKind {
    TyKind::UserDefined(name.to_string())
}

#[test]
fn the_generators_name_their_language() {
    let python = PythonGenerator::new();
    assert_eq!(python.lang_id(), "py");
    assert_eq!(python.extension(), "py");
    assert_eq!(python.template(), PYTHON_TEMPLATE);
    let typescript = TypeScriptGenerator::new();
    assert_eq!(typescript.lang_id(), "ts");
    assert_eq!(typescript.extension(), "ts");
    assert_eq!(typescript.template(), TYPESCRIPT_TEMPLATE);
}

#[test]
fn the_templates_of_the_generators_compile() {
    assert!(compile_template(PYTHON_TEMPLATE).is_ok());
    assert!(compile_template(TYPESCRIPT_TEMPLATE).is_ok());
}

#[test]
fn python_is_generated_from_a_schema() {
    let program = parse_schema(SCHEMA).unwrap();
    let expected = "from __future__ import annotations

from dataclasses import dataclass
from enum import Enum
from typing import Dict, List, Optional

class Color(Enum):
    Red = 0
    Green = 4
    Blue = 5

class Unit(Enum):
    Meter = \"m\"
    Foot = \"ft\"

@dataclass
class Point:
    x: float
    y: float
    label: Optional[str]

@dataclass
class Shape:
    name: str
    color: Color
    points: List[Point]
    tags: Dict[str, Optional[List[int]]]
    visible: bool";
    assert_eq!(PythonGenerator::new().generate(&program).unwrap(), expected);
}

#[test]
fn typescript_is_generated_from_a_schema() {
    let program = parse_schema(SCHEMA).unwrap();
    let expected = "/* eslint-disable */

export enum Color {
    Red = 0,
    Green = 4,
    Blue = 5,
}

export enum Unit {
    Meter = \"m\",
    Foot = \"ft\",
}

export class Point {
    public x!: number;
    public y!: number;
    public label!: (string) | null;
}

export class Shape {
    public name!: string;
    public color!: Color;
    public points!: Array<Point>;
    public tags!: Record<string, (Array<number>) | null>;
    public visible!: boolean;
}";
    assert_eq!(TypeScriptGenerator::new().generate(&program).unwrap(), expected);
}

#[test]
fn parse_schema_reports_every_error() {
    let errors = parse_schema("struct A { a: A, b: B }").unwrap_err();
    assert!(errors.len() >= 2);
}

#[test]
fn field_types_drop_null_and_keep_arrays() {
    assert_eq!(ts_field_type(&integer()), Some(TsFieldType::Primitive));
    assert_eq!(ts_field_type(&udt("A")), Some(TsFieldType::Message("A".to_string())));
    assert_eq!(
        ts_field_type(&TyKind::Nullable(Box::new(TyKind::Array(Box::new(TyKind::Nullable(
            Box::new(udt("A"))
        )))))),
        Some(TsFieldType::Array(Box::new(TsFieldType::Message("A".to_string()))))
    );
    assert_eq!(ts_field_type(&TyKind::MapOf(Box::new(integer()))), None);
    assert_eq!(ts_field_type(&TyKind::Array(Box::new(TyKind::Tuple(vec![])))), None);
}

#[test]
fn field_types_are_written_as_object_literals() {
    let mut out = "ty: ".to_string();
    TsFieldType::Primitive.write_ts_field_type(&mut out);
    assert_eq!(out, "ty: { kind: TyKindTag.Primitive }");
    let mut out = String::new();
    TsFieldType::Message("Foo".to_string()).write_ts_field_type(&mut out);
    assert_eq!(out, "{ kind: TyKindTag.Message, of: \"Foo\" }");
    let mut out = String::new();
    TsFieldType::Array(Box::new(TsFieldType::Array(Box::new(TsFieldType::Primitive))))
        .write_ts_field_type(&mut out);
    assert_eq!(
        out,
        "{ kind: TyKindTag.Array, of: { kind: TyKindTag.Array, of: { kind: TyKindTag.Primitive }}}"
    );
}

#[test]
fn static_types_are_typescript_types() {
    assert_eq!(static_type(&TyKind::Primitive(PrimitiveType::String)).unwrap(), "string");
    assert_eq!(static_type(&integer()).unwrap(), "number");
    assert_eq!(static_type(&TyKind::Primitive(PrimitiveType::Float)).unwrap(), "number");
    assert_eq!(static_type(&TyKind::Primitive(PrimitiveType::Bool)).unwrap(), "boolean");
    assert_eq!(static_type(&udt("Foo")).unwrap(), "Foo");
    assert_eq!(
        static_type(&TyKind::Array(Box::new(TyKind::Nullable(Box::new(integer()))))).unwrap(),
        "Array<(number) | null>"
    );
    assert_eq!(static_type(&TyKind::Tuple(vec![integer()])), None);
    assert_eq!(static_type(&TyKind::Nullable(Box::new(TyKind::MapOf(Box::new(integer()))))), None);
}

#[test]
fn render_static_type_writes_behind_what_is_there_or_nothing() {
    let mut out = "x: ".to_string();
    assert!(render_static_type(&mut out, &TyKind::Array(Box::new(udt("A")))));
    assert_eq!(out, "x: Array<A>");
    assert!(!render_static_type(&mut out, &TyKind::MapOf(Box::new(udt("A")))));
    assert_eq!(out, "x: Array<A>");
}
