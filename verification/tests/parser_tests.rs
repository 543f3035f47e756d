use forser::items::{
    EnumDefinition, EnumVariant, EnumVariantValue, PrimitiveType, Program, StructDefinition,
    StructField, TyKind,
};
use forser::lexer::{ForserFile, Lexer};
use forser::parser::{is_reserved, primitive_type, ty_recursive, ParseError, Parser};
use forser::token::{Token, TokenKind};

fn parse(text: &str) -> Result<Program, Vec<ParseError>> {
    let file = ForserFile::new(text);
    let mut source = file.source();
    let lexer = Lexer::new(&mut source);
    Parser::new(lexer).parse()
}

fn field(name: &str, datatype: TyKind) -> StructField {
    StructField { name: name.to_string(), datatype }
}

fn udt(name: &str) -> TyKind {
    TyKind::UserDefined(name.to_string())
}

fn int_variant(name: &str, value: i32) -> EnumVariant {
    EnumVariant { name: name.to_string(), value: EnumVariantValue::Int(value) }
}

fn enum_values(program: &Program) -> Vec<EnumVariantValue> {
    program.enums[0].variants.iter().map(|v| v.value.clone()).collect()
}

#[test]
fn an_empty_schema_is_an_empty_program() {
    assert_eq!(parse(""), Ok(Program { structs: vec![], enums: vec![] }));
}

#[test]
fn a_struct_keeps_its_fields_in_order() {
    let program = parse("struct P { a: int, b: string, c: float, d: bool }").unwrap();
    assert_eq!(
        program.structs,
        vec![StructDefinition {
            name: "P".to_string(),
            fields: vec![
                field("a", TyKind::Primitive(PrimitiveType::Int)),
                field("b", TyKind::Primitive(PrimitiveType::String)),
                field("c", TyKind::Primitive(PrimitiveType::Float)),
                field("d", TyKind::Primitive(PrimitiveType::Bool)),
            ],
        }]
    );
    assert!(program.enums.is_empty());
}

#[test]
fn type_syntax_nests() {
    let program = parse("struct P { a: [string?], b: <[int]>?, c: <<bool>> }").unwrap();
    let string = TyKind::Primitive(PrimitiveType::String);
    let int = TyKind::Primitive(PrimitiveType::Int);
    let boolean = TyKind::Primitive(PrimitiveType::Bool);
    assert_eq!(
        program.structs[0].fields,
        vec![
            field("a", TyKind::Array(Box::new(TyKind::Nullable(Box::new(string))))),
            field(
                "b",
                TyKind::Nullable(Box::new(TyKind::MapOf(Box::new(TyKind::Array(Box::new(int))))))
            ),
            field("c", TyKind::MapOf(Box::new(TyKind::MapOf(Box::new(boolean))))),
        ]
    );
}

#[test]
fn a_trailing_comma_is_accepted() {
    let program = parse("struct P { a: int, }").unwrap();
    assert_eq!(program.structs[0].fields.len(), 1);
    let program = parse("enum E { A, B, }").unwrap();
    assert_eq!(program.enums[0].variants.len(), 2);
}

#[test]
fn a_type_may_be_used_before_it_is_declared() {
    let program = parse("struct A { b: B } struct B { n: int }").unwrap();
    assert_eq!(
        program.structs,
        vec![
            StructDefinition { name: "A".to_string(), fields: vec![field("b", udt("B"))] },
            StructDefinition {
                name: "B".to_string(),
                fields: vec![field("n", TyKind::Primitive(PrimitiveType::Int))],
            },
        ]
    );
}

#[test]
fn an_enum_may_be_used_before_it_is_declared() {
    let program = parse("struct A { c: Color } enum Color { Red, Green }").unwrap();
    assert_eq!(program.structs[0].fields, vec![field("c", udt("Color"))]);
    assert_eq!(program.enums[0].name, "Color");
}

#[test]
fn a_type_that_is_never_declared_is_unknown() {
    assert_eq!(parse("struct A { b: B }"), Err(vec![ParseError::UnknownType("B".to_string())]));
}

#[test]
fn unknown_types_are_reported_once_each_in_order_of_use() {
    assert_eq!(
        parse("struct A { x: Y, y: X, z: [Y] }"),
        Err(vec![
            ParseError::UnknownType("Y".to_string()),
            ParseError::UnknownType("X".to_string()),
        ])
    );
}

#[test]
fn a_struct_that_holds_itself_directly_is_recursive() {
    assert_eq!(
        parse("struct A { self: A }"),
        Err(vec![ParseError::RecursiveType("A".to_string())])
    );
}

#[test]
fn a_recursive_field_is_left_out_of_its_struct() {
    let file = ForserFile::new("struct A { self: A }");
    let mut source = file.source();
    let mut parser = Parser::new(Lexer::new(&mut source));
    parser.parse_declarations();
    assert_eq!(parser.errors(), &vec![ParseError::RecursiveType("A".to_string())]);
    assert_eq!(
        parser.structs(),
        &vec![StructDefinition { name: "A".to_string(), fields: vec![] }]
    );
}

#[test]
fn a_struct_that_holds_itself_in_a_container_is_accepted() {
    let program = parse("struct A { next: A?, all: [A], by_key: <A> }").unwrap();
    assert_eq!(
        program.structs[0].fields,
        vec![
            field("next", TyKind::Nullable(Box::new(udt("A")))),
            field("all", TyKind::Array(Box::new(udt("A")))),
            field("by_key", TyKind::MapOf(Box::new(udt("A")))),
        ]
    );
}

#[test]
fn a_name_declared_twice_is_redefined_and_the_later_body_stays() {
    let text = "struct Foo { a: int } struct Foo { b: string, c: bool }";
    assert_eq!(parse(text), Err(vec![ParseError::RedefinedType("Foo".to_string())]));
    let file = ForserFile::new(text);
    let mut source = file.source();
    let mut parser = Parser::new(Lexer::new(&mut source));
    parser.parse_declarations();
    assert_eq!(
        parser.structs(),
        &vec![StructDefinition {
            name: "Foo".to_string(),
            fields: vec![
                field("b", TyKind::Primitive(PrimitiveType::String)),
                field("c", TyKind::Primitive(PrimitiveType::Bool)),
            ],
        }]
    );
    assert!(parser.enums().is_empty());
}

#[test]
fn a_redefined_struct_keeps_its_first_place() {
    let file = ForserFile::new("struct A { } struct B { } struct A { x: int }");
    let mut source = file.source();
    let mut parser = Parser::new(Lexer::new(&mut source));
    parser.parse_declarations();
    let names: Vec<&str> = parser.structs().iter().map(|s| s.name.as_str()).collect();
    assert_eq!(names, vec!["A", "B"]);
    assert_eq!(parser.structs()[0].fields.len(), 1);
}

#[test]
fn an_enum_may_not_take_the_name_of_a_struct() {
    assert_eq!(
        parse("struct A { } enum A { X }"),
        Err(vec![ParseError::RedefinedType("A".to_string())])
    );
}

#[test]
fn a_reserved_word_is_no_name_for_a_declaration() {
    assert_eq!(
        parse("struct int { a: bool }"),
        Err(vec![ParseError::InvalidUdt("int".to_string())])
    );
    assert_eq!(parse("enum string { A }"), Err(vec![ParseError::InvalidUdt("string".to_string())]));
}

#[test]
fn enum_values_count_up_from_zero() {
    let program = parse("enum E { A, B, C }").unwrap();
    assert_eq!(
        program.enums,
        vec![EnumDefinition {
            name: "E".to_string(),
            variants: vec![int_variant("A", 0), int_variant("B", 1), int_variant("C", 2)],
        }]
    );
}

#[test]
fn enum_values_count_on_from_an_explicit_value() {
    let program = parse("enum E { A, B = 5, C }").unwrap();
    assert_eq!(
        enum_values(&program),
        vec![EnumVariantValue::Int(0), EnumVariantValue::Int(5), EnumVariantValue::Int(6)]
    );
}

#[test]
fn enum_values_wrap_behind_the_largest() {
    let program = parse("enum E { A = 2147483647, B }").unwrap();
    assert_eq!(
        enum_values(&program),
        vec![EnumVariantValue::Int(i32::MAX), EnumVariantValue::Int(i32::MIN)]
    );
}

#[test]
fn an_enum_of_strings_keeps_its_texts() {
    let program = parse("enum E { A = \"x\", B = \"y z\" }").unwrap();
    assert_eq!(
        enum_values(&program),
        vec![
            EnumVariantValue::String("x".to_string()),
            EnumVariantValue::String("y z".to_string())
        ]
    );
}

#[test]
fn a_string_in_an_enum_of_integers_is_an_error() {
    assert_eq!(
        parse("enum E { A, B = \"x\" }"),
        Err(vec![ParseError::Custom("Expected an int, found string".to_string())])
    );
}

#[test]
fn an_integer_in_an_enum_of_strings_is_an_error() {
    assert_eq!(
        parse("enum E { A = \"x\", B = 1 }"),
        Err(vec![ParseError::Custom("Expected a string, found int".to_string())])
    );
}

#[test]
fn a_variant_without_a_value_in_an_enum_of_strings_is_an_error() {
    assert_eq!(
        parse("enum E { A = \"x\", B }"),
        Err(vec![ParseError::Custom("Expected a string".to_string())])
    );
}

#[test]
fn a_variant_with_an_error_stays_with_the_value_zero() {
    let file = ForserFile::new("enum E { A = 4, B = \"x\", C }");
    let mut source = file.source();
    let mut parser = Parser::new(Lexer::new(&mut source));
    parser.parse_declarations();
    assert_eq!(
        parser.enums()[0].variants,
        vec![int_variant("A", 4), int_variant("B", 0), int_variant("C", 5)]
    );
    assert_eq!(parser.errors().len(), 1);
}

#[test]
fn a_value_that_is_no_literal_is_a_syntax_error_at_the_equals_sign() {
    let errors = parse("enum E { A = B }").unwrap_err();
    assert_eq!(
        errors[0],
        ParseError::UnexpectedToken {
            expected: None,
            found: Token { kind: TokenKind::Equal, pos_start: 10, pos_end: 12, line: 1, column: 12 },
        }
    );
}

#[test]
fn a_token_that_starts_no_declaration_is_reported_and_passed_over() {
    let errors = parse("a struct B { }").unwrap_err();
    assert_eq!(
        errors,
        vec![ParseError::UnexpectedToken {
            expected: None,
            found: Token {
                kind: TokenKind::Identifier("a".to_string()),
                pos_start: 1,
                pos_end: 1,
                line: 1,
                column: 1,
            },
        }]
    );
}

#[test]
fn a_missing_colon_is_an_unexpected_token() {
    let errors = parse("struct A { x int }").unwrap_err();
    assert_eq!(
        errors[0],
        ParseError::UnexpectedToken {
            expected: Some(TokenKind::Colon),
            found: Token {
                kind: TokenKind::Identifier("int".to_string()),
                pos_start: 12,
                pos_end: 16,
                line: 1,
                column: 16,
            },
        }
    );
}

#[test]
fn a_missing_name_is_an_unexpected_token_with_an_empty_identifier_expected() {
    let errors = parse("struct { }").unwrap_err();
    match &errors[0] {
        ParseError::UnexpectedToken { expected, found } => {
            assert_eq!(expected, &Some(TokenKind::Identifier(String::new())));
            assert_eq!(found.kind, TokenKind::BraceLeft);
        }
        other => panic!("unexpected error {:?}", other),
    }
}

#[test]
fn errors_are_collected_across_declarations() {
    let errors = parse("struct A { a: A } struct bool { } enum A { X } struct C { d: D }")
        .unwrap_err();
    assert_eq!(
        errors,
        vec![
            ParseError::RecursiveType("A".to_string()),
            ParseError::InvalidUdt("bool".to_string()),
            ParseError::RedefinedType("A".to_string()),
            ParseError::UnknownType("D".to_string()),
        ]
    );
}

#[test]
fn an_unfinished_struct_ends_with_the_input() {
    let errors = parse("struct").unwrap_err();
    assert!(errors.len() >= 2);
    assert!(matches!(errors[0], ParseError::UnexpectedToken { .. }));
    let errors = parse("struct A { x: int").unwrap_err();
    assert_eq!(errors.len(), 1);
    assert!(matches!(
        &errors[0],
        ParseError::UnexpectedToken { expected: Some(TokenKind::BraceRight), found }
            if found.kind == TokenKind::Eof
    ));
}

#[test]
fn finish_reports_what_is_pending() {
    let file = ForserFile::new("struct A { b: B }");
    let mut source = file.source();
    let mut parser = Parser::new(Lexer::new(&mut source));
    parser.parse_declarations();
    assert!(parser.errors().is_empty());
    assert_eq!(parser.finish(), Err(vec![ParseError::UnknownType("B".to_string())]));
}

#[test]
fn ty_recursive_looks_at_the_outermost_type_only() {
    assert!(ty_recursive("A", &udt("A")));
    assert!(!ty_recursive("A", &udt("B")));
    assert!(!ty_recursive("A", &TyKind::Array(Box::new(udt("A")))));
    assert!(!ty_recursive("A", &TyKind::Nullable(Box::new(udt("A")))));
    assert!(!ty_recursive("A", &TyKind::MapOf(Box::new(udt("A")))));
    assert!(!ty_recursive("A", &TyKind::Tuple(vec![udt("A")])));
    assert!(!ty_recursive("int", &TyKind::Primitive(PrimitiveType::Int)));
}

#[test]
fn is_reserved_is_false_on_the_reserved_words_alone() {
    for word in ["struct", "string", "int", "float", "bool"] {
        assert!(!is_reserved(word));
    }
    for word in ["enum", "Int", "strings", "", "A"] {
        assert!(is_reserved(word));
    }
}

#[test]
fn primitive_names_map_to_their_types() {
    assert_eq!(primitive_type("string"), Some(PrimitiveType::String));
    assert_eq!(primitive_type("int"), Some(PrimitiveType::Int));
    assert_eq!(primitive_type("float"), Some(PrimitiveType::Float));
    assert_eq!(primitive_type("bool"), Some(PrimitiveType::Bool));
    assert_eq!(primitive_type("Bool"), None);
}
