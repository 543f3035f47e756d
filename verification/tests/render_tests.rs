use forser::glang::emit::{
    int_text, newline_delimeters, render_span, render_text, SpanWriter,
};
use forser::glang::expander::msg_enum::{expand_variants, variant_value_text, EnumVariantsExpander};
use forser::glang::expander::msg_struct::{expand_fields, StructFieldsExpander};
use forser::glang::expander::text::TextExpander;
use forser::glang::expander::typ::{expand_type, TypeExpander};
use forser::glang::expander::{expand_entry, Expander, ScopeEntry};
use forser::glang::scope::Scope;
use forser::glang::template::{
    compile_span, compile_template, ExpandOptions, Instruction, Template, TemplateError,
    TemplateSpan,
};
use forser::glang::{render_program, render_template};
use forser::items::{
    EnumDefinition, EnumVariant, EnumVariantValue, PrimitiveType, Program, StructDefinition,
    StructField, TyKind,
};
use forser::lexer::{ForserFile, Lexer};
use forser::parser::Parser;

const TOY: &str = "#prelude
// generated
#end/prelude
#types
string { str }
int { int }
float { float }
bool { bool }
array { array(%T%) }
map { map(%T%) }
null { nullable(%T%) }
struct { ref(%T%) }
#end/types
#field_visitor
%name%: %ty%
#end/field_visitor
#message_struct
struct %name% {
    %fields/;%
}
#end/message_struct
#enum_variant_visitor
%name% = %val%
#end/enum_variant_visitor
#message_enum
enum %name% {
  %variants/,/+%
}
#end/message_enum
";

fn toy() -> Template {
    compile_template(TOY).unwrap()
}

fn named(names: &[&str]) -> Vec<EnumVariant> {
    names
        .iter()
        .map(|n| EnumVariant { name: n.to_string(), value: EnumVariantValue::Int(0) })
        .collect()
}

/// A template whose variants render as their bare names.
fn names_only() -> Template {
    compile_template("#enum_variant_visitor\n%name%\n#end/enum_variant_visitor\n").unwrap()
}

fn render_items(line: &str, names: &[&str], indent: u16) -> Result<String, TemplateError> {
    let template = names_only();
    let variants = named(names);
    let span = compile_span(line).unwrap();
    let scope = Scope::new()
        .add_expander("items", EnumVariantsExpander::new(&variants))
        .add_entry("x", ScopeEntry::Variants(EnumVariantsExpander::new(&variants)));
    render_text(&span, &scope, indent, &template)
}

fn parse(text: &str) -> Program {
    let file = ForserFile::new(text);
    let mut source = file.source();
    Parser::new(Lexer::new(&mut source)).parse().unwrap()
}

#[test]
fn the_writer_collects_what_it_is_given() {
    let mut writer = SpanWriter::new("a".to_string());
    writer.write_char('b');
    writer.write_str("cd");
    writer.do_indent(3);
    writer.write_char('e');
    writer.do_indent(0);
    assert_eq!(writer.into_inner(), "abcd   e");
}

#[test]
fn integers_are_written_in_decimal() {
    assert_eq!(int_text(0), "0");
    assert_eq!(int_text(7), "7");
    assert_eq!(int_text(10), "10");
    assert_eq!(int_text(-1), "-1");
    assert_eq!(int_text(1234567890), "1234567890");
    assert_eq!(int_text(i32::MAX), "2147483647");
    assert_eq!(int_text(i32::MIN), "-2147483648");
}

#[test]
fn variant_values_are_numbers_or_quoted_strings() {
    assert_eq!(variant_value_text(&EnumVariantValue::Int(-12)), "-12");
    assert_eq!(variant_value_text(&EnumVariantValue::String("a b".to_string())), "\"a b\"");
    assert_eq!(variant_value_text(&EnumVariantValue::String(String::new())), "\"\"");
}

#[test]
fn items_are_joined_with_delimiter_line_break_and_indent() {
    let items = vec!["a".to_string(), "b".to_string(), "c".to_string()];
    let opts = ExpandOptions { delimeter: Some(",".to_string()), trailing: false, inline: false };
    let mut writer = SpanWriter::new("x:".to_string());
    newline_delimeters(&mut writer, &items, &opts, 2);
    assert_eq!(writer.into_inner(), "x:a,\n  b,\n  c");
}

#[test]
fn items_without_a_delimiter_are_joined_with_line_break_and_indent() {
    let items = vec!["a".to_string(), "b".to_string()];
    let opts = ExpandOptions { delimeter: None, trailing: true, inline: false };
    let mut writer = SpanWriter::new(String::new());
    newline_delimeters(&mut writer, &items, &opts, 1);
    assert_eq!(writer.into_inner(), "a\n b");
}

#[test]
fn a_trailing_delimiter_follows_the_last_item() {
    let opts = ExpandOptions { delimeter: Some(";".to_string()), trailing: true, inline: false };
    let mut writer = SpanWriter::new(String::new());
    newline_delimeters(&mut writer, &vec!["a".to_string()], &opts, 0);
    assert_eq!(writer.into_inner(), "a;");
    let mut writer = SpanWriter::new(String::new());
    newline_delimeters(&mut writer, &vec![], &opts, 0);
    assert_eq!(writer.into_inner(), ";");
}

#[test]
fn inline_items_stay_on_one_line() {
    let items = vec!["a".to_string(), "b".to_string()];
    let mut opts = ExpandOptions { delimeter: Some(",".to_string()), trailing: false, inline: true };
    let mut writer = SpanWriter::new(String::new());
    newline_delimeters(&mut writer, &items, &opts, 4);
    assert_eq!(writer.into_inner(), "a,b");
    opts.trailing = true;
    let mut writer = SpanWriter::new(String::new());
    newline_delimeters(&mut writer, &items, &opts, 4);
    assert_eq!(writer.into_inner(), "a,b,");
    opts.delimeter = None;
    let mut writer = SpanWriter::new(String::new());
    newline_delimeters(&mut writer, &items, &opts, 4);
    assert_eq!(writer.into_inner(), "ab");
    opts.inline = false;
    opts.delimeter = Some(",".to_string());
    opts.trailing = false;
    let mut writer = SpanWriter::new(String::new());
    newline_delimeters(&mut writer, &items, &opts, 4);
    assert_eq!(writer.into_inner(), "a,\n    b");
}

#[test]
fn an_inline_placeholder_keeps_its_items_on_the_line() {
    assert_eq!(render_items("  [%items/, /-/i%]", &["a", "b", "c"], 3).unwrap(), "  [a, b, c]");
    assert_eq!(render_items("  [%items/, /+/i%]", &["a", "b"], 0).unwrap(), "  [a, b, ]");
}

#[test]
fn a_scope_finds_what_was_bound_last() {
    let scope = Scope::new().add_text("a", "1").add_text("b", "2").add_text("a", "3");
    let text = |name: &str| match scope.get_expander(name) {
        Ok(ScopeEntry::Text(TextExpander(t))) => t.to_string(),
        other => panic!("unexpected {:?}", other),
    };
    assert_eq!(text("a"), "3");
    assert_eq!(text("b"), "2");
    assert!(matches!(
        scope.get_expander("c"),
        Err(TemplateError::UnboundVariable(name)) if name == "c"
    ));
    assert!(matches!(Scope::new().get_expander("a"), Err(TemplateError::UnboundVariable(_))));
}

#[test]
fn text_without_placeholders_renders_as_it_stands() {
    let text = "fn main() {\n    let x = 1;\n\n        // 100% plain\n}";
    let span = compile_span(text).unwrap();
    assert_eq!(render_text(&span, &Scope::new(), 0, &Template::default()).unwrap(), text);
}

#[test]
fn a_base_indent_follows_every_line_break() {
    let span = compile_span("a\n  b\nc").unwrap();
    assert_eq!(
        render_text(&span, &Scope::new(), 3, &Template::default()).unwrap(),
        "a\n     b\n   c"
    );
}

#[test]
fn a_text_variable_is_emitted_as_it_stands() {
    let span = compile_span("<%x%|%x/,/+%>").unwrap();
    let scope = Scope::new().add_text("x", "a\nb");
    assert_eq!(render_text(&span, &scope, 4, &Template::default()).unwrap(), "<a\nb|a\nb>");
}

#[test]
fn continuation_lines_are_indented_to_the_column_of_the_placeholder() {
    assert_eq!(render_items("    %items/,%", &["a", "b", "c"], 0).unwrap(), "    a,\n    b,\n    c");
    assert_eq!(
        render_items("    %items/,%", &["a", "b", "c"], 2).unwrap(),
        "    a,\n      b,\n      c"
    );
}

#[test]
fn the_indent_of_a_line_counts_even_behind_a_literal() {
    assert_eq!(render_items("  x = %items/,%", &["a", "b"], 0).unwrap(), "  x = a,\n  b");
}

#[test]
fn the_plus_flag_puts_the_delimiter_behind_every_item() {
    assert_eq!(render_items("%x/,/+%", &["a", "b", "c"], 0).unwrap(), "a,\nb,\nc,");
    assert_eq!(render_items("%x/,%", &["a", "b", "c"], 0).unwrap(), "a,\nb,\nc");
    assert_eq!(render_items("%x%", &["a", "b", "c"], 0).unwrap(), "a\nb\nc");
}

#[test]
fn a_variable_that_is_not_bound_stops_the_render() {
    let span = compile_span("a %missing% b").unwrap();
    assert_eq!(
        render_text(&span, &Scope::new().add_text("other", "x"), 0, &Template::default()),
        Err(TemplateError::UnboundVariable("missing".to_string()))
    );
}

#[test]
fn a_failed_render_emits_nothing() {
    let span = compile_span("a %missing% b").unwrap();
    let mut writer = SpanWriter::new("kept".to_string());
    let result = render_span(&span, &mut writer, Scope::new(), 0, &Template::default());
    assert_eq!(result, Err(TemplateError::UnboundVariable("missing".to_string())));
    assert_eq!(writer.into_inner(), "kept");
}

#[test]
fn render_span_emits_behind_what_is_there() {
    let span = compile_span("b%x%").unwrap();
    let mut writer = SpanWriter::new("a".to_string());
    render_span(&span, &mut writer, Scope::new().add_text("x", "c"), 0, &Template::default())
        .unwrap();
    assert_eq!(writer.into_inner(), "abc");
    let mut writer = SpanWriter::new("a".to_string());
    span.print(0, &mut writer, Scope::new().add_text("x", "d"), &Template::default()).unwrap();
    assert_eq!(writer.into_inner(), "abd");
}

#[test]
fn an_indent_beyond_sixteen_bits_stops_the_render() {
    let span = TemplateSpan {
        instructions: vec![
            Instruction::Indent(40000),
            Instruction::Expand { var: "x".to_string(), opts: ExpandOptions::default() },
        ],
    };
    let scope = Scope::new().add_text("x", "a");
    assert_eq!(
        render_text(&span, &scope, 30000, &Template::default()),
        Err(TemplateError::IndentOverflow)
    );
    assert!(render_text(&span, &scope, 25535, &Template::default()).is_ok());
}

#[test]
fn types_render_through_their_rules() {
    let template = toy();
    let opts = ExpandOptions::default();
    let render = |ty: &TyKind| expand_type(ty, 0, &opts, &template).unwrap();
    assert_eq!(render(&TyKind::Primitive(PrimitiveType::String)), "str");
    assert_eq!(render(&TyKind::Primitive(PrimitiveType::Int)), "int");
    assert_eq!(render(&TyKind::Primitive(PrimitiveType::Float)), "float");
    assert_eq!(render(&TyKind::Primitive(PrimitiveType::Bool)), "bool");
    assert_eq!(render(&TyKind::UserDefined("Foo".to_string())), "ref(Foo)");
    assert_eq!(
        render(&TyKind::MapOf(Box::new(TyKind::Primitive(PrimitiveType::Int)))),
        "map(int)"
    );
}

#[test]
fn nested_types_render_in_the_order_in_which_they_nest() {
    let template = toy();
    let program = parse("struct P { a: [string?] }");
    let ty = &program.structs[0].fields[0].datatype;
    assert_eq!(
        expand_type(ty, 0, &ExpandOptions::default(), &template).unwrap(),
        "array(nullable(str))"
    );
    let program = parse("struct P { a: [string]? }");
    let ty = &program.structs[0].fields[0].datatype;
    assert_eq!(
        expand_type(ty, 0, &ExpandOptions::default(), &template).unwrap(),
        "nullable(array(str))"
    );
    let program = parse("struct P { a: [[<P?>]] }");
    let ty = &program.structs[0].fields[0].datatype;
    assert_eq!(
        expand_entry(&ScopeEntry::Type(TypeExpander(ty)), 0, &ExpandOptions::default(), &template)
            .unwrap(),
        "array(array(map(nullable(ref(P)))))"
    );
}

#[test]
fn the_types_of_a_tuple_render_one_behind_the_other() {
    let template = toy();
    let ty = TyKind::Tuple(vec![
        TyKind::Primitive(PrimitiveType::Int),
        TyKind::Array(Box::new(TyKind::Primitive(PrimitiveType::Bool))),
        TyKind::Tuple(vec![]),
        TyKind::UserDefined("A".to_string()),
    ]);
    assert_eq!(
        expand_type(&ty, 0, &ExpandOptions::default(), &template).unwrap(),
        "intarray(bool)ref(A)"
    );
}

#[test]
fn fields_render_through_the_field_span() {
    let template = toy();
    let program = parse("struct P { a: int, b: [P] }");
    let opts = ExpandOptions { delimeter: Some(";".to_string()), trailing: true, inline: false };
    assert_eq!(
        expand_fields(&program.structs[0].fields, 2, &opts, &template).unwrap(),
        "a: int;\n  b: array(ref(P));"
    );
    let entry = ScopeEntry::Fields(StructFieldsExpander::new(&program.structs[0].fields));
    assert_eq!(
        expand_entry(&entry, 0, &ExpandOptions::default(), &template).unwrap(),
        "a: int\nb: array(ref(P))"
    );
}

#[test]
fn variants_render_through_the_variant_span() {
    let template = toy();
    let program = parse("enum E { A, B = 5, C } enum S { X = \"x\" }");
    let opts = ExpandOptions { delimeter: Some(",".to_string()), trailing: false, inline: false };
    assert_eq!(
        expand_variants(&program.enums[0].variants, 1, &opts, &template).unwrap(),
        "A = 0,\n B = 5,\n C = 6"
    );
    assert_eq!(
        expand_variants(&program.enums[1].variants, 1, &opts, &template).unwrap(),
        "X = \"x\""
    );
}

#[test]
fn a_program_renders_prelude_enums_and_structs() {
    let program = parse(
        "struct A { b: B?, tags: [string] }\nenum Kind { One, Two = 4 }\nstruct B { n: <int> }",
    );
    let expected = "// generated\n\n\
                    enum Kind {\n  One = 0,\n  Two = 4,\n}\n\n\
                    struct A {\n    b: nullable(ref(B));\n    tags: array(str)\n}\n\n\
                    struct B {\n    n: map(int)\n}";
    assert_eq!(render_template(TOY, &program).unwrap(), expected);
    assert_eq!(render_program(&toy(), &program).unwrap(), expected);
}

#[test]
fn an_empty_program_renders_the_prelude_alone() {
    let program = Program { structs: vec![], enums: vec![] };
    assert_eq!(render_template(TOY, &program).unwrap(), "// generated");
}

#[test]
fn a_template_error_stops_render_template() {
    let program = Program { structs: vec![], enums: vec![] };
    assert_eq!(
        render_template("#nope\n", &program),
        Err(TemplateError::UnknownSection("nope".to_string()))
    );
}

#[test]
fn a_template_that_names_what_the_driver_does_not_bind_fails() {
    let program = Program {
        structs: vec![StructDefinition {
            name: "A".to_string(),
            fields: vec![StructField {
                name: "x".to_string(),
                datatype: TyKind::Primitive(PrimitiveType::Int),
            }],
        }],
        enums: vec![EnumDefinition { name: "E".to_string(), variants: vec![] }],
    };
    assert_eq!(
        render_template("#message_struct\n%nme%\n#end/message_struct\n", &program),
        Err(TemplateError::UnboundVariable("nme".to_string()))
    );
    assert_eq!(
        render_template(
            "#message_struct\n%fields%\n#end/message_struct\n\
             #field_visitor\n%type%\n#end/field_visitor\n",
            &program
        ),
        Err(TemplateError::UnboundVariable("type".to_string()))
    );
    assert_eq!(
        render_template(
            "#message_struct\n%fields%\n#end/message_struct\n\
             #field_visitor\n%ty%\n#end/field_visitor\n\
             #types\nint { %U% }\n#end/types\n",
            &program
        ),
        Err(TemplateError::UnboundVariable("U".to_string()))
    );
}

#[test]
fn expanders_emit_what_they_expand_to() {
    let template = toy();
    let opts = ExpandOptions { delimeter: Some(",".to_string()), trailing: false, inline: false };
    let program = parse("struct P { a: [int], b: bool } enum E { X, Y }");
    let mut writer = SpanWriter::new("> ".to_string());
    TextExpander("text").expand(&mut writer, 0, &opts, &template).unwrap();
    writer.write_char('|');
    TypeExpander(&program.structs[0].fields[0].datatype)
        .expand(&mut writer, 0, &opts, &template)
        .unwrap();
    writer.write_char('|');
    StructFieldsExpander::new(&program.structs[0].fields)
        .expand(&mut writer, 1, &opts, &template)
        .unwrap();
    writer.write_char('|');
    EnumVariantsExpander::new(&program.enums[0].variants)
        .expand(&mut writer, 0, &opts, &template)
        .unwrap();
    writer.write_char('|');
    ScopeEntry::Text(TextExpander("end")).expand(&mut writer, 0, &opts, &template).unwrap();
    assert_eq!(
        writer.into_inner(),
        "> text|array(int)|a: array(int),\n b: bool|X = 0,\nY = 1|end"
    );
}

#[test]
fn an_expander_that_fails_emits_nothing() {
    let template = compile_template("#field_visitor\n%name% %oops%\n#end/field_visitor").unwrap();
    let program = parse("struct P { a: int }");
    let mut writer = SpanWriter::new("kept".to_string());
    let result = StructFieldsExpander::new(&program.structs[0].fields).expand(
        &mut writer,
        0,
        &ExpandOptions::default(),
        &template,
    );
    assert_eq!(result, Err(TemplateError::UnboundVariable("oops".to_string())));
    assert_eq!(writer.into_inner(), "kept");
}

#[test]
fn a_text_with_a_final_line_feed_loses_it() {
    let span = compile_span("a\nb\n").unwrap();
    assert_eq!(render_text(&span, &Scope::new(), 0, &Template::default()).unwrap(), "a\nb");
}

#[test]
fn a_leading_tab_is_rendered_as_a_blank() {
    let span = compile_span("\tx").unwrap();
    assert_eq!(render_text(&span, &Scope::new(), 0, &Template::default()).unwrap(), " x");
}

#[test]
fn a_scope_takes_each_kind_of_expander() {
    let template = toy();
    let program = parse("struct P { a: [int] } enum E { X }");
    let span = compile_span("%t% %ty% {%fs%} {%vs%}").unwrap();
    let scope = Scope::new()
        .add_expander("t", TextExpander("text"))
        .add_expander("ty", TypeExpander(&program.structs[0].fields[0].datatype))
        .add_expander("fs", StructFieldsExpander::new(&program.structs[0].fields))
        .add_expander("vs", EnumVariantsExpander::new(&program.enums[0].variants));
    assert_eq!(
        render_text(&span, &scope, 0, &template).unwrap(),
        "text array(int) {a: array(int)} {X = 0}"
    );
}
