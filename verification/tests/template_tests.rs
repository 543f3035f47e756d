use forser::glang::pattern::Capture;
use forser::glang::template::{
    compile_span, compile_span_matching, compile_template, compile_template_sections,
    find_closing_brace, line_instructions, parse_replacer, section_named, split_at_char,
    ExpandOptions, Instruction, SectionKind, Template, TemplateError, TemplateSpan,
    PLACEHOLDER_PATTERN,
};
use forser::text::{
    count_leading_whitespace, count_trailing_whitespace, find_char, has_prefix, same_chars,
    same_text, to_chars, to_text, trim, trim_start,
};

fn lit(text: &str) -> Instruction {
    Instruction::Literal(text.to_string())
}

fn var(name: &str) -> Instruction {
    Instruction::Expand { var: name.to_string(), opts: ExpandOptions::default() }
}

fn var_with(name: &str, delimeter: &str, trailing: bool, inline: bool) -> Instruction {
    Instruction::Expand {
        var: name.to_string(),
        opts: ExpandOptions { delimeter: Some(delimeter.to_string()), trailing, inline },
    }
}

fn span(text: &str) -> Vec<Instruction> {
    compile_span(text).unwrap().instructions
}

fn chars(text: &str) -> Vec<char> {
    text.chars().collect()
}

#[test]
fn a_replacer_without_options_names_a_variable() {
    assert_eq!(parse_replacer("name"), ("name".to_string(), ExpandOptions::default()));
    assert_eq!(parse_replacer(""), (String::new(), ExpandOptions::default()));
}

#[test]
fn a_replacer_reads_its_delimiter_and_flags() {
    assert_eq!(
        parse_replacer("x/,"),
        (
            "x".to_string(),
            ExpandOptions { delimeter: Some(",".to_string()), trailing: false, inline: false }
        )
    );
    assert_eq!(
        parse_replacer("x/,/+"),
        (
            "x".to_string(),
            ExpandOptions { delimeter: Some(",".to_string()), trailing: true, inline: false }
        )
    );
    assert_eq!(
        parse_replacer("x/ |/+/i"),
        (
            "x".to_string(),
            ExpandOptions { delimeter: Some(" |".to_string()), trailing: true, inline: true }
        )
    );
    assert_eq!(
        parse_replacer("x//-/i"),
        (
            "x".to_string(),
            ExpandOptions { delimeter: Some(String::new()), trailing: false, inline: true }
        )
    );
    assert_eq!(
        parse_replacer("x/,/++/ii"),
        (
            "x".to_string(),
            ExpandOptions { delimeter: Some(",".to_string()), trailing: false, inline: false }
        )
    );
}

#[test]
fn splitting_keeps_empty_pieces() {
    let text = chars("a//b/");
    let parts: Vec<String> =
        split_at_char(&text, '/').iter().map(|p| p.iter().collect()).collect();
    assert_eq!(parts, vec!["a", "", "b", ""]);
    let parts = split_at_char(&[], '/');
    assert_eq!(parts.len(), 1);
    assert!(parts[0].is_empty());
}

#[test]
fn an_empty_span_has_no_instructions() {
    assert_eq!(TemplateSpan::empty().instructions, vec![]);
    assert_eq!(span(""), vec![]);
}

#[test]
fn a_plain_line_is_one_literal() {
    assert_eq!(span("hello world"), vec![lit("hello world")]);
}

#[test]
fn leading_whitespace_becomes_an_indent() {
    assert_eq!(span("    x"), vec![Instruction::Indent(4), lit("x")]);
    assert_eq!(span("\t x"), vec![Instruction::Indent(2), lit("x")]);
    assert_eq!(span("   "), vec![Instruction::Indent(3)]);
}

#[test]
fn lines_are_joined_by_newline_instructions() {
    assert_eq!(
        span("a\n  b\n\nc"),
        vec![
            lit("a"),
            Instruction::Newline,
            Instruction::Indent(2),
            lit("b"),
            Instruction::Newline,
            Instruction::Newline,
            lit("c"),
        ]
    );
}

#[test]
fn a_final_line_feed_adds_no_line() {
    assert_eq!(span("a\n"), vec![lit("a")]);
    assert_eq!(span("a\n\n"), vec![lit("a"), Instruction::Newline]);
}

#[test]
fn a_carriage_return_before_a_line_feed_is_dropped() {
    assert_eq!(span("a\r\nb"), vec![lit("a"), Instruction::Newline, lit("b")]);
}

#[test]
fn placeholders_split_a_line_at_their_borders() {
    assert_eq!(
        span("public %name%!: %ty%;"),
        vec![lit("public "), var("name"), lit("!: "), var("ty"), lit(";")]
    );
    assert_eq!(span("%a%%b%"), vec![var("a"), var("b")]);
    assert_eq!(span("  %a% "), vec![Instruction::Indent(2), var("a"), lit(" ")]);
}

#[test]
fn placeholders_carry_their_options() {
    assert_eq!(
        span("    %items/,%"),
        vec![Instruction::Indent(4), var_with("items", ",", false, false)]
    );
    assert_eq!(span("%x/,/+%"), vec![var_with("x", ",", true, false)]);
    assert_eq!(span("[%x/, /-/i%]"), vec![lit("["), var_with("x", ", ", false, true), lit("]")]);
}

#[test]
fn a_lone_percent_sign_is_literal() {
    assert_eq!(span("100% sure"), vec![lit("100% sure")]);
    assert_eq!(span("%%"), vec![lit("%%")]);
    assert_eq!(span("a %b% c% d"), vec![lit("a "), var("b"), lit(" c% d")]);
}

#[test]
fn text_outside_ascii_keeps_its_characters() {
    assert_eq!(span("é%ü%ñ"), vec![lit("é"), var("ü"), lit("ñ")]);
}

#[test]
fn compile_is_compile_span() {
    assert_eq!(TemplateSpan::compile("a %b%").unwrap(), compile_span("a %b%").unwrap());
}

#[test]
fn a_line_is_laid_out_from_its_captures() {
    let line = chars("  ab%x/,%cd");
    let captures = vec![Capture {
        before: "  ab".to_string(),
        group: Some("x/,".to_string()),
        after: "cd".to_string(),
    }];
    assert_eq!(
        line_instructions(&line, &captures),
        vec![Instruction::Indent(2), lit("ab"), var_with("x", ",", false, false), lit("cd")]
    );
}

#[test]
fn a_capture_without_a_group_names_the_empty_variable() {
    let line = chars("a%%b");
    let captures =
        vec![Capture { before: "a".to_string(), group: None, after: "b".to_string() }];
    assert_eq!(line_instructions(&line, &captures), vec![lit("a"), var(""), lit("b")]);
}

#[test]
fn a_line_without_captures_is_its_indent_and_a_literal() {
    assert_eq!(line_instructions(&chars(" a%b%"), &vec![]), vec![Instruction::Indent(1), lit("a%b%")]);
    assert_eq!(line_instructions(&chars(""), &vec![]), vec![]);
}

const TYPES: &str = "#types
string { string }
int { number }
float { number }
bool { boolean }
array { Array<%T%> }
map { Record<string, %T%> }
null { %T% | null }
struct { %T% }
#end/types
";

#[test]
fn a_template_without_sections_is_empty() {
    assert_eq!(compile_template("").unwrap(), Template::default());
    assert_eq!(compile_template("nothing to see\n// here\n").unwrap(), Template::default());
    assert_eq!(Template::empty(), Template::default());
}

#[test]
fn the_prelude_is_kept_as_text_without_its_margins() {
    let template = compile_template("#prelude\n\n  import %x%\n  more  \n\n#end/prelude\n").unwrap();
    assert_eq!(template.prelude, "import %x%\n  more");
}

#[test]
fn the_types_section_files_its_rules() {
    let template = compile_template(TYPES).unwrap();
    assert_eq!(template.field_string.instructions, vec![lit("string")]);
    assert_eq!(template.field_int.instructions, vec![lit("number")]);
    assert_eq!(template.field_float.instructions, vec![lit("number")]);
    assert_eq!(template.field_bool.instructions, vec![lit("boolean")]);
    assert_eq!(template.field_array.instructions, vec![lit("Array<"), var("T"), lit(">")]);
    assert_eq!(template.field_map.instructions, vec![lit("Record<string, "), var("T"), lit(">")]);
    assert_eq!(template.field_null.instructions, vec![var("T"), lit(" | null")]);
    assert_eq!(template.field_struct.instructions, vec![var("T")]);
    assert!(template.field_body.instructions.is_empty());
}

#[test]
fn a_rule_may_hold_braces_in_pairs_and_lines() {
    let template =
        compile_template("#types\narray {{ kind: Array,\n    of: %T% }}\nother { x }\n#end/types")
            .unwrap();
    assert_eq!(
        template.field_array.instructions,
        vec![
            lit("{ kind: Array,"),
            Instruction::Newline,
            Instruction::Indent(4),
            lit("of: "),
            var("T"),
            lit(" }"),
        ]
    );
}

#[test]
fn the_other_sections_compile_to_spans() {
    let source = "#field_visitor\n  %name%: %ty%;  \n#end/field_visitor\n\
                  // between sections\n\
                  #message_struct\nclass %name% {\n    %fields%\n}\n#end/message_struct\n\
                  #enum_variant_visitor\n%name% = %val%\n#end/enum_variant_visitor\n\
                  #message_enum\nenum %name% {\n    %variants/,/+%\n}\n#end/message_enum\n";
    let template = compile_template(source).unwrap();
    assert_eq!(template.field_body.instructions, vec![var("name"), lit(": "), var("ty"), lit(";")]);
    assert_eq!(
        template.message_struct.instructions,
        vec![
            lit("class "),
            var("name"),
            lit(" {"),
            Instruction::Newline,
            Instruction::Indent(4),
            var("fields"),
            Instruction::Newline,
            lit("}"),
        ]
    );
    assert_eq!(template.enum_variant.instructions, vec![var("name"), lit(" = "), var("val")]);
    assert_eq!(
        template.message_enum.instructions,
        vec![
            lit("enum "),
            var("name"),
            lit(" {"),
            Instruction::Newline,
            Instruction::Indent(4),
            var_with("variants", ",", true, false),
            Instruction::Newline,
            lit("}"),
        ]
    );
}

#[test]
fn markers_may_be_indented_and_end_markers_need_no_name() {
    let template = compile_template("  #prelude  \r\nx\r\n\t#end/whatever\n").unwrap();
    assert_eq!(template.prelude, "x");
}

#[test]
fn a_section_that_is_never_closed_is_refused() {
    assert_eq!(compile_template("#prelude\nP\n"), Err(TemplateError::UnclosedSection));
    assert_eq!(compile_template("#types"), Err(TemplateError::UnclosedSection));
    assert_eq!(
        compile_template("#prelude\nx\n#end/prelude\n#message_enum\n%name%"),
        Err(TemplateError::UnclosedSection)
    );
    assert_eq!(
        compile_template_sections(&chars("#prelude\nx\n")),
        Err(TemplateError::UnclosedSection)
    );
}

#[test]
fn a_section_opened_twice_keeps_its_later_body() {
    let template =
        compile_template("#prelude\na\n#end/prelude\n#prelude\nb\n#end/prelude").unwrap();
    assert_eq!(template.prelude, "b");
}

#[test]
fn an_unknown_section_is_refused_by_name() {
    assert_eq!(
        compile_template("#type_visitor\n#end/type_visitor\n"),
        Err(TemplateError::UnknownSection("type_visitor".to_string()))
    );
    assert_eq!(
        compile_template("# prelude\n"),
        Err(TemplateError::UnknownSection(" prelude".to_string()))
    );
}

#[test]
fn a_section_inside_a_section_is_refused() {
    assert_eq!(
        compile_template("#prelude\n#types\n#end/types\n#end/prelude\n"),
        Err(TemplateError::AlreadyInSection)
    );
    assert_eq!(
        compile_template("#prelude\n#nonsense\n"),
        Err(TemplateError::AlreadyInSection)
    );
}

#[test]
fn an_end_without_a_section_is_refused() {
    assert_eq!(compile_template("#end/prelude\n"), Err(TemplateError::NotInSection));
    assert_eq!(
        compile_template("#prelude\n#end/prelude\n#end/prelude"),
        Err(TemplateError::NotInSection)
    );
}

#[test]
fn an_entry_without_a_body_is_malformed() {
    assert_eq!(
        compile_template("#types\nstring\n#end/types\n"),
        Err(TemplateError::MalformedEntry)
    );
    assert_eq!(
        compile_template("#types\nstring x { y }\n#end/types\n"),
        Err(TemplateError::MalformedEntry)
    );
    assert_eq!(
        compile_template("#types\nstring{ y }\n#end/types\n"),
        Err(TemplateError::MalformedEntry)
    );
}

#[test]
fn a_body_that_is_never_closed_is_unbalanced() {
    assert_eq!(
        compile_template("#types\nstring { {x }\n#end/types\n"),
        Err(TemplateError::UnbalancedBraces)
    );
    assert_eq!(
        compile_template("#types\nstring {\n#end/types\n"),
        Err(TemplateError::UnbalancedBraces)
    );
}

#[test]
fn an_error_in_the_sections_comes_before_one_in_the_types() {
    assert_eq!(
        compile_template("#types\nstring\n#end/types\n#oops\n"),
        Err(TemplateError::UnknownSection("oops".to_string()))
    );
}

#[test]
fn a_pattern_that_the_engine_refuses_is_a_bad_pattern() {
    assert_eq!(compile_span_matching("%(", "a %b%"), Err(TemplateError::BadPattern));
    assert_eq!(compile_span_matching("[", ""), Err(TemplateError::BadPattern));
}

#[test]
fn the_placeholder_expression_is_accepted() {
    assert_eq!(
        compile_span_matching(PLACEHOLDER_PATTERN, "a %b%").unwrap(),
        compile_span("a %b%").unwrap()
    );
}

#[test]
fn another_pattern_finds_other_placeholders() {
    assert_eq!(
        compile_span_matching("<([a-z]+)>", "a <b> %c%").unwrap().instructions,
        vec![lit("a "), var("b"), lit(" %c%")]
    );
    assert_eq!(
        compile_span_matching("<[a-z]+>", "a <b>").unwrap().instructions,
        vec![lit("a "), var("")]
    );
}

#[test]
fn captures_that_do_not_fit_the_line_cut_no_literal() {
    let line = chars("ab");
    let captures = vec![Capture {
        before: "abcdef".to_string(),
        group: Some("x".to_string()),
        after: "0123456789".to_string(),
    }];
    assert_eq!(line_instructions(&line, &captures), vec![var("x"), lit("ab")]);
}

#[test]
fn sections_are_cut_between_their_marker_lines() {
    let source = chars("junk\n#prelude\nline one\nline two\n#end/prelude\n#types\n#end/types");
    let sections = compile_template_sections(&source).unwrap();
    assert_eq!(to_text(sections.prelude), "line one\nline two\n");
    assert_eq!(to_text(sections.types), "");
    assert_eq!(to_text(sections.message_enum), "");
}

#[test]
fn section_names_are_the_six() {
    assert_eq!(section_named(&chars("prelude")), Some(SectionKind::Prelude));
    assert_eq!(section_named(&chars("types")), Some(SectionKind::Types));
    assert_eq!(section_named(&chars("field_visitor")), Some(SectionKind::FieldVisitor));
    assert_eq!(section_named(&chars("message_struct")), Some(SectionKind::MessageStruct));
    assert_eq!(
        section_named(&chars("enum_variant_visitor")),
        Some(SectionKind::EnumVariantVisitor)
    );
    assert_eq!(section_named(&chars("message_enum")), Some(SectionKind::MessageEnum));
    assert_eq!(section_named(&chars("Prelude")), None);
    assert_eq!(section_named(&chars("")), None);
}

#[test]
fn the_closing_brace_is_the_one_that_balances() {
    assert_eq!(find_closing_brace(&chars("a }")), Some(2));
    assert_eq!(find_closing_brace(&chars("{}{{}}} }")), Some(6));
    assert_eq!(find_closing_brace(&chars("}")), Some(0));
    assert_eq!(find_closing_brace(&chars("{}")), None);
    assert_eq!(find_closing_brace(&chars("")), None);
}

#[test]
fn text_helpers_work_on_characters() {
    assert_eq!(to_chars("aé"), vec!['a', 'é']);
    assert_eq!(to_text(&['a', 'é']), "aé");
    assert!(same_text("abc", "abc"));
    assert!(!same_text("abc", "abd"));
    assert!(!same_text("abc", "ab"));
    assert!(same_chars(&[], &[]));
    assert!(!same_chars(&['a'], &['b']));
    assert_eq!(find_char(&chars("a/b/c"), '/'), 1);
    assert_eq!(find_char(&chars("abc"), '/'), 3);
    assert!(has_prefix(&chars("end/x"), "end/"));
    assert!(!has_prefix(&chars("end"), "end/"));
    assert!(has_prefix(&chars("x"), ""));
}

#[test]
fn trimming_takes_whitespace_from_the_ends() {
    let text = chars(" \t a b \n\u{a0}");
    assert_eq!(count_leading_whitespace(&text), 3);
    assert_eq!(count_trailing_whitespace(&text), 3);
    assert_eq!(to_text(trim(&text)), "a b");
    assert_eq!(to_text(trim_start(&text)), "a b \n\u{a0}");
    assert_eq!(to_text(trim(&chars("   "))), "");
    assert_eq!(to_text(trim(&chars(""))), "");
}

#[test]
fn an_indent_counts_as_far_as_sixteen_bits() {
    let line = format!("{}x", " ".repeat(65537));
    assert_eq!(
        span(&line),
        vec![Instruction::Indent(1), lit(&format!("{}x", " ".repeat(65536)))]
    );
    let line = format!("{}x", " ".repeat(65536));
    assert_eq!(span(&line), vec![lit(&line)]);
    let line = format!("{}x", " ".repeat(65535));
    assert_eq!(span(&line), vec![Instruction::Indent(65535), lit("x")]);
}
