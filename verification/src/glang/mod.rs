//! The template engine: compiles a template document and renders a program
//! through it.

use vstd::prelude::*;
use crate::items::{
    enum_views, struct_views, EnumDefinitionView, Program, ProgramView, StructDefinitionView,
};

pub mod emit;
pub mod expander;
pub mod laws;
pub mod pattern;
pub mod scope;
pub mod template;

use emit::{render_span, rendered, text_result_view, BindingView, ExpanderView, SpanWriter};
use expander::msg_enum::EnumVariantsExpander;
use expander::msg_struct::StructFieldsExpander;
use scope::Scope;
use template::{
    compile_template, sections_of, template_of, Template, TemplateError, TemplateErrorView,
    TemplateView,
};

verus! {

/// The scope in which the body of an enum is rendered.
pub open spec fn enum_scope(e: EnumDefinitionView) -> Seq<BindingView> {
    seq![
        BindingView { name: "name"@, expander: ExpanderView::Text(e.name) },
        BindingView { name: "variants"@, expander: ExpanderView::Variants(e.variants) },
    ]
}

/// The scope in which the body of a struct is rendered.
pub open spec fn struct_scope(s: StructDefinitionView) -> Seq<BindingView> {
    seq![
        BindingView { name: "name"@, expander: ExpanderView::Text(s.name) },
        BindingView { name: "fields"@, expander: ExpanderView::Fields(s.fields) },
    ]
}

/// What the first `n` enums render to: before each an empty line.
pub open spec fn enums_text(enums: Seq<EnumDefinitionView>, n: nat, t: TemplateView) -> Result<
    Seq<char>,
    TemplateErrorView,
>
    decreases n,
{
    if n == 0 || n > enums.len() {
        Ok(Seq::empty())
    } else {
        match enums_text(enums, (n - 1) as nat, t) {
            Err(e) => Err(e),
            Ok(head) => match rendered(t.message_enum, enum_scope(enums[n - 1]), 0, t) {
                Err(e) => Err(e),
                Ok(text) => Ok(head + seq!['\n', '\n'] + text),
            },
        }
    }
}

/// What the first `n` structs render to: before each an empty line.
pub open spec fn structs_text(
    structs: Seq<StructDefinitionView>,
    n: nat,
    t: TemplateView,
) -> Result<Seq<char>, TemplateErrorView>
    decreases n,
{
    if n == 0 || n > structs.len() {
        Ok(Seq::empty())
    } else {
        match structs_text(structs, (n - 1) as nat, t) {
            Err(e) => Err(e),
            Ok(head) => match rendered(t.message_struct, struct_scope(structs[n - 1]), 0, t) {
                Err(e) => Err(e),
                Ok(text) => Ok(head + seq!['\n', '\n'] + text),
            },
        }
    }
}

/// What a program renders to through a template: the prelude, then the
/// enums, then the structs.
pub open spec fn program_text(program: ProgramView, t: TemplateView) -> Result<
    Seq<char>,
    TemplateErrorView,
> {
    match enums_text(program.enums, program.enums.len(), t) {
        Err(e) => Err(e),
        Ok(enums) => match structs_text(program.structs, program.structs.len(), t) {
            Err(e) => Err(e),
            Ok(structs) => Ok(t.prelude + enums + structs),
        },
    }
}

/// What a program renders to through a template document, where the engine
/// accepts the placeholder expression.
pub open spec fn template_output(source: Seq<char>, program: ProgramView) -> Result<
    Seq<char>,
    TemplateErrorView,
> {
    match template_of(source) {
        Err(e) => Err(e),
        Ok(t) => program_text(program, t),
    }
}

/// What rendering through a template document comes to where the engine
/// refuses the placeholder expression: the error in the sections of the
/// document if there is one, else the refusal.
pub open spec fn refused_output(source: Seq<char>) -> Result<Seq<char>, TemplateErrorView> {
    match sections_of(source) {
        Err(e) => Err(e),
        Ok(_) => Err(TemplateErrorView::BadPattern),
    }
}

/// Enums that have failed to render stay failed, with the same error.
pub proof fn lemma_enums_error_stays(
    enums: Seq<EnumDefinitionView>,
    n: nat,
    m: nat,
    t: TemplateView,
)
    requires
        n <= m <= enums.len(),
        enums_text(enums, n, t) is Err,
    ensures
        enums_text(enums, m, t) == enums_text(enums, n, t),
    decreases m,
{
    if n < m {
        lemma_enums_error_stays(enums, n, (m - 1) as nat, t);
    }
}

/// Structs that have failed to render stay failed, with the same error.
pub proof fn lemma_structs_error_stays(
    structs: Seq<StructDefinitionView>,
    n: nat,
    m: nat,
    t: TemplateView,
)
    requires
        n <= m <= structs.len(),
        structs_text(structs, n, t) is Err,
    ensures
        structs_text(structs, m, t) == structs_text(structs, n, t),
    decreases m,
{
    if n < m {
        lemma_structs_error_stays(structs, n, (m - 1) as nat, t);
    }
}

/// Renders a program through a compiled template: the prelude, then each
/// enum through the span for an enum, then each struct through the span for
/// a struct, with an empty line before each.
pub fn render_program(template: &Template, program: &Program) -> (r: Result<
    String,
    TemplateError,
>)
    ensures
        text_result_view(r) == program_text(program@, template@),
{
    let mut writer = SpanWriter::new(String::new());
    writer.write_str(template.prelude.as_str());
    let ghost enums = enum_views(program.enums@);
    let ghost structs = struct_views(program.structs@);
    assert(writer@ =~= template@.prelude + Seq::<char>::empty());
    let mut i: usize = 0;
    while i < program.enums.len()
        invariant
            i <= program.enums.len(),
            enums == enum_views(program.enums@),
            enums_text(enums, i as nat, template@) matches Ok(text) && writer@
                == template@.prelude + text,
        decreases program.enums.len() - i,
    {
        let enum_ = &program.enums[i];
        assert(enums[i as int] == enum_@);
        let ghost head = enums_text(enums, i as nat, template@)->Ok_0;
        let scope = Scope::new().add_text("name", enum_.name.as_str()).add_expander(
            "variants",
            EnumVariantsExpander::new(&enum_.variants),
        );
        assert(scope@ =~= enum_scope(enum_@));
        writer.write_char('\n');
        writer.write_char('\n');
        match render_span(&template.message_enum, &mut writer, scope, 0, template) {
            Ok(()) => {
                let ghost text = rendered(template@.message_enum, enum_scope(enum_@), 0, template@)->Ok_0;
                assert(writer@ =~= template@.prelude + (head + seq!['\n', '\n'] + text));
            },
            Err(e) => {
                proof {
                    lemma_enums_error_stays(enums, (i + 1) as nat, enums.len(), template@);
                }
                return Err(e);
            },
        }
        i += 1;
    }
    let ghost enums_part = enums_text(enums, enums.len(), template@)->Ok_0;
    let mut j: usize = 0;
    assert(writer@ =~= template@.prelude + enums_part + Seq::<char>::empty());
    while j < program.structs.len()
        invariant
            j <= program.structs.len(),
            structs == struct_views(program.structs@),
            enums == enum_views(program.enums@),
            enums_text(enums, enums.len(), template@) == Ok::<_, TemplateErrorView>(enums_part),
            structs_text(structs, j as nat, template@) matches Ok(text) && writer@
                == template@.prelude + enums_part + text,
        decreases program.structs.len() - j,
    {
        let struct_ = &program.structs[j];
        assert(structs[j as int] == struct_@);
        let ghost head = structs_text(structs, j as nat, template@)->Ok_0;
        let scope = Scope::new().add_text("name", struct_.name.as_str()).add_expander(
            "fields",
            StructFieldsExpander::new(&struct_.fields),
        );
        assert(scope@ =~= struct_scope(struct_@));
        writer.write_char('\n');
        writer.write_char('\n');
        match render_span(&template.message_struct, &mut writer, scope, 0, template) {
            Ok(()) => {
                let ghost text = rendered(
                    template@.message_struct,
                    struct_scope(struct_@),
                    0,
                    template@,
                )->Ok_0;
                assert(writer@ =~= template@.prelude + enums_part + (head + seq!['\n', '\n']
                    + text));
            },
            Err(e) => {
                proof {
                    lemma_structs_error_stays(structs, (j + 1) as nat, structs.len(), template@);
                }
                return Err(e);
            },
        }
        j += 1;
    }
    Ok(writer.into_inner())
}

/// Compiles a template document and renders a program through it. Whether
/// the engine accepts the placeholder expression is the engine's to say;
/// all else is settled by the document and the program.
pub fn render_template(source: &str, program: &Program) -> (r: Result<String, TemplateError>)
    ensures
        text_result_view(r) == template_output(source@, program@) || text_result_view(r)
            == refused_output(source@),
{
    let template = match compile_template(source) {
        Ok(template) => template,
        Err(e) => {
            return Err(e);
        },
    };
    render_program(&template, program)
}

} // verus!
