//! The compiled form of a template document, and the compiler that makes
//! it.

use vstd::prelude::*;
use vstd::string::StrSliceExecFns;
use crate::glang::laws::{lemma_line_is_given_back, source_text};
use crate::glang::pattern::{
    capture_views, captures_in, captures_lie_in, compile_pattern, find_captures, source_of,
    Capture, CaptureView,
};
use crate::text::{
    count_leading_whitespace, find_char, has_prefix, index_of, leading_whitespace,
    lemma_leading_whitespace_bound, lemma_trailing_whitespace_bound, same_chars, starts_with,
    to_chars, to_text, trim, trim_start, trimmed, trimmed_start,
};

verus! {

/// How a placeholder that stands for several items joins them.
#[derive(Debug, Clone, PartialEq, Eq, Default)]
pub struct ExpandOptions {
    /// The delimeter between items emitted from this (multi) variable
    pub delimeter: Option<String>,
    /// Should the delimeter be emitted after the last item ?
    pub trailing: bool,
    /// Should all the items be emitted on a single line ?
    pub inline: bool,
}

/// The mathematical value of [`ExpandOptions`].
pub struct ExpandOptionsView {
    pub delimeter: Option<Seq<char>>,
    pub trailing: bool,
    pub inline: bool,
}

impl View for ExpandOptions {
    type V = ExpandOptionsView;

    open spec fn view(&self) -> ExpandOptionsView {
        ExpandOptionsView {
            delimeter: match self.delimeter {
                Some(d) => Some(d@),
                None => None,
            },
            trailing: self.trailing,
            inline: self.inline,
        }
    }
}

/// The options of a placeholder that names none.
pub open spec fn default_options() -> ExpandOptionsView {
    ExpandOptionsView { delimeter: None, trailing: false, inline: false }
}

/// One step of replaying a template.
#[derive(Debug, Clone, PartialEq, Eq)]
pub enum Instruction {
    /// Start a new line.
    Newline,
    /// Emit that many blanks, and take them as the indent of the line.
    Indent(u16),
    /// Emit a text as it stands.
    Literal(String),
    /// Emit what a variable of the scope expands to.
    Expand { var: String, opts: ExpandOptions },
}

/// The mathematical value of an [`Instruction`].
pub enum InstructionView {
    Newline,
    Indent(u16),
    Literal(Seq<char>),
    Expand { var: Seq<char>, opts: ExpandOptionsView },
}

impl View for Instruction {
    type V = InstructionView;

    open spec fn view(&self) -> InstructionView {
        match self {
            Instruction::Newline => InstructionView::Newline,
            Instruction::Indent(n) => InstructionView::Indent(*n),
            Instruction::Literal(s) => InstructionView::Literal(s@),
            Instruction::Expand { var, opts } => InstructionView::Expand { var: var@, opts: opts@ },
        }
    }
}

/// The values of a sequence of instructions.
pub open spec fn instruction_views(instructions: Seq<Instruction>) -> Seq<InstructionView> {
    instructions.map_values(|i: Instruction| i@)
}

/// The compiled body of one section of a template: instructions to replay
/// in order.
#[derive(Debug, Clone, PartialEq, Eq, Default)]
pub struct TemplateSpan {
    pub instructions: Vec<Instruction>,
}

impl View for TemplateSpan {
    type V = Seq<InstructionView>;

    open spec fn view(&self) -> Seq<InstructionView> {
        instruction_views(self.instructions@)
    }
}

/// What can be wrong with a template, or with a scope that a template is
/// rendered in.
#[derive(Debug, Clone, PartialEq, Eq)]
pub enum TemplateError {
    /// The expression that finds placeholders was refused by the engine.
    BadPattern,
    /// A section is opened under a name that the compiler does not know.
    UnknownSection(String),
    /// A section is opened inside another.
    AlreadyInSection,
    /// A section is closed where none is open.
    NotInSection,
    /// A section is opened and the document ends before it is closed.
    UnclosedSection,
    /// An entry of the types section lacks its name or its opening brace.
    MalformedEntry,
    /// An entry of the types section has a brace that is never closed.
    UnbalancedBraces,
    /// A template names a variable that the scope does not bind.
    UnboundVariable(String),
    /// An expansion stands further right than an indent can count.
    IndentOverflow,
}

/// The mathematical value of a [`TemplateError`].
pub enum TemplateErrorView {
    BadPattern,
    UnknownSection(Seq<char>),
    AlreadyInSection,
    NotInSection,
    UnclosedSection,
    MalformedEntry,
    UnbalancedBraces,
    UnboundVariable(Seq<char>),
    IndentOverflow,
}

impl View for TemplateError {
    type V = TemplateErrorView;

    open spec fn view(&self) -> TemplateErrorView {
        match self {
            TemplateError::BadPattern => TemplateErrorView::BadPattern,
            TemplateError::UnknownSection(s) => TemplateErrorView::UnknownSection(s@),
            TemplateError::AlreadyInSection => TemplateErrorView::AlreadyInSection,
            TemplateError::NotInSection => TemplateErrorView::NotInSection,
            TemplateError::UnclosedSection => TemplateErrorView::UnclosedSection,
            TemplateError::MalformedEntry => TemplateErrorView::MalformedEntry,
            TemplateError::UnbalancedBraces => TemplateErrorView::UnbalancedBraces,
            TemplateError::UnboundVariable(s) => TemplateErrorView::UnboundVariable(s@),
            TemplateError::IndentOverflow => TemplateErrorView::IndentOverflow,
        }
    }
}

/// The expression that finds the placeholders of a line: a `%`, one or more
/// characters other than `%`, and a `%`.
pub const PLACEHOLDER_PATTERN: &'static str = "%([^%]+)%";

/// The pieces of `s` between the occurrences of `sep`.
pub open spec fn split(s: Seq<char>, sep: char) -> Seq<Seq<char>>
    decreases s.len(),
{
    let n = index_of(s, sep);
    if n < s.len() {
        seq![s.take(n as int)] + split(s.skip(n as int + 1), sep)
    } else {
        seq![s]
    }
}

/// The variable and the options that the inside of a placeholder names:
/// `var`, `var/delimeter`, `var/delimeter/+` or `var/delimeter/+/i`.
pub open spec fn replacer(source: Seq<char>) -> (Seq<char>, ExpandOptionsView) {
    let parts = split(source, '/');
    (
        parts[0],
        if parts.len() > 1 {
            ExpandOptionsView {
                delimeter: Some(parts[1]),
                trailing: parts.len() > 2 && parts[2] == "+"@,
                inline: parts.len() > 3 && parts[3] == "i"@,
            }
        } else {
            default_options()
        },
    )
}

/// Splits `s` at every `sep`.
pub fn split_at_char<'a>(s: &'a [char], sep: char) -> (parts: Vec<&'a [char]>)
    ensures
        parts@.map_values(|p: &[char]| p@) == split(s@, sep),
        parts.len() >= 1,
{
    let mut parts: Vec<&[char]> = Vec::new();
    let mut rest: &[char] = s;
    loop
        invariant_except_break
            parts@.map_values(|p: &[char]| p@) + split(rest@, sep) == split(s@, sep),
        ensures
            parts@.map_values(|p: &[char]| p@) == split(s@, sep),
            parts.len() >= 1,
        decreases rest.len(),
    {
        let n = find_char(rest, sep);
        let ghost before = parts@.map_values(|p: &[char]| p@);
        if n < rest.len() {
            let piece = &rest[0..n];
            let ghost old_rest = rest@;
            parts.push(piece);
            rest = &rest[n + 1..rest.len()];
            assert(piece@ == old_rest.take(n as int));
            assert(rest@ == old_rest.skip(n + 1));
            assert(parts@.map_values(|p: &[char]| p@) + split(rest@, sep) =~= before + split(
                old_rest,
                sep,
            ));
        } else {
            parts.push(rest);
            assert(parts@.map_values(|p: &[char]| p@) =~= before + split(rest@, sep));
            break ;
        }
    }
    parts
}

/// Reads the inside of a placeholder: the variable it names and how the
/// items of that variable are joined.
pub fn parse_replacer(source: &str) -> (r: (String, ExpandOptions))
    ensures
        (r.0@, r.1@) == replacer(source@),
{
    let chars = to_chars(source);
    let parts = split_at_char(chars.as_slice(), '/');
    let ghost views = parts@.map_values(|p: &[char]| p@);
    assert(views[0] == parts@[0]@);
    let var = to_text(parts[0]);
    let mut delimeter: Option<String> = None;
    let mut trailing = false;
    let mut inline = false;
    proof {
        reveal_strlit("+");
        reveal_strlit("i");
    }
    if parts.len() > 1 {
        assert(views[1] == parts@[1]@);
        delimeter = Some(to_text(parts[1]));
        if parts.len() > 2 {
            assert(views[2] == parts@[2]@);
            trailing = parts[2].len() == 1 && parts[2][0] == '+';
            assert(trailing == (parts@[2]@ =~= "+"@));
        }
        if parts.len() > 3 {
            assert(views[3] == parts@[3]@);
            inline = parts[3].len() == 1 && parts[3][0] == 'i';
            assert(inline == (parts@[3]@ =~= "i"@));
        }
    }
    (var, ExpandOptions { delimeter, trailing, inline })
}

/// The width of the indent of a line: the number of whitespace characters
/// it starts with, as far as sixteen bits count.
pub open spec fn indent_width(line: Seq<char>) -> u16 {
    (leading_whitespace(line) % 0x1_0000) as u16
}

/// The placeholder that a capture stands for.
pub open spec fn placeholder_of(c: CaptureView) -> InstructionView {
    let inner = match c.group {
        Some(g) => g,
        None => Seq::empty(),
    };
    InstructionView::Expand { var: replacer(inner).0, opts: replacer(inner).1 }
}

/// The offset at which a capture ends in a line: the line without what
/// stands behind the capture.
pub open spec fn capture_end(line: Seq<char>, c: CaptureView) -> int {
    if c.after.len() <= line.len() {
        line.len() - c.after.len()
    } else {
        0
    }
}

/// The instructions for the part of a line from `last_end` on: a literal
/// for the text before each placeholder if there is any, the placeholder,
/// and a literal for what is left behind the last.
pub open spec fn pieces(line: Seq<char>, captures: Seq<CaptureView>, last_end: int) -> Seq<
    InstructionView,
>
    decreases captures.len(),
{
    if captures.len() == 0 {
        if 0 <= last_end < line.len() {
            seq![InstructionView::Literal(line.skip(last_end))]
        } else {
            Seq::empty()
        }
    } else {
        let c = captures[0];
        let start = c.before.len() as int;
        let head = if 0 <= last_end < start <= line.len() {
            seq![InstructionView::Literal(line.subrange(last_end, start))]
        } else {
            Seq::empty()
        };
        head + seq![placeholder_of(c)] + pieces(line, captures.drop_first(), capture_end(line, c))
    }
}

/// The instructions for one line whose placeholders are given: its indent
/// if it has one, then literals and placeholders in turn.
pub open spec fn line_span(line: Seq<char>, captures: Seq<CaptureView>) -> Seq<InstructionView> {
    if indent_width(line) > 0 {
        seq![InstructionView::Indent(indent_width(line))] + pieces(
            line,
            captures,
            indent_width(line) as int,
        )
    } else {
        pieces(line, captures, 0)
    }
}

/// Compiles one line whose placeholders have been found. Where the
/// captures lie in the line as successive matches do, none of them inside
/// the indent, the line is cut without loss: the indent, the literals and
/// the placeholders stand for the whole line, character by character.
pub fn line_instructions(line: &[char], captures: &Vec<Capture>) -> (instructions: Vec<
    Instruction,
>)
    ensures
        instruction_views(instructions@) == line_span(line@, capture_views(captures@)),
        captures_lie_in(line@, capture_views(captures@)) && (captures.len() > 0 ==> indent_width(
            line@,
        ) <= captures[0].before@.len()) ==> line@.take(indent_width(line@) as int) + source_text(
            instruction_views(instructions@),
            line@,
            capture_views(captures@),
        ) == line@,
{
    let mut instructions: Vec<Instruction> = Vec::new();
    let ghost found = capture_views(captures@);
    proof {
        if captures_lie_in(line@, found) && (captures.len() > 0 ==> indent_width(line@)
            <= captures[0].before@.len()) {
            if captures.len() > 0 {
                assert(found[0] == captures[0]@);
            }
            lemma_line_is_given_back(line@, found);
        }
    }
    let count = count_leading_whitespace(line);
    let width: u16 = (count % 0x1_0000) as u16;
    let mut last_end: usize = 0;
    if width > 0 {
        instructions.push(Instruction::Indent(width));
        // start the first section after the indent
        last_end = width as usize;
    }
    let ghost head = instruction_views(instructions@);
    let ghost first_end = last_end as int;
    assert(head =~= if indent_width(line@) > 0 {
        seq![InstructionView::Indent(indent_width(line@))]
    } else {
        Seq::empty()
    });
    let mut i: usize = 0;
    assert(found.skip(0) =~= found);
    while i < captures.len()
        invariant
            i <= captures.len(),
            last_end <= line.len(),
            found == capture_views(captures@),
            instruction_views(instructions@) + pieces(line@, found.skip(i as int), last_end as int)
                == head + pieces(line@, found, first_end),
        decreases captures.len() - i,
    {
        let capture = &captures[i];
        let ghost before = instruction_views(instructions@);
        let ghost c = found[i as int];
        assert(c == capture@);
        assert(found.skip(i as int)[0] == c);
        assert(found.skip(i as int).drop_first() =~= found.skip(i + 1));
        let start = capture.before.as_str().unicode_len();
        let behind = capture.after.as_str().unicode_len();
        let end = if behind <= line.len() {
            line.len() - behind
        } else {
            0
        };
        let literal = start > last_end && start <= line.len();
        if literal {
            instructions.push(Instruction::Literal(to_text(&line[last_end..start])));
        }
        let (var, opts) = match &capture.group {
            Some(g) => parse_replacer(g.as_str()),
            None => parse_replacer(""),
        };
        proof {
            reveal_strlit("");
            assert(""@ =~= Seq::<char>::empty());
        }
        instructions.push(Instruction::Expand { var, opts });
        assert(instruction_views(instructions@) =~= before + (if literal {
            seq![InstructionView::Literal(line@.subrange(last_end as int, start as int))]
        } else {
            Seq::empty()
        }) + seq![placeholder_of(c)]);
        last_end = end;
        i += 1;
    }
    let ghost before = instruction_views(instructions@);
    if last_end < line.len() {
        instructions.push(Instruction::Literal(to_text(&line[last_end..line.len()])));
        assert(line@.subrange(last_end as int, line.len() as int) =~= line@.skip(last_end as int));
    }
    assert(instruction_views(instructions@) =~= before + pieces(
        line@,
        found.skip(i as int),
        last_end as int,
    ));
    instructions
}

/// A line without the carriage return that ended it, if one did.
pub open spec fn without_return(line: Seq<char>) -> Seq<char> {
    if line.len() > 0 && line.last() == '\r' {
        line.drop_last()
    } else {
        line
    }
}

/// The lines of a text. A line ends at a line feed, or at a carriage return
/// and a line feed, which are not part of it; the last line may end with
/// the text.
pub open spec fn lines_of(s: Seq<char>) -> Seq<Seq<char>>
    decreases s.len(),
{
    if s.len() == 0 {
        Seq::empty()
    } else {
        let n = index_of(s, '\n');
        if n < s.len() {
            seq![without_return(s.take(n as int))] + lines_of(s.skip(n as int + 1))
        } else {
            seq![s]
        }
    }
}

/// The instructions for a sequence of lines, where the placeholders of a
/// line are those that `pattern` finds in it: the instructions of each
/// line, and a `Newline` between two lines.
pub open spec fn span_of_lines(pattern: Seq<char>, lines: Seq<Seq<char>>) -> Seq<
    InstructionView,
>
    decreases lines.len(),
{
    if lines.len() == 0 {
        Seq::empty()
    } else {
        let head = span_of_lines(pattern, lines.drop_last());
        let line = lines.last();
        (if lines.len() > 1 {
            head.push(InstructionView::Newline)
        } else {
            head
        }) + line_span(line, captures_in(pattern, line))
    }
}

/// The compiled form of the body of a section, where the placeholders of a
/// line are those that `pattern` finds in it.
pub open spec fn span_with(pattern: Seq<char>, content: Seq<char>) -> Seq<InstructionView> {
    span_of_lines(pattern, lines_of(content))
}

/// The compiled form of the body of a section.
pub open spec fn span_of(content: Seq<char>) -> Seq<InstructionView> {
    span_with(PLACEHOLDER_PATTERN@, content)
}

/// Compiles one line: finds its placeholders and lays out its instructions.
fn compile_line(re: &regex::Regex, line: &[char]) -> (instructions: Vec<Instruction>)
    requires
        source_of(*re) is Some,
    ensures
        instruction_views(instructions@) == line_span(
            line@,
            captures_in(source_of(*re)->Some_0, line@),
        ),
{
    let text = to_text(line);
    let captures = find_captures(re, text.as_str());
    line_instructions(line, &captures)
}

/// Compiles the body of a section with a placeholder expression that has
/// been compiled already.
pub(crate) fn compile_span_with(re: &regex::Regex, content: &[char]) -> (span: TemplateSpan)
    requires
        source_of(*re) is Some,
    ensures
        span@ == span_with(source_of(*re)->Some_0, content@),
{
    let ghost pattern = source_of(*re)->Some_0;
    let mut instructions: Vec<Instruction> = Vec::new();
    let mut rest: &[char] = content;
    let mut is_tail = false;
    let ghost mut done: Seq<Seq<char>> = Seq::empty();
    assert(instruction_views(instructions@) =~= Seq::empty());
    while rest.len() > 0
        invariant
            source_of(*re) == Some(pattern),
            done + lines_of(rest@) == lines_of(content@),
            instruction_views(instructions@) == span_of_lines(pattern, done),
            is_tail == (done.len() > 0),
        decreases rest.len(),
    {
        let ghost before = instruction_views(instructions@);
        let ghost old_rest = rest@;
        if is_tail {
            instructions.push(Instruction::Newline);
        } else {
            is_tail = true;
        }
        let n = find_char(rest, '\n');
        let line: &[char] = if n < rest.len() {
            if n > 0 && rest[n - 1] == '\r' {
                &rest[0..n - 1]
            } else {
                &rest[0..n]
            }
        } else {
            rest
        };
        rest = if n < rest.len() {
            &rest[n + 1..rest.len()]
        } else {
            &rest[0..0]
        };
        proof {
            if n < old_rest.len() {
                assert(old_rest.take(n as int).len() == n);
                if n > 0 {
                    assert(old_rest.take(n as int).last() == old_rest[n - 1]);
                    assert(old_rest.take(n as int).drop_last() =~= old_rest.subrange(0, n - 1));
                }
                assert(line@ =~= without_return(old_rest.take(n as int)));
                assert(rest@ =~= old_rest.skip(n + 1));
            } else {
                assert(lines_of(rest@) =~= Seq::empty());
            }
            assert(lines_of(old_rest) =~= seq![line@] + lines_of(rest@));
            assert(done.push(line@) + lines_of(rest@) =~= done + lines_of(old_rest));
            assert(done.push(line@).drop_last() =~= done);
        }
        let mut piece = compile_line(re, line);
        let ghost middle = instruction_views(instructions@);
        let ghost tail = instruction_views(piece@);
        instructions.append(&mut piece);
        proof {
            assert(instruction_views(instructions@) =~= middle + tail);
            assert(middle =~= if done.len() > 0 {
                before.push(InstructionView::Newline)
            } else {
                before
            });
            done = done.push(line@);
        }
    }
    assert(done =~= lines_of(content@)) by {
        assert(lines_of(rest@) =~= Seq::empty());
    }
    TemplateSpan { instructions }
}

/// Compiles the body of a section, taking as placeholders what `pattern`
/// finds in each line. It fails only where the engine refuses the pattern,
/// which is the engine's to say.
pub fn compile_span_matching(pattern: &str, content: &str) -> (r: Result<
    TemplateSpan,
    TemplateError,
>)
    ensures
        match r {
            Ok(span) => span@ == span_with(pattern@, content@),
            Err(e) => e@ == TemplateErrorView::BadPattern,
        },
{
    match compile_pattern(pattern) {
        Ok(re) => {
            let chars = to_chars(content);
            Ok(compile_span_with(&re, chars.as_slice()))
        },
        Err(_) => Err(TemplateError::BadPattern),
    }
}

/// Compiles the body of a section: per line an indent, and literals and
/// placeholders in turn, with a `Newline` between two lines. It fails only
/// where the engine refuses the placeholder expression.
pub fn compile_span(content: &str) -> (r: Result<TemplateSpan, TemplateError>)
    ensures
        match r {
            Ok(span) => span@ == span_of(content@),
            Err(e) => e@ == TemplateErrorView::BadPattern,
        },
{
    compile_span_matching(PLACEHOLDER_PATTERN, content)
}

impl TemplateSpan {
    /// A span without instructions.
    pub fn empty() -> (span: Self)
        ensures
            span@ == Seq::<InstructionView>::empty(),
    {
        let span = Self { instructions: Vec::new() };
        assert(span@ =~= Seq::empty());
        span
    }

    /// Compiles the body of a section, as [`compile_span`] does.
    pub fn compile(content: &str) -> (r: Result<TemplateSpan, TemplateError>)
        ensures
            match r {
                Ok(span) => span@ == span_of(content@),
                Err(e) => e@ == TemplateErrorView::BadPattern,
            },
    {
        compile_span(content)
    }
}

/* ==================================== */

/// The sections that a template document may hold.
#[derive(Debug, Clone, Copy, PartialEq, Eq, Structural)]
pub enum SectionKind {
    Prelude,
    Types,
    FieldVisitor,
    MessageStruct,
    EnumVariantVisitor,
    MessageEnum,
}

/// The raw bodies of the sections of a template document.
#[derive(Debug, Clone, Copy, PartialEq, Eq)]
pub struct TemplateSections<'a> {
    pub prelude: &'a [char],
    pub types: &'a [char],
    // structs
    pub field_visitor: &'a [char],
    pub message_struct: &'a [char],
    // enums
    pub enum_variant_visitor: &'a [char],
    pub message_enum: &'a [char],
}

/// The mathematical value of [`TemplateSections`].
pub struct TemplateSectionsView {
    pub prelude: Seq<char>,
    pub types: Seq<char>,
    pub field_visitor: Seq<char>,
    pub message_struct: Seq<char>,
    pub enum_variant_visitor: Seq<char>,
    pub message_enum: Seq<char>,
}

impl<'a> View for TemplateSections<'a> {
    type V = TemplateSectionsView;

    open spec fn view(&self) -> TemplateSectionsView {
        TemplateSectionsView {
            prelude: self.prelude@,
            types: self.types@,
            field_visitor: self.field_visitor@,
            message_struct: self.message_struct@,
            enum_variant_visitor: self.enum_variant_visitor@,
            message_enum: self.message_enum@,
        }
    }
}

/// Sections that are all empty.
pub open spec fn no_sections() -> TemplateSectionsView {
    TemplateSectionsView {
        prelude: Seq::empty(),
        types: Seq::empty(),
        field_visitor: Seq::empty(),
        message_struct: Seq::empty(),
        enum_variant_visitor: Seq::empty(),
        message_enum: Seq::empty(),
    }
}

/// The section that a name opens, if it is the name of one.
pub open spec fn section_kind(name: Seq<char>) -> Option<SectionKind> {
    if name == "prelude"@ {
        Some(SectionKind::Prelude)
    } else if name == "types"@ {
        Some(SectionKind::Types)
    } else if name == "field_visitor"@ {
        Some(SectionKind::FieldVisitor)
    } else if name == "message_struct"@ {
        Some(SectionKind::MessageStruct)
    } else if name == "enum_variant_visitor"@ {
        Some(SectionKind::EnumVariantVisitor)
    } else if name == "message_enum"@ {
        Some(SectionKind::MessageEnum)
    } else {
        None
    }
}

/// The sections with `body` as the body of the section `kind`.
pub open spec fn put_section(
    sections: TemplateSectionsView,
    kind: SectionKind,
    body: Seq<char>,
) -> TemplateSectionsView {
    match kind {
        SectionKind::Prelude => TemplateSectionsView { prelude: body, ..sections },
        SectionKind::Types => TemplateSectionsView { types: body, ..sections },
        SectionKind::FieldVisitor => TemplateSectionsView { field_visitor: body, ..sections },
        SectionKind::MessageStruct => TemplateSectionsView { message_struct: body, ..sections },
        SectionKind::EnumVariantVisitor => TemplateSectionsView {
            enum_variant_visitor: body,
            ..sections
        },
        SectionKind::MessageEnum => TemplateSectionsView { message_enum: body, ..sections },
    }
}

/// Reads the lines of `source` from offset `pos` on. A line that starts
/// with `#`, blanks aside, is a marker: `#end/...` closes the open section,
/// whose body is the text between the two marker lines; any other marker
/// opens the section that it names. `open` is the open section and the
/// offset at which its body starts. A section that is still open where the
/// text ends is an error.
pub open spec fn scan_sections(
    source: Seq<char>,
    pos: int,
    open: Option<(SectionKind, int)>,
    sections: TemplateSectionsView,
) -> Result<TemplateSectionsView, TemplateErrorView>
    decreases source.len() - pos,
{
    if pos < 0 || pos >= source.len() {
        match open {
            Some(_) => Err(TemplateErrorView::UnclosedSection),
            None => Ok(sections),
        }
    } else {
        let n = index_of(source.skip(pos), '\n') as int;
        let has_newline = pos + n < source.len();
        let next = if has_newline {
            pos + n + 1
        } else {
            source.len() as int
        };
        let raw = source.subrange(pos, pos + n);
        let line = if has_newline {
            without_return(raw)
        } else {
            raw
        };
        let marker = trimmed(line);
        if marker.len() > 0 && marker[0] == '#' {
            let name = marker.drop_first();
            if starts_with(name, "end/"@) {
                match open {
                    Some((kind, start)) => scan_sections(
                        source,
                        next,
                        None,
                        put_section(sections, kind, source.subrange(start, pos)),
                    ),
                    None => Err(TemplateErrorView::NotInSection),
                }
            } else {
                match open {
                    Some(_) => Err(TemplateErrorView::AlreadyInSection),
                    None => match section_kind(name) {
                        Some(kind) => scan_sections(source, next, Some((kind, next)), sections),
                        None => Err(TemplateErrorView::UnknownSection(name)),
                    },
                }
            }
        } else {
            scan_sections(source, next, open, sections)
        }
    }
}

/// The raw bodies of the sections of a template document. A section that
/// the document does not hold stays empty; one that it opens, it has to
/// close.
pub open spec fn sections_of(source: Seq<char>) -> Result<
    TemplateSectionsView,
    TemplateErrorView,
> {
    scan_sections(source, 0, None, no_sections())
}

/// The section that a name opens, if it is the name of one.
pub fn section_named(name: &[char]) -> (r: Option<SectionKind>)
    ensures
        r == section_kind(name@),
{
    if same_chars(name, to_chars("prelude").as_slice()) {
        Some(SectionKind::Prelude)
    } else if same_chars(name, to_chars("types").as_slice()) {
        Some(SectionKind::Types)
    } else if same_chars(name, to_chars("field_visitor").as_slice()) {
        Some(SectionKind::FieldVisitor)
    } else if same_chars(name, to_chars("message_struct").as_slice()) {
        Some(SectionKind::MessageStruct)
    } else if same_chars(name, to_chars("enum_variant_visitor").as_slice()) {
        Some(SectionKind::EnumVariantVisitor)
    } else if same_chars(name, to_chars("message_enum").as_slice()) {
        Some(SectionKind::MessageEnum)
    } else {
        None
    }
}

/// Cuts a template document into the raw bodies of its sections.
pub fn compile_template_sections<'a>(source: &'a [char]) -> (r: Result<
    TemplateSections<'a>,
    TemplateError,
>)
    ensures
        match r {
            Ok(sections) => sections_of(source@) == Ok::<_, TemplateErrorView>(sections@),
            Err(e) => sections_of(source@) == Err::<TemplateSectionsView, _>(e@),
        },
{
    let nothing: &'a [char] = &source[0..0];
    let mut sections = TemplateSections {
        prelude: nothing,
        types: nothing,
        field_visitor: nothing,
        message_struct: nothing,
        enum_variant_visitor: nothing,
        message_enum: nothing,
    };
    assert(sections@ =~= no_sections()) by {
        assert(nothing@ =~= Seq::<char>::empty());
    }
    let mut cur_section: Option<SectionKind> = None;
    let mut start: usize = 0;
    let mut current: usize = 0;
    while current < source.len()
        invariant
            current <= source.len(),
            start <= current,
            scan_sections(
                source@,
                current as int,
                match cur_section {
                    Some(kind) => Some((kind, start as int)),
                    None => None,
                },
                sections@,
            ) == sections_of(source@),
        decreases source.len() - current,
    {
        let rest = &source[current..source.len()];
        assert(rest@ =~= source@.skip(current as int));
        let n = find_char(rest, '\n');
        let has_newline = n < rest.len();
        let current_new = if has_newline {
            current + n + 1
        } else {
            source.len()
        };
        // Strip trailing newlines
        let line: &[char] = if has_newline && n > 0 && rest[n - 1] == '\r' {
            &rest[0..n - 1]
        } else {
            &rest[0..n]
        };
        proof {
            let raw = source@.subrange(current as int, current + n);
            assert(rest@.subrange(0, n as int) =~= raw);
            if n > 0 {
                assert(raw.last() == rest@[n - 1]);
                assert(rest@.subrange(0, n - 1) =~= raw.drop_last());
            }
            assert(line@ == if has_newline {
                without_return(raw)
            } else {
                raw
            });
        }
        let marker = trim(line);
        if marker.len() > 0 && marker[0] == '#' {
            let name = &marker[1..marker.len()];
            assert(name@ =~= marker@.drop_first());
            if has_prefix(name, "end/") {
                match cur_section {
                    Some(kind) => {
                        let body = &source[start..current];
                        match kind {
                            SectionKind::Prelude => {
                                sections.prelude = body;
                            },
                            SectionKind::Types => {
                                sections.types = body;
                            },
                            SectionKind::FieldVisitor => {
                                sections.field_visitor = body;
                            },
                            SectionKind::MessageStruct => {
                                sections.message_struct = body;
                            },
                            SectionKind::EnumVariantVisitor => {
                                sections.enum_variant_visitor = body;
                            },
                            SectionKind::MessageEnum => {
                                sections.message_enum = body;
                            },
                        }
                        cur_section = None;
                    },
                    None => {
                        return Err(TemplateError::NotInSection);
                    },
                }
            } else {
                if cur_section.is_none() {
                    match section_named(name) {
                        Some(kind) => {
                            cur_section = Some(kind);
                        },
                        None => {
                            return Err(TemplateError::UnknownSection(to_text(name)));
                        },
                    }
                    start = current_new;
                } else {
                    return Err(TemplateError::AlreadyInSection);
                }
            }
        }
        current = current_new;
    }
    if cur_section.is_some() {
        return Err(TemplateError::UnclosedSection);
    }
    Ok(sections)
}

/* ==================================== */

/// A compiled template document.
#[derive(Debug, Clone, PartialEq, Eq, Default)]
pub struct Template {
    pub prelude: String,
    pub field_string: TemplateSpan,
    pub field_int: TemplateSpan,
    pub field_float: TemplateSpan,
    pub field_bool: TemplateSpan,
    pub field_array: TemplateSpan,
    pub field_map: TemplateSpan,
    pub field_null: TemplateSpan,
    pub field_struct: TemplateSpan,
    /* Structs */
    pub field_body: TemplateSpan,
    pub message_struct: TemplateSpan,
    /* Enums */
    pub enum_variant: TemplateSpan,
    pub message_enum: TemplateSpan,
}

/// The mathematical value of a [`Template`].
pub struct TemplateView {
    pub prelude: Seq<char>,
    pub field_string: Seq<InstructionView>,
    pub field_int: Seq<InstructionView>,
    pub field_float: Seq<InstructionView>,
    pub field_bool: Seq<InstructionView>,
    pub field_array: Seq<InstructionView>,
    pub field_map: Seq<InstructionView>,
    pub field_null: Seq<InstructionView>,
    pub field_struct: Seq<InstructionView>,
    pub field_body: Seq<InstructionView>,
    pub message_struct: Seq<InstructionView>,
    pub enum_variant: Seq<InstructionView>,
    pub message_enum: Seq<InstructionView>,
}

impl View for Template {
    type V = TemplateView;

    open spec fn view(&self) -> TemplateView {
        TemplateView {
            prelude: self.prelude@,
            field_string: self.field_string@,
            field_int: self.field_int@,
            field_float: self.field_float@,
            field_bool: self.field_bool@,
            field_array: self.field_array@,
            field_map: self.field_map@,
            field_null: self.field_null@,
            field_struct: self.field_struct@,
            field_body: self.field_body@,
            message_struct: self.message_struct@,
            enum_variant: self.enum_variant@,
            message_enum: self.message_enum@,
        }
    }
}

/// The template that holds nothing.
pub open spec fn empty_template() -> TemplateView {
    TemplateView {
        prelude: Seq::empty(),
        field_string: Seq::empty(),
        field_int: Seq::empty(),
        field_float: Seq::empty(),
        field_bool: Seq::empty(),
        field_array: Seq::empty(),
        field_map: Seq::empty(),
        field_null: Seq::empty(),
        field_struct: Seq::empty(),
        field_body: Seq::empty(),
        message_struct: Seq::empty(),
        enum_variant: Seq::empty(),
        message_enum: Seq::empty(),
    }
}

impl Template {
    /// A template that holds nothing.
    pub fn empty() -> (t: Template)
        ensures
            t@ == empty_template(),
    {
        Template {
            prelude: String::new(),
            field_string: TemplateSpan::empty(),
            field_int: TemplateSpan::empty(),
            field_float: TemplateSpan::empty(),
            field_bool: TemplateSpan::empty(),
            field_array: TemplateSpan::empty(),
            field_map: TemplateSpan::empty(),
            field_null: TemplateSpan::empty(),
            field_struct: TemplateSpan::empty(),
            field_body: TemplateSpan::empty(),
            message_struct: TemplateSpan::empty(),
            enum_variant: TemplateSpan::empty(),
            message_enum: TemplateSpan::empty(),
        }
    }
}

/// The template with `span` as the rule for the type that `name` names;
/// under any other name the template stays as it is.
pub open spec fn put_type_rule(
    t: TemplateView,
    name: Seq<char>,
    span: Seq<InstructionView>,
) -> TemplateView {
    if name == "string"@ {
        TemplateView { field_string: span, ..t }
    } else if name == "int"@ {
        TemplateView { field_int: span, ..t }
    } else if name == "float"@ {
        TemplateView { field_float: span, ..t }
    } else if name == "bool"@ {
        TemplateView { field_bool: span, ..t }
    } else if name == "array"@ {
        TemplateView { field_array: span, ..t }
    } else if name == "map"@ {
        TemplateView { field_map: span, ..t }
    } else if name == "null"@ {
        TemplateView { field_null: span, ..t }
    } else if name == "struct"@ {
        TemplateView { field_struct: span, ..t }
    } else {
        t
    }
}

/// Index of the `}` that closes a body in which `nested` more braces are
/// open than at its start, if there is one.
pub open spec fn closing_brace(s: Seq<char>, nested: nat) -> Option<nat>
    decreases s.len(),
{
    if s.len() == 0 {
        None
    } else if s[0] == '}' && nested == 0 {
        Some(0)
    } else {
        let deeper = if s[0] == '{' {
            nested + 1
        } else if s[0] == '}' {
            (nested - 1) as nat
        } else {
            nested
        };
        match closing_brace(s.drop_first(), deeper) {
            Some(i) => Some(i + 1),
            None => None,
        }
    }
}

/// The closing brace lies inside the text.
pub proof fn lemma_closing_brace_bound(s: Seq<char>, nested: nat)
    ensures
        closing_brace(s, nested) matches Some(i) ==> i < s.len(),
    decreases s.len(),
{
    if s.len() > 0 && !(s[0] == '}' && nested == 0) {
        let deeper = if s[0] == '{' {
            nested + 1
        } else if s[0] == '}' {
            (nested - 1) as nat
        } else {
            nested
        };
        lemma_closing_brace_bound(s.drop_first(), deeper);
    }
}

/// Trimming takes nothing but from the ends.
pub proof fn lemma_trimmed_bound(s: Seq<char>)
    ensures
        trimmed(s).len() <= s.len(),
        trimmed_start(s).len() <= s.len(),
{
    lemma_leading_whitespace_bound(s);
    let t = trimmed_start(s);
    lemma_trailing_whitespace_bound(t);
}

/// Reads the entries of the types section into `t`, where the placeholders
/// of a line are those that `pattern` finds in it. An entry is a name, a
/// blank, and a body in braces that may hold braces in pairs.
pub open spec fn type_rules(
    pattern: Seq<char>,
    source: Seq<char>,
    t: TemplateView,
) -> Result<TemplateView, TemplateErrorView>
    decreases source.len(),
{
    let s = trimmed(source);
    if s.len() == 0 {
        Ok(t)
    } else {
        let blank = index_of(s, ' ') as int;
        if blank >= s.len() {
            Err(TemplateErrorView::MalformedEntry)
        } else {
            let name = s.take(blank);
            let rem = trimmed_start(s.skip(blank));
            if rem.len() == 0 || rem[0] != '{' {
                Err(TemplateErrorView::MalformedEntry)
            } else {
                let inner = rem.drop_first();
                match closing_brace(inner, 0) {
                    None => Err(TemplateErrorView::UnbalancedBraces),
                    Some(end) => {
                        proof {
                            lemma_trimmed_bound(source);
                            lemma_trimmed_bound(s.skip(blank));
                            lemma_closing_brace_bound(inner, 0);
                        }
                        type_rules(
                            pattern,
                            inner.skip(end as int + 1),
                            put_type_rule(
                                t,
                                name,
                                span_with(pattern, trimmed(inner.take(end as int))),
                            ),
                        )
                    },
                }
            }
        }
    }
}

/// Finds the brace that closes a body.
pub fn find_closing_brace(s: &[char]) -> (r: Option<usize>)
    ensures
        match r {
            Some(i) => closing_brace(s@, 0) == Some(i as nat) && i < s.len(),
            None => closing_brace(s@, 0) is None,
        },
{
    let mut nested: usize = 0;
    let mut i: usize = 0;
    assert(s@.skip(0) =~= s@);
    while i < s.len()
        invariant
            i <= s.len(),
            nested <= i,
            closing_brace(s@, 0) == match closing_brace(s@.skip(i as int), nested as nat) {
                Some(k) => Some(k + i as nat),
                None => None,
            },
        decreases s.len() - i,
    {
        let c = s[i];
        proof {
            let rest = s@.skip(i as int);
            assert(rest[0] == c);
            assert(rest.drop_first() =~= s@.skip(i + 1));
            lemma_closing_brace_bound(rest, nested as nat);
        }
        if c == '}' {
            if nested == 0 {
                return Some(i);
            }
            nested -= 1;
        } else if c == '{' {
            nested += 1;
        }
        i += 1;
    }
    None
}

/// Files `span` in `template` as the rule for the type that `name` names.
fn set_type_rule(template: &mut Template, name: &[char], span: TemplateSpan)
    ensures
        final(template)@ == put_type_rule(old(template)@, name@, span@),
{
    if same_chars(name, to_chars("string").as_slice()) {
        template.field_string = span;
    } else if same_chars(name, to_chars("int").as_slice()) {
        template.field_int = span;
    } else if same_chars(name, to_chars("float").as_slice()) {
        template.field_float = span;
    } else if same_chars(name, to_chars("bool").as_slice()) {
        template.field_bool = span;
    } else if same_chars(name, to_chars("array").as_slice()) {
        template.field_array = span;
    } else if same_chars(name, to_chars("map").as_slice()) {
        template.field_map = span;
    } else if same_chars(name, to_chars("null").as_slice()) {
        template.field_null = span;
    } else if same_chars(name, to_chars("struct").as_slice()) {
        template.field_struct = span;
    }
}

/// Reads the entries of the types section into `template`.
pub(crate) fn stream_parse_visitors(
    re: &regex::Regex,
    source: &[char],
    template: &mut Template,
) -> (r: Result<(), TemplateError>)
    requires
        source_of(*re) is Some,
    ensures
        match r {
            Ok(()) => type_rules(source_of(*re)->Some_0, source@, old(template)@) == Ok::<
                _,
                TemplateErrorView,
            >(final(template)@),
            Err(e) => type_rules(source_of(*re)->Some_0, source@, old(template)@) == Err::<
                TemplateView,
                _,
            >(e@),
        },
{
    let ghost pattern = source_of(*re)->Some_0;
    let mut rest: &[char] = source;
    loop
        invariant
            source_of(*re) == Some(pattern),
            type_rules(pattern, rest@, template@) == type_rules(
                pattern,
                source@,
                old(template)@,
            ),
        decreases rest.len(),
    {
        proof {
            lemma_trimmed_bound(rest@);
        }
        let s = trim(rest);
        if s.len() == 0 {
            return Ok(());
        }
        let blank = find_char(s, ' ');
        if blank >= s.len() {
            return Err(TemplateError::MalformedEntry);
        }
        let name = &s[0..blank];
        let after_name = &s[blank..s.len()];
        assert(name@ =~= s@.take(blank as int));
        assert(after_name@ =~= s@.skip(blank as int));
        proof {
            lemma_trimmed_bound(after_name@);
        }
        let rem = trim_start(after_name);
        if rem.len() == 0 || rem[0] != '{' {
            return Err(TemplateError::MalformedEntry);
        }
        let inner = &rem[1..rem.len()];
        assert(inner@ =~= rem@.drop_first());
        // at this point inner is something like this
        // ..target string..}..extra string...
        match find_closing_brace(inner) {
            None => {
                return Err(TemplateError::UnbalancedBraces);
            },
            Some(end) => {
                let body = &inner[0..end];
                assert(body@ =~= inner@.take(end as int));
                let span = compile_span_with(re, trim(body));
                set_type_rule(template, name, span);
                // Pass the closing bracket behind the parsed body
                rest = &inner[end + 1..inner.len()];
                assert(rest@ =~= inner@.skip(end + 1));
            },
        }
    }
}

/// What a template document compiles to where the engine accepts the
/// placeholder expression: an error in its sections comes first, then an
/// error in its types section.
pub open spec fn template_of(source: Seq<char>) -> Result<TemplateView, TemplateErrorView> {
    match sections_of(source) {
        Err(e) => Err(e),
        Ok(sections) => match type_rules(
            PLACEHOLDER_PATTERN@,
            sections.types,
            TemplateView { prelude: trimmed(sections.prelude), ..empty_template() },
        ) {
            Err(e) => Err(e),
            Ok(t) => Ok(
                TemplateView {
                    field_body: span_of(trimmed(sections.field_visitor)),
                    message_struct: span_of(trimmed(sections.message_struct)),
                    enum_variant: span_of(trimmed(sections.enum_variant_visitor)),
                    message_enum: span_of(trimmed(sections.message_enum)),
                    ..t
                },
            ),
        },
    }
}

/// What compiling a template document comes to where the engine refuses
/// the placeholder expression: the error in its sections if there is one,
/// else the refusal.
pub open spec fn refused(source: Seq<char>) -> Result<TemplateView, TemplateErrorView> {
    match sections_of(source) {
        Err(e) => Err(e),
        Ok(_) => Err(TemplateErrorView::BadPattern),
    }
}

/// The value of the result of compiling a template.
pub open spec fn template_result_view(r: Result<Template, TemplateError>) -> Result<
    TemplateView,
    TemplateErrorView,
> {
    match r {
        Ok(t) => Ok(t@),
        Err(e) => Err(e@),
    }
}

/// Compiles a template document: cuts it into sections, reads the rules of
/// the types section and compiles the bodies of the other sections. Whether
/// the engine accepts the placeholder expression is the engine's to say;
/// all else is settled by the document.
pub fn compile_template(source: &str) -> (r: Result<Template, TemplateError>)
    ensures
        template_result_view(r) == template_of(source@) || template_result_view(r) == refused(
            source@,
        ),
{
    let chars = to_chars(source);
    let sections = match compile_template_sections(chars.as_slice()) {
        Ok(sections) => sections,
        Err(e) => {
            return Err(e);
        },
    };
    let re = match compile_pattern(PLACEHOLDER_PATTERN) {
        Ok(re) => re,
        Err(_) => {
            return Err(TemplateError::BadPattern);
        },
    };
    let mut template = Template::empty();
    template.prelude = to_text(trim(sections.prelude));
    match stream_parse_visitors(&re, sections.types, &mut template) {
        Ok(()) => {},
        Err(e) => {
            return Err(e);
        },
    }
    template.field_body = compile_span_with(&re, trim(sections.field_visitor));
    template.message_struct = compile_span_with(&re, trim(sections.message_struct));
    template.enum_variant = compile_span_with(&re, trim(sections.enum_variant_visitor));
    template.message_enum = compile_span_with(&re, trim(sections.message_enum));
    Ok(template)
}

} // verus!
