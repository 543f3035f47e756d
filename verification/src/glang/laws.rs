//! Laws of the template engine: what holds of compiling and rendering
//! together.

use vstd::prelude::*;
use crate::glang::emit::{
    expansion, field_items, joined, lookup, render_prefix, rendered, separator, spaces,
    variant_items, BindingView, ExpanderView, RenderState,
};
use crate::glang::pattern::{captures_in, captures_lie_in, CaptureView};
use crate::glang::template::{
    capture_end, indent_width, line_span, lines_of, pieces, placeholder_of, span_of,
    span_of_lines, without_return,
    ExpandOptionsView, InstructionView, TemplateErrorView, TemplateView, PLACEHOLDER_PATTERN,
};
use crate::text::{
    index_of, leading_whitespace, lemma_index_of_found, lemma_leading_whitespace_bound,
};

verus! {

/// Whether the first `n` instructions of a span are free of placeholders.
pub open spec fn no_placeholders(span: Seq<InstructionView>, n: nat) -> bool {
    forall|i: int| 0 <= i < n && i < span.len() ==> !(#[trigger] span[i] is Expand)
}

/// What an instruction other than a placeholder emits at the indent
/// `indent`.
pub open spec fn emitted(inst: InstructionView, indent: u16) -> Seq<char> {
    match inst {
        InstructionView::Newline => seq!['\n'] + spaces(indent as nat),
        InstructionView::Indent(size) => spaces(size as nat),
        InstructionView::Literal(val) => val,
        InstructionView::Expand { .. } => Seq::empty(),
    }
}

/// What the first `n` instructions of a span emit, placeholders aside.
pub open spec fn plain_output(span: Seq<InstructionView>, n: nat, indent: u16) -> Seq<char>
    decreases n,
{
    if n == 0 || n > span.len() {
        Seq::empty()
    } else {
        plain_output(span, (n - 1) as nat, indent) + emitted(span[n - 1], indent)
    }
}

/// A span without placeholders renders in every scope, to what its
/// instructions emit.
pub proof fn lemma_plain_span_renders(
    span: Seq<InstructionView>,
    n: nat,
    scope: Seq<BindingView>,
    indent: u16,
    t: TemplateView,
)
    requires
        n <= span.len(),
        no_placeholders(span, n),
    ensures
        render_prefix(span, n, scope, indent, t) matches Ok(st) && st.text == plain_output(
            span,
            n,
            indent,
        ),
    decreases n,
{
    if n > 0 {
        lemma_plain_span_renders(span, (n - 1) as nat, scope, indent, t);
        assert(!(span[n - 1] is Expand));
    }
}

/// What two spans emit one behind the other is what the first emits, then
/// what the second emits.
pub proof fn lemma_plain_output_concat(
    a: Seq<InstructionView>,
    b: Seq<InstructionView>,
    n: nat,
    indent: u16,
)
    requires
        n <= b.len(),
    ensures
        plain_output(a + b, a.len() + n, indent) == plain_output(a, a.len(), indent)
            + plain_output(b, n, indent),
    decreases n,
{
    if n == 0 {
        lemma_plain_output_prefix(a + b, a, a.len(), indent);
        assert(plain_output(a, a.len(), indent) + Seq::<char>::empty() =~= plain_output(
            a,
            a.len(),
            indent,
        ));
    } else {
        lemma_plain_output_concat(a, b, (n - 1) as nat, indent);
        assert((a + b)[a.len() + n - 1] == b[n - 1]);
        assert(plain_output(a + b, a.len() + n, indent) =~= plain_output(a, a.len(), indent)
            + plain_output(b, n, indent));
    }
}

/// What the first instructions of a span emit does not depend on those
/// behind them.
pub proof fn lemma_plain_output_prefix(
    a: Seq<InstructionView>,
    b: Seq<InstructionView>,
    n: nat,
    indent: u16,
)
    requires
        n <= a.len(),
        n <= b.len(),
        forall|i: int| 0 <= i < n ==> a[i] == b[i],
    ensures
        plain_output(a, n, indent) == plain_output(b, n, indent),
    decreases n,
{
    if n > 0 {
        lemma_plain_output_prefix(a, b, (n - 1) as nat, indent);
    }
}

/// Whether the whitespace that the indent of a line stands for is made of
/// blanks.
pub open spec fn plain_line(line: Seq<char>) -> bool {
    forall|i: int| 0 <= i < indent_width(line) && i < line.len() ==> line[i] == ' '
}

/// Whether a text is made of plain lines that are parted by line feeds
/// alone: no line ends in a carriage return before its line feed, and the
/// text does not end in a line feed.
pub open spec fn plain_text(text: Seq<char>) -> bool {
    &&& forall|i: int| 0 <= i < lines_of(text).len() ==> plain_line(#[trigger] lines_of(text)[i])
    &&& text.len() > 0 ==> text.last() != '\n'
    &&& forall|i: int| 0 < i < text.len() && #[trigger] text[i] == '\n' ==> text[i - 1] != '\r'
}

/// The lines with a line feed between two of them.
pub open spec fn text_of_lines(lines: Seq<Seq<char>>) -> Seq<char>
    decreases lines.len(),
{
    if lines.len() == 0 {
        Seq::empty()
    } else if lines.len() == 1 {
        lines[0]
    } else {
        text_of_lines(lines.drop_last()) + seq!['\n'] + lines.last()
    }
}

/// A line in which a placeholder was found compiles to a placeholder among
/// its instructions.
proof fn lemma_capture_gives_placeholder(
    line: Seq<char>,
    captures: Seq<CaptureView>,
    last_end: int,
)
    requires
        captures.len() > 0,
    ensures
        exists|i: int|
            0 <= i < pieces(line, captures, last_end).len() && #[trigger] pieces(
                line,
                captures,
                last_end,
            )[i] is Expand,
{
    let c = captures[0];
    let start = c.before.len() as int;
    let head: Seq<InstructionView> = if 0 <= last_end < start <= line.len() {
        seq![InstructionView::Literal(line.subrange(last_end, start))]
    } else {
        Seq::empty()
    };
    let all = pieces(line, captures, last_end);
    assert(all[head.len() as int] is Expand);
}

/// A line that compiles to instructions without placeholders is one in
/// which none was found.
proof fn lemma_line_without_placeholders(line: Seq<char>, captures: Seq<CaptureView>)
    requires
        no_placeholders(line_span(line, captures), line_span(line, captures).len()),
    ensures
        captures.len() == 0,
{
    if captures.len() > 0 {
        let w = indent_width(line);
        let span = line_span(line, captures);
        if w > 0 {
            lemma_capture_gives_placeholder(line, captures, w as int);
            let tail = pieces(line, captures, w as int);
            let i = choose|i: int| 0 <= i < tail.len() && #[trigger] tail[i] is Expand;
            assert(span[i + 1] == tail[i]);
        } else {
            lemma_capture_gives_placeholder(line, captures, 0);
            let tail = pieces(line, captures, 0);
            let i = choose|i: int| 0 <= i < tail.len() && #[trigger] tail[i] is Expand;
            assert(span[i] == tail[i]);
        }
    }
}

/// A plain line in which no placeholder is found compiles to instructions
/// that emit the line.
proof fn lemma_plain_line(line: Seq<char>)
    requires
        plain_line(line),
        captures_in(PLACEHOLDER_PATTERN@, line).len() == 0,
    ensures
        plain_output(
            line_span(line, captures_in(PLACEHOLDER_PATTERN@, line)),
            line_span(line, captures_in(PLACEHOLDER_PATTERN@, line)).len(),
            0,
        ) == line,
{
    let none = captures_in(PLACEHOLDER_PATTERN@, line);
    let span = line_span(line, none);
    let w = indent_width(line);
    lemma_leading_whitespace_bound(line);
    assert(w <= leading_whitespace(line));
    assert(spaces(w as nat) =~= line.take(w as int));
    let tail = pieces(line, none, w as int);
    if (w as int) < line.len() {
        assert(tail =~= seq![InstructionView::Literal(line.skip(w as int))]);
    } else {
        assert(tail =~= Seq::empty());
        assert(line.skip(w as int) =~= Seq::empty());
    }
    let head: Seq<InstructionView> = if w > 0 {
        seq![InstructionView::Indent(w)]
    } else {
        Seq::empty()
    };
    assert(span =~= head + tail);
    assert(plain_output(head, head.len(), 0) =~= spaces(w as nat)) by {
        if w > 0 {
            assert(plain_output(head, 0, 0) =~= Seq::empty());
        }
    }
    assert(plain_output(tail, tail.len(), 0) =~= line.skip(w as int)) by {
        if (w as int) < line.len() {
            assert(plain_output(tail, 0, 0) =~= Seq::empty());
        }
    }
    lemma_plain_output_concat(head, tail, tail.len(), 0);
    assert(line.take(w as int) + line.skip(w as int) =~= line);
}

/// Plain lines that compile to a span without placeholders emit, through
/// that span, the lines with a line feed between two of them.
proof fn lemma_plain_lines(lines: Seq<Seq<char>>)
    requires
        forall|i: int| 0 <= i < lines.len() ==> plain_line(#[trigger] lines[i]),
        no_placeholders(
            span_of_lines(PLACEHOLDER_PATTERN@, lines),
            span_of_lines(PLACEHOLDER_PATTERN@, lines).len(),
        ),
    ensures
        plain_output(
            span_of_lines(PLACEHOLDER_PATTERN@, lines),
            span_of_lines(PLACEHOLDER_PATTERN@, lines).len(),
            0,
        ) == text_of_lines(lines),
    decreases lines.len(),
{
    let pattern = PLACEHOLDER_PATTERN@;
    if lines.len() > 0 {
        let front = lines.drop_last();
        let line = lines.last();
        let head = span_of_lines(pattern, front);
        let middle = if lines.len() > 1 {
            head.push(InstructionView::Newline)
        } else {
            head
        };
        let tail = line_span(line, captures_in(pattern, line));
        let span = span_of_lines(pattern, lines);
        assert(span == middle + tail);
        assert forall|i: int| 0 <= i < front.len() implies plain_line(#[trigger] front[i]) by {
            assert(front[i] == lines[i]);
        }
        assert(no_placeholders(head, head.len())) by {
            assert forall|i: int| 0 <= i < head.len() implies !(#[trigger] head[i] is Expand) by {
                assert(span[i] == head[i]);
            }
        }
        assert(no_placeholders(tail, tail.len())) by {
            assert forall|i: int| 0 <= i < tail.len() implies !(#[trigger] tail[i] is Expand) by {
                assert(span[i + middle.len()] == tail[i]);
            }
        }
        lemma_plain_lines(front);
        lemma_line_without_placeholders(line, captures_in(pattern, line));
        lemma_plain_line(line);
        lemma_plain_output_concat(middle, tail, tail.len(), 0);
        if lines.len() > 1 {
            lemma_plain_output_prefix(middle, head, head.len(), 0);
            assert(spaces(0) =~= Seq::empty());
            assert(plain_output(middle, middle.len(), 0) =~= text_of_lines(front) + seq!['\n']);
        } else {
            assert(front.len() == 0);
            assert(text_of_lines(front) =~= Seq::empty());
            assert(Seq::<char>::empty() + line =~= line);
        }
    }
}

/// The lines behind a first line follow it behind a line feed.
proof fn lemma_text_of_lines_front(first: Seq<char>, rest: Seq<Seq<char>>)
    requires
        rest.len() > 0,
    ensures
        text_of_lines(seq![first] + rest) == first + seq!['\n'] + text_of_lines(rest),
    decreases rest.len(),
{
    let all = seq![first] + rest;
    assert(all.last() == rest.last());
    if rest.len() == 1 {
        assert(all.drop_last() =~= seq![first]);
        assert(text_of_lines(rest) == rest[0]);
        assert(text_of_lines(seq![first]) == first);
        assert(text_of_lines(all) == text_of_lines(all.drop_last()) + seq!['\n'] + all.last());
    } else {
        assert(all.drop_last() =~= seq![first] + rest.drop_last());
        lemma_text_of_lines_front(first, rest.drop_last());
        assert(text_of_lines(all) =~= first + seq!['\n'] + text_of_lines(rest));
    }
}

/// A text that is parted by line feeds alone is the text of its lines.
proof fn lemma_lines_round_trip(text: Seq<char>)
    requires
        text.len() > 0 ==> text.last() != '\n',
        forall|i: int| 0 < i < text.len() && #[trigger] text[i] == '\n' ==> text[i - 1] != '\r',
    ensures
        text_of_lines(lines_of(text)) == text,
        text.len() > 0 ==> lines_of(text).len() > 0,
    decreases text.len(),
{
    if text.len() > 0 {
        let n = index_of(text, '\n') as int;
        lemma_index_of_found(text, '\n');
        if n < text.len() {
            let first = text.take(n);
            let rest = text.skip(n + 1);
            assert(text[n] == '\n');
            assert(n < text.len() - 1);
            assert(rest.last() == text.last());
            assert forall|i: int| 0 < i < rest.len() && #[trigger] rest[i] == '\n' implies rest[i
                - 1] != '\r' by {
                assert(rest[i] == text[i + n + 1]);
                assert(rest[i - 1] == text[i + n]);
            }
            lemma_lines_round_trip(rest);
            if n > 0 {
                assert(first.last() == text[n - 1]);
            }
            assert(without_return(first) == first);
            lemma_text_of_lines_front(first, lines_of(rest));
            assert(first + seq!['\n'] + rest =~= text);
        }
    }
}

/// Round trip of text without placeholders: where a text of plain lines
/// compiles to a span without placeholders, that span renders at the indent
/// zero, in any scope and with any template, to the text as it stands, its
/// line breaks and its leading blanks included.
pub proof fn lemma_plain_text_round_trip(
    text: Seq<char>,
    scope: Seq<BindingView>,
    t: TemplateView,
)
    requires
        plain_text(text),
        no_placeholders(span_of(text), span_of(text).len()),
    ensures
        rendered(span_of(text), scope, 0, t) == Ok::<_, TemplateErrorView>(text),
{
    let span = span_of(text);
    lemma_plain_lines(lines_of(text));
    lemma_lines_round_trip(text);
    lemma_plain_span_renders(span, span.len(), scope, 0, t);
}

/// A span without placeholders renders in every scope and at every indent,
/// and never fails.
pub proof fn lemma_plain_span_never_fails(
    span: Seq<InstructionView>,
    scope: Seq<BindingView>,
    indent: u16,
    t: TemplateView,
)
    requires
        no_placeholders(span, span.len()),
    ensures
        rendered(span, scope, indent, t) == Ok::<_, TemplateErrorView>(
            plain_output(span, span.len(), indent),
        ),
{
    lemma_plain_span_renders(span, span.len(), scope, indent, t);
}

/// Indentation propagates: a placeholder behind the indent of its line
/// expands at the base indent plus that indent.
pub proof fn lemma_expansion_keeps_column(
    width: u16,
    var: Seq<char>,
    opts: ExpandOptionsView,
    scope: Seq<BindingView>,
    base: u16,
    t: TemplateView,
)
    requires
        base + width <= u16::MAX,
        lookup(scope, var) is Some,
    ensures
        rendered(
            seq![InstructionView::Indent(width), InstructionView::Expand { var, opts }],
            scope,
            base,
            t,
        ) == match expansion(lookup(scope, var)->Some_0, (base + width) as u16, opts, t) {
            Ok(text) => Ok::<_, TemplateErrorView>(spaces(width as nat) + text),
            Err(e) => Err(e),
        },
{
    let span = seq![InstructionView::Indent(width), InstructionView::Expand { var, opts }];
    assert(render_prefix(span, 0, scope, base, t) == Ok::<_, TemplateErrorView>(
        RenderState { text: Seq::empty(), line_indent: 0 },
    ));
    assert(render_prefix(span, 1, scope, base, t) == Ok::<_, TemplateErrorView>(
        RenderState { text: Seq::<char>::empty() + spaces(width as nat), line_indent: width },
    ));
    assert(Seq::<char>::empty() + spaces(width as nat) =~= spaces(width as nat));
}

/// Every continuation line of repeated fields starts at the column of
/// their placeholder: where the fields render and are not kept on one
/// line, what is emitted is their items with the delimiter, a line feed and
/// that many blanks between two of them.
pub proof fn lemma_fields_continue_at_column(
    fields: Seq<crate::items::StructFieldView>,
    column: u16,
    opts: ExpandOptionsView,
    t: TemplateView,
)
    requires
        field_items(fields, fields.len(), column, t) is Ok,
    ensures
        expansion(ExpanderView::Fields(fields), column, opts, t) == Ok::<_, TemplateErrorView>(
            joined(field_items(fields, fields.len(), column, t)->Ok_0, opts, column),
        ),
        !opts.inline ==> separator(opts, column) == (match opts.delimeter {
            Some(d) => d,
            None => Seq::empty(),
        }) + seq!['\n'] + spaces(column as nat),
{
}

/// Every continuation line of repeated variants starts at the column of
/// their placeholder, unless the variants are kept on one line.
pub proof fn lemma_variants_continue_at_column(
    variants: Seq<crate::items::EnumVariantView>,
    column: u16,
    opts: ExpandOptionsView,
    t: TemplateView,
)
    requires
        variant_items(variants, variants.len(), column, t) is Ok,
    ensures
        expansion(ExpanderView::Variants(variants), column, opts, t) == Ok::<
            _,
            TemplateErrorView,
        >(joined(variant_items(variants, variants.len(), column, t)->Ok_0, opts, column)),
        !opts.inline ==> separator(opts, column) == (match opts.delimeter {
            Some(d) => d,
            None => Seq::empty(),
        }) + seq!['\n'] + spaces(column as nat),
{
}

/// The text that a capture matched in a line: what stands between what is
/// before the match and what is behind it.
pub open spec fn matched_text(line: Seq<char>, c: CaptureView) -> Seq<char> {
    line.subrange(c.before.len() as int, line.len() - c.after.len())
}

/// The text of a line that instructions stand for: a literal stands for
/// its text, and each placeholder for what its capture matched, the
/// captures taken in order.
pub open spec fn source_text(
    instructions: Seq<InstructionView>,
    line: Seq<char>,
    captures: Seq<CaptureView>,
) -> Seq<char>
    decreases instructions.len(),
{
    if instructions.len() == 0 {
        Seq::empty()
    } else {
        match instructions[0] {
            InstructionView::Literal(text) => text + source_text(
                instructions.drop_first(),
                line,
                captures,
            ),
            InstructionView::Expand { .. } => if captures.len() > 0 {
                matched_text(line, captures[0]) + source_text(
                    instructions.drop_first(),
                    line,
                    captures.drop_first(),
                )
            } else {
                source_text(instructions.drop_first(), line, captures)
            },
            _ => source_text(instructions.drop_first(), line, captures),
        }
    }
}

/// Captures that lie in a line still do when the first is taken away.
proof fn lemma_captures_lie_in_rest(line: Seq<char>, captures: Seq<CaptureView>)
    requires
        captures_lie_in(line, captures),
        captures.len() > 0,
    ensures
        captures_lie_in(line, captures.drop_first()),
        captures.len() > 1 ==> line.len() - captures[0].after.len()
            <= captures.drop_first()[0].before.len(),
{
    let rest = captures.drop_first();
    assert forall|i: int| 0 <= i < rest.len() implies {
        let c = #[trigger] rest[i];
        &&& c.before.len() + c.after.len() <= line.len()
        &&& c.before == line.take(c.before.len() as int)
        &&& c.after == line.skip(line.len() - c.after.len())
    } by {
        assert(rest[i] == captures[i + 1]);
    }
    assert forall|i: int, j: int| 0 <= i < j < rest.len() implies line.len() - (
    #[trigger] rest[i]).after.len() <= (#[trigger] rest[j]).before.len() by {
        assert(rest[i] == captures[i + 1]);
        assert(rest[j] == captures[j + 1]);
    }
    if captures.len() > 1 {
        assert(rest[0] == captures[1]);
    }
}

/// No character is lost and none is doubled behind the indent: where the
/// captures lie in a line as successive matches do, the first of them not
/// before `last_end`, the literals and the placeholders that the line is
/// cut into stand, one behind the other, for the line from `last_end` on.
pub proof fn lemma_pieces_give_the_line_back(
    line: Seq<char>,
    captures: Seq<CaptureView>,
    last_end: int,
)
    requires
        captures_lie_in(line, captures),
        0 <= last_end <= line.len(),
        captures.len() > 0 ==> last_end <= captures[0].before.len(),
    ensures
        source_text(pieces(line, captures, last_end), line, captures) == line.skip(last_end),
    decreases captures.len(),
{
    let all = pieces(line, captures, last_end);
    if captures.len() == 0 {
        if last_end < line.len() {
            assert(all.drop_first() =~= Seq::empty());
            assert(source_text(all.drop_first(), line, captures) =~= Seq::empty());
            assert(source_text(all, line, captures) =~= line.skip(last_end));
        } else {
            assert(line.skip(last_end) =~= Seq::empty());
        }
    } else {
        let c = captures[0];
        let rest = captures.drop_first();
        let start = c.before.len() as int;
        let end = capture_end(line, c);
        let tail = pieces(line, rest, end);
        lemma_captures_lie_in_rest(line, captures);
        lemma_pieces_give_the_line_back(line, rest, end);
        let from_placeholder = seq![placeholder_of(c)] + tail;
        assert(from_placeholder.drop_first() =~= tail);
        assert(source_text(from_placeholder, line, captures) == matched_text(line, c)
            + line.skip(end));
        assert(matched_text(line, c) + line.skip(end) =~= line.skip(start));
        if last_end < start {
            let text = line.subrange(last_end, start);
            assert(all =~= seq![InstructionView::Literal(text)] + from_placeholder);
            assert(all.drop_first() =~= from_placeholder);
            assert(text + line.skip(start) =~= line.skip(last_end));
        } else {
            assert(all =~= from_placeholder);
        }
    }
}

/// A line is cut without loss: where the captures lie in the line as
/// successive matches do, the first of them not inside the indent, the
/// whitespace that the indent counts and what the literals and the
/// placeholders stand for make up the line.
pub proof fn lemma_line_is_given_back(line: Seq<char>, captures: Seq<CaptureView>)
    requires
        captures_lie_in(line, captures),
        captures.len() > 0 ==> indent_width(line) <= captures[0].before.len(),
    ensures
        line.take(indent_width(line) as int) + source_text(
            line_span(line, captures),
            line,
            captures,
        ) == line,
{
    let w = indent_width(line);
    lemma_leading_whitespace_bound(line);
    lemma_pieces_give_the_line_back(line, captures, w as int);
    let tail = pieces(line, captures, w as int);
    if w > 0 {
        let span = line_span(line, captures);
        assert(span.drop_first() =~= tail);
    }
    assert(line.take(w as int) + line.skip(w as int) =~= line);
}

} // verus!
