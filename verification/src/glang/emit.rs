//! Replaying a compiled span: what a span renders to in a scope, and the
//! writer that collects the text.

use vstd::prelude::*;
use vstd::string::StringExecFns;
use crate::glang::expander::expand_entry;
use crate::glang::scope::Scope;
use crate::glang::template::{
    ExpandOptions, ExpandOptionsView, Instruction, InstructionView, Template, TemplateError,
    TemplateErrorView, TemplateSpan, TemplateView,
};
use crate::items::{
    EnumVariantValueView, EnumVariantView, PrimitiveType, StructFieldView, TyKindView,
};

verus! {

/// What a variable of a scope stands for.
pub enum ExpanderView {
    /// A text that is emitted as it stands.
    Text(Seq<char>),
    /// A type, rendered through the rules of the types section.
    Type(TyKindView),
    /// The fields of a struct, one item each.
    Fields(Seq<StructFieldView>),
    /// The variants of an enum, one item each.
    Variants(Seq<EnumVariantView>),
}

/// A variable of a scope and what it stands for.
pub struct BindingView {
    pub name: Seq<char>,
    pub expander: ExpanderView,
}

/// What `name` stands for in a scope: the binding that was added last wins.
pub open spec fn lookup(scope: Seq<BindingView>, name: Seq<char>) -> Option<ExpanderView>
    decreases scope.len(),
{
    if scope.len() == 0 {
        None
    } else if scope.last().name == name {
        Some(scope.last().expander)
    } else {
        lookup(scope.drop_last(), name)
    }
}

/// How deep a type nests.
pub open spec fn type_height(ty: TyKindView) -> nat
    decreases ty, 0nat,
{
    match ty {
        TyKindView::Primitive(_) => 0,
        TyKindView::UserDefined(_) => 0,
        TyKindView::Nullable(inner) => 1 + type_height(*inner),
        TyKindView::Array(inner) => 1 + type_height(*inner),
        TyKindView::MapOf(inner) => 1 + type_height(*inner),
        TyKindView::Tuple(elements) => 1 + tuple_height(elements, elements.len()),
    }
}

/// How deep the deepest of the first `n` types nests.
pub open spec fn tuple_height(elements: Seq<TyKindView>, n: nat) -> nat
    decreases elements, n,
{
    if n == 0 || n > elements.len() {
        0
    } else {
        let h = type_height(elements[n - 1]);
        let rest = tuple_height(elements, (n - 1) as nat);
        if h > rest {
            h
        } else {
            rest
        }
    }
}

/// How deep the deepest type of the first `n` fields nests.
pub open spec fn fields_height(fields: Seq<StructFieldView>, n: nat) -> nat
    decreases n,
{
    if n == 0 || n > fields.len() {
        0
    } else {
        let h = type_height(fields[n - 1].datatype);
        let rest = fields_height(fields, (n - 1) as nat);
        if h > rest {
            h
        } else {
            rest
        }
    }
}

/// How many spans an expander can nest before it comes to an end.
pub open spec fn weight(e: ExpanderView) -> nat {
    match e {
        ExpanderView::Text(_) => 0,
        ExpanderView::Type(ty) => 1 + type_height(ty),
        ExpanderView::Fields(fields) => 2 + fields_height(fields, fields.len()),
        ExpanderView::Variants(_) => 1,
    }
}

/// The weight of the heaviest of the first `n` bindings.
pub open spec fn bindings_weight(scope: Seq<BindingView>, n: nat) -> nat
    decreases n,
{
    if n == 0 || n > scope.len() {
        0
    } else {
        let w = weight(scope[n - 1].expander);
        let rest = bindings_weight(scope, (n - 1) as nat);
        if w > rest {
            w
        } else {
            rest
        }
    }
}

/// The weight of the heaviest binding of a scope.
pub open spec fn scope_weight(scope: Seq<BindingView>) -> nat {
    bindings_weight(scope, scope.len())
}

/// No type of a tuple nests deeper than the tuple's height says.
pub proof fn lemma_tuple_height(elements: Seq<TyKindView>, n: nat, i: int)
    requires
        0 <= i < n <= elements.len(),
    ensures
        type_height(elements[i]) <= tuple_height(elements, n),
    decreases n,
{
    if i < n - 1 {
        lemma_tuple_height(elements, (n - 1) as nat, i);
    }
}

/// No type of a field nests deeper than the fields' height says.
pub proof fn lemma_fields_height(fields: Seq<StructFieldView>, n: nat, i: int)
    requires
        0 <= i < n <= fields.len(),
    ensures
        type_height(fields[i].datatype) <= fields_height(fields, n),
    decreases n,
{
    if i < n - 1 {
        lemma_fields_height(fields, (n - 1) as nat, i);
    }
}

/// No binding is heavier than the weight of the bindings says.
pub proof fn lemma_bindings_weight(scope: Seq<BindingView>, n: nat, i: int)
    requires
        0 <= i < n <= scope.len(),
    ensures
        weight(scope[i].expander) <= bindings_weight(scope, n),
    decreases n,
{
    if i < n - 1 {
        lemma_bindings_weight(scope, (n - 1) as nat, i);
    }
}

/// What a scope binds is no heavier than the scope.
pub proof fn lemma_lookup_weight(scope: Seq<BindingView>, name: Seq<char>)
    ensures
        lookup(scope, name) matches Some(e) ==> weight(e) <= scope_weight(scope),
    decreases scope.len(),
{
    if scope.len() > 0 {
        if scope.last().name == name {
            lemma_bindings_weight(scope, scope.len(), scope.len() - 1);
        } else {
            lemma_lookup_weight(scope.drop_last(), name);
            let rest = scope.drop_last();
            assert forall|n: nat| n <= rest.len() implies bindings_weight(rest, n)
                == bindings_weight(scope, n) by {
                lemma_bindings_weight_prefix(scope, rest, n);
            }
        }
    }
}

/// The weight of the first bindings does not depend on those behind them.
pub proof fn lemma_bindings_weight_prefix(a: Seq<BindingView>, b: Seq<BindingView>, n: nat)
    requires
        n <= a.len(),
        n <= b.len(),
        forall|i: int| 0 <= i < n ==> a[i] == b[i],
    ensures
        bindings_weight(a, n) == bindings_weight(b, n),
    decreases n,
{
    if n > 0 {
        lemma_bindings_weight_prefix(a, b, (n - 1) as nat);
    }
}

/// `n` blanks.
pub open spec fn spaces(n: nat) -> Seq<char> {
    Seq::new(n, |i: int| ' ')
}

/// What parts two lines of a repeated variable: a line break and the
/// indent of the placeholder. Items that stay on one line are parted by
/// nothing of the kind.
pub open spec fn line_break(opts: ExpandOptionsView, indent: u16) -> Seq<char> {
    if opts.inline {
        Seq::empty()
    } else {
        seq!['\n'] + spaces(indent as nat)
    }
}

/// What stands between two items of a repeated variable: the delimiter if
/// there is one, and, unless the items stay on one line, a line break and
/// the indent of the placeholder.
pub open spec fn separator(opts: ExpandOptionsView, indent: u16) -> Seq<char> {
    (match opts.delimeter {
        Some(d) => d,
        None => Seq::empty(),
    }) + line_break(opts, indent)
}

/// The first `n` items with `sep` between them.
pub open spec fn joined_items(items: Seq<Seq<char>>, n: nat, sep: Seq<char>) -> Seq<char>
    decreases n,
{
    if n == 0 || n > items.len() {
        Seq::empty()
    } else if n == 1 {
        items[0]
    } else {
        joined_items(items, (n - 1) as nat, sep) + sep + items[n - 1]
    }
}

/// What is emitted behind the last item: the delimiter, if there is one and
/// it is asked for.
pub open spec fn trailer(opts: ExpandOptionsView) -> Seq<char> {
    match opts.delimeter {
        Some(d) => if opts.trailing {
            d
        } else {
            Seq::empty()
        },
        None => Seq::empty(),
    }
}

/// The items of a repeated variable as they are emitted: a separator
/// between two items, and the trailer behind the last.
pub open spec fn joined(items: Seq<Seq<char>>, opts: ExpandOptionsView, indent: u16) -> Seq<
    char,
> {
    joined_items(items, items.len(), separator(opts, indent)) + trailer(opts)
}

/// The decimal digit for `d`.
pub open spec fn digit_char(d: nat) -> char {
    (48 + d) as char
}

/// The decimal digits of `n`.
pub open spec fn digits(n: nat) -> Seq<char>
    decreases n,
{
    if n < 10 {
        seq![digit_char(n)]
    } else {
        digits(n / 10).push(digit_char(n % 10))
    }
}

/// An integer in decimal notation.
pub open spec fn decimal(v: int) -> Seq<char> {
    if v < 0 {
        seq!['-'] + digits((-v) as nat)
    } else {
        digits(v as nat)
    }
}

/// The text of the value of a variant: an integer in decimal notation, a
/// string between double quotes.
pub open spec fn value_text(value: EnumVariantValueView) -> Seq<char> {
    match value {
        EnumVariantValueView::Int(v) => decimal(v as int),
        EnumVariantValueView::String(s) => seq!['"'] + s + seq!['"'],
    }
}

/// The rule of the types section for a type, and the scope in which the
/// rule is rendered. A tuple has no rule of its own.
pub open spec fn type_rule(ty: TyKindView, t: TemplateView) -> (
    Seq<InstructionView>,
    Seq<BindingView>,
) {
    match ty {
        TyKindView::Primitive(PrimitiveType::String) => (t.field_string, Seq::empty()),
        TyKindView::Primitive(PrimitiveType::Int) => (t.field_int, Seq::empty()),
        TyKindView::Primitive(PrimitiveType::Float) => (t.field_float, Seq::empty()),
        TyKindView::Primitive(PrimitiveType::Bool) => (t.field_bool, Seq::empty()),
        TyKindView::UserDefined(name) => (
            t.field_struct,
            seq![BindingView { name: "T"@, expander: ExpanderView::Text(name) }],
        ),
        TyKindView::Nullable(inner) => (
            t.field_null,
            seq![BindingView { name: "T"@, expander: ExpanderView::Type(*inner) }],
        ),
        TyKindView::Array(inner) => (
            t.field_array,
            seq![BindingView { name: "T"@, expander: ExpanderView::Type(*inner) }],
        ),
        TyKindView::MapOf(inner) => (
            t.field_map,
            seq![BindingView { name: "T"@, expander: ExpanderView::Type(*inner) }],
        ),
        TyKindView::Tuple(_) => (Seq::empty(), Seq::empty()),
    }
}

/// The scope in which the declaration of a field is rendered.
pub open spec fn field_scope(field: StructFieldView) -> Seq<BindingView> {
    seq![
        BindingView { name: "name"@, expander: ExpanderView::Text(field.name) },
        BindingView { name: "ty"@, expander: ExpanderView::Type(field.datatype) },
    ]
}

/// The scope in which a variant is rendered.
pub open spec fn variant_scope(variant: EnumVariantView) -> Seq<BindingView> {
    seq![
        BindingView { name: "name"@, expander: ExpanderView::Text(variant.name) },
        BindingView { name: "val"@, expander: ExpanderView::Text(value_text(variant.value)) },
    ]
}

/// The scope of a type rule is lighter than the type.
pub proof fn lemma_type_rule_weight(ty: TyKindView, t: TemplateView)
    ensures
        scope_weight(type_rule(ty, t).1) < weight(ExpanderView::Type(ty)),
{
    let scope = type_rule(ty, t).1;
    if scope.len() == 1 {
        assert(bindings_weight(scope, 0) == 0);
        assert(bindings_weight(scope, 1) == weight(scope[0].expander));
    }
}

/// The scope of a field is lighter than the fields it is one of.
pub proof fn lemma_field_scope_weight(fields: Seq<StructFieldView>, i: int)
    requires
        0 <= i < fields.len(),
    ensures
        scope_weight(field_scope(fields[i])) <= 1 + fields_height(fields, fields.len()),
{
    let scope = field_scope(fields[i]);
    assert(bindings_weight(scope, 0) == 0);
    assert(bindings_weight(scope, 1) == 0);
    assert(bindings_weight(scope, 2) == weight(scope[1].expander));
    lemma_fields_height(fields, fields.len(), i);
}

/// The scope of a variant weighs nothing.
pub proof fn lemma_variant_scope_weight(variant: EnumVariantView)
    ensures
        scope_weight(variant_scope(variant)) == 0,
{
    let scope = variant_scope(variant);
    assert(bindings_weight(scope, 0) == 0);
    assert(bindings_weight(scope, 1) == 0);
    assert(bindings_weight(scope, 2) == 0);
}

/// Where a replay stands: the text emitted so far and the indent of the
/// line that is being emitted.
pub struct RenderState {
    pub text: Seq<char>,
    pub line_indent: u16,
}

/// The state after the first `n` instructions of `span` have been replayed
/// in `scope` at the indent `indent`, or the error that stopped the replay.
pub open spec fn render_prefix(
    span: Seq<InstructionView>,
    n: nat,
    scope: Seq<BindingView>,
    indent: u16,
    t: TemplateView,
) -> Result<RenderState, TemplateErrorView>
    decreases scope_weight(scope), 1nat, n,
{
    if n == 0 || n > span.len() {
        Ok(RenderState { text: Seq::empty(), line_indent: 0 })
    } else {
        match render_prefix(span, (n - 1) as nat, scope, indent, t) {
            Err(e) => Err(e),
            Ok(st) => match span[n - 1] {
                InstructionView::Newline => Ok(
                    RenderState {
                        text: st.text + seq!['\n'] + spaces(indent as nat),
                        line_indent: 0,
                    },
                ),
                InstructionView::Indent(size) => Ok(
                    RenderState { text: st.text + spaces(size as nat), line_indent: size },
                ),
                InstructionView::Literal(val) => Ok(RenderState { text: st.text + val, ..st }),
                InstructionView::Expand { var, opts } => match lookup(scope, var) {
                    None => Err(TemplateErrorView::UnboundVariable(var)),
                    Some(e) => if indent + st.line_indent > u16::MAX {
                        Err(TemplateErrorView::IndentOverflow)
                    } else {
                        proof {
                            lemma_lookup_weight(scope, var);
                        }
                        match expansion(e, (indent + st.line_indent) as u16, opts, t) {
                            Err(e) => Err(e),
                            Ok(text) => Ok(RenderState { text: st.text + text, ..st }),
                        }
                    },
                },
            },
        }
    }
}

/// What a span renders to in a scope at an indent.
pub open spec fn rendered(
    span: Seq<InstructionView>,
    scope: Seq<BindingView>,
    indent: u16,
    t: TemplateView,
) -> Result<Seq<char>, TemplateErrorView>
    decreases scope_weight(scope), 2nat, 0nat,
{
    match render_prefix(span, span.len(), scope, indent, t) {
        Err(e) => Err(e),
        Ok(st) => Ok(st.text),
    }
}

/// What a variable expands to at an indent: a text stands for itself, a
/// type for what its rule renders to, fields and variants for their items,
/// joined.
pub open spec fn expansion(
    e: ExpanderView,
    indent: u16,
    opts: ExpandOptionsView,
    t: TemplateView,
) -> Result<Seq<char>, TemplateErrorView>
    decreases weight(e), 0nat, 0nat,
{
    match e {
        ExpanderView::Text(s) => Ok(s),
        ExpanderView::Type(TyKindView::Tuple(elements)) => tuple_text(
            elements,
            elements.len(),
            indent,
            opts,
            t,
        ),
        ExpanderView::Type(ty) => {
            proof {
                lemma_type_rule_weight(ty, t);
            }
            rendered(type_rule(ty, t).0, type_rule(ty, t).1, indent, t)
        },
        ExpanderView::Fields(fields) => match field_items(fields, fields.len(), indent, t) {
            Err(e) => Err(e),
            Ok(items) => Ok(joined(items, opts, indent)),
        },
        ExpanderView::Variants(variants) => match variant_items(
            variants,
            variants.len(),
            indent,
            t,
        ) {
            Err(e) => Err(e),
            Ok(items) => Ok(joined(items, opts, indent)),
        },
    }
}

/// What the first `n` types of a tuple render to, one behind the other.
pub open spec fn tuple_text(
    elements: Seq<TyKindView>,
    n: nat,
    indent: u16,
    opts: ExpandOptionsView,
    t: TemplateView,
) -> Result<Seq<char>, TemplateErrorView>
    decreases 1 + tuple_height(elements, elements.len()), 1nat, n,
{
    if n == 0 || n > elements.len() {
        Ok(Seq::empty())
    } else {
        match tuple_text(elements, (n - 1) as nat, indent, opts, t) {
            Err(e) => Err(e),
            Ok(head) => {
                proof {
                    lemma_tuple_height(elements, elements.len(), n - 1);
                }
                match expansion(ExpanderView::Type(elements[n - 1]), indent, opts, t) {
                    Err(e) => Err(e),
                    Ok(text) => Ok(head + text),
                }
            },
        }
    }
}

/// What the first `n` fields render to, each through the span for the
/// declaration of a field.
pub open spec fn field_items(
    fields: Seq<StructFieldView>,
    n: nat,
    indent: u16,
    t: TemplateView,
) -> Result<Seq<Seq<char>>, TemplateErrorView>
    decreases 1 + fields_height(fields, fields.len()), 3nat, n,
{
    if n == 0 || n > fields.len() {
        Ok(Seq::empty())
    } else {
        match field_items(fields, (n - 1) as nat, indent, t) {
            Err(e) => Err(e),
            Ok(items) => {
                proof {
                    lemma_field_scope_weight(fields, n - 1);
                }
                match rendered(t.field_body, field_scope(fields[n - 1]), indent, t) {
                    Err(e) => Err(e),
                    Ok(text) => Ok(items.push(text)),
                }
            },
        }
    }
}

/// What the first `n` variants render to, each through the span for one
/// variant.
pub open spec fn variant_items(
    variants: Seq<EnumVariantView>,
    n: nat,
    indent: u16,
    t: TemplateView,
) -> Result<Seq<Seq<char>>, TemplateErrorView>
    decreases 0nat, 3nat, n,
{
    if n == 0 || n > variants.len() {
        Ok(Seq::empty())
    } else {
        match variant_items(variants, (n - 1) as nat, indent, t) {
            Err(e) => Err(e),
            Ok(items) => {
                proof {
                    lemma_variant_scope_weight(variants[n - 1]);
                }
                match rendered(t.enum_variant, variant_scope(variants[n - 1]), indent, t) {
                    Err(e) => Err(e),
                    Ok(text) => Ok(items.push(text)),
                }
            },
        }
    }
}

/// Collects the text that a replay emits.
pub struct SpanWriter {
    inner: String,
}

impl View for SpanWriter {
    type V = Seq<char>;

    closed spec fn view(&self) -> Seq<char> {
        self.inner@
    }
}

impl SpanWriter {
    /// A writer that goes on behind the text of `dest`.
    pub fn new(dest: String) -> (writer: Self)
        ensures
            writer@ == dest@,
    {
        Self { inner: dest }
    }

    /// Emits one character.
    pub fn write_char(&mut self, c: char)
        ensures
            final(self)@ == old(self)@.push(c),
    {
        self.inner.push(c);
    }

    /// Emits a text.
    pub fn write_str(&mut self, s: &str)
        ensures
            final(self)@ == old(self)@ + s@,
    {
        self.inner.append(s);
    }

    /// Emits `size` blanks.
    pub fn do_indent(&mut self, size: u16)
        ensures
            final(self)@ == old(self)@ + spaces(size as nat),
    {
        let mut i: u16 = 0;
        while i < size
            invariant
                i <= size,
                self@ == old(self)@ + spaces(i as nat),
            decreases size - i,
        {
            self.write_char(' ');
            assert(spaces((i + 1) as nat) =~= spaces(i as nat).push(' '));
            i += 1;
        }
    }

    /// The text that has been collected.
    pub fn into_inner(self) -> (text: String)
        ensures
            text@ == self@,
    {
        self.inner
    }
}

/// Emits the items of a repeated variable: between two items the delimiter,
/// if there is one, and, unless the items are to stay on one line, a line
/// break and the indent; behind the last item the delimiter again, if that
/// is asked for.
pub fn newline_delimeters(
    dest: &mut SpanWriter,
    items: &Vec<String>,
    opts: &ExpandOptions,
    indent: u16,
)
    ensures
        final(dest)@ == old(dest)@ + joined(crate::items::text_views(items@), opts@, indent),
{
    let ghost texts = crate::items::text_views(items@);
    let ghost sep = separator(opts@, indent);
    let mut i: usize = 0;
    while i < items.len()
        invariant
            i <= items.len(),
            texts == crate::items::text_views(items@),
            sep == separator(opts@, indent),
            dest@ == old(dest)@ + joined_items(texts, i as nat, sep),
        decreases items.len() - i,
    {
        let ghost before = dest@;
        if i > 0 {
            if let Some(delim) = &opts.delimeter {
                dest.write_str(delim.as_str());
            }
            if !opts.inline {
                dest.write_char('\n');
                dest.do_indent(indent);
            }
            assert(dest@ =~= before + sep);
        }
        dest.write_str(items[i].as_str());
        assert(texts[i as int] == items@[i as int]@);
        assert(dest@ =~= old(dest)@ + joined_items(texts, (i + 1) as nat, sep));
        i += 1;
    }
    let ghost before = dest@;
    if opts.trailing {
        if let Some(delim) = &opts.delimeter {
            dest.write_str(delim.as_str());
        }
    }
    assert(dest@ =~= before + trailer(opts@));
}

/// Writes the decimal digit for `d`.
fn digit_to_char(d: u64) -> (c: char)
    requires
        d < 10,
    ensures
        c == digit_char(d as nat),
{
    (48u8 + d as u8) as char
}

/// An integer in decimal notation.
pub fn int_text(v: i32) -> (text: String)
    ensures
        text@ == decimal(v as int),
{
    let wide: i64 = v as i64;
    let magnitude: u64 = if wide < 0 {
        (-wide) as u64
    } else {
        wide as u64
    };
    // The digits from the last to the first.
    let mut backwards: Vec<char> = Vec::new();
    let mut n: u64 = magnitude;
    while n >= 10
        invariant
            digits(magnitude as nat) == digits(n as nat) + backwards@.reverse(),
        decreases n,
    {
        let ghost before = backwards@;
        let d = digit_to_char(n % 10);
        backwards.push(d);
        assert(backwards@.reverse() =~= seq![d] + before.reverse());
        assert(digits(n as nat) + before.reverse() =~= digits((n / 10) as nat) + backwards@.reverse());
        n = n / 10;
    }
    let mut text = String::new();
    if wide < 0 {
        text.push('-');
    }
    text.push(digit_to_char(n));
    let ghost head = text@;
    let mut k: usize = backwards.len();
    while k > 0
        invariant
            k <= backwards.len(),
            text@ == head + backwards@.reverse().take(backwards.len() - k),
        decreases k,
    {
        text.push(backwards[k - 1]);
        assert(backwards@.reverse().take(backwards.len() - k + 1) =~= backwards@.reverse().take(
            backwards.len() - k,
        ).push(backwards@[k - 1]));
        k -= 1;
    }
    assert(backwards@.reverse().take(backwards.len() as int) =~= backwards@.reverse());
    assert(text@ =~= decimal(v as int));
    text
}

/// The value of a text that may have failed to render.
pub open spec fn text_result_view(r: Result<String, TemplateError>) -> Result<
    Seq<char>,
    TemplateErrorView,
> {
    match r {
        Ok(text) => Ok(text@),
        Err(e) => Err(e@),
    }
}

/// A replay that has failed stays failed, with the same error.
pub proof fn lemma_render_error_stays(
    span: Seq<InstructionView>,
    n: nat,
    m: nat,
    scope: Seq<BindingView>,
    indent: u16,
    t: TemplateView,
)
    requires
        n <= m <= span.len(),
        render_prefix(span, n, scope, indent, t) is Err,
    ensures
        render_prefix(span, m, scope, indent, t) == render_prefix(span, n, scope, indent, t),
    decreases m,
{
    if n < m {
        lemma_render_error_stays(span, n, (m - 1) as nat, scope, indent, t);
    }
}

/// Renders a span in a scope: replays its instructions in order. A line
/// break is followed by `indent` blanks; a variable expands at `indent`
/// plus the indent of its line.
pub fn render_text(span: &TemplateSpan, scope: &Scope, indent: u16, template: &Template) -> (r:
    Result<String, TemplateError>)
    ensures
        text_result_view(r) == rendered(span@, scope@, indent, template@),
    decreases scope_weight(scope@), 2nat, 0nat,
{
    let mut writer = SpanWriter::new(String::new());
    let mut current_line_indent: u16 = 0;
    let mut i: usize = 0;
    assert(writer@ =~= Seq::empty());
    while i < span.instructions.len()
        invariant
            i <= span.instructions.len(),
            span@.len() == span.instructions.len(),
            render_prefix(span@, i as nat, scope@, indent, template@) == Ok::<
                _,
                TemplateErrorView,
            >(RenderState { text: writer@, line_indent: current_line_indent }),
        decreases span.instructions.len() - i,
    {
        assert(span@[i as int] == span.instructions@[i as int]@);
        let ghost before = writer@;
        match &span.instructions[i] {
            Instruction::Newline => {
                writer.write_char('\n');
                current_line_indent = 0;
                writer.do_indent(indent);
                assert(writer@ =~= before + seq!['\n'] + spaces(indent as nat));
            },
            Instruction::Indent(size) => {
                let size = *size;
                current_line_indent = size;
                writer.do_indent(size);
            },
            Instruction::Literal(val) => {
                writer.write_str(val.as_str());
            },
            Instruction::Expand { var, opts } => {
                let expander = match scope.get_expander(var.as_str()) {
                    Ok(e) => e,
                    Err(e) => {
                        proof {
                            lemma_render_error_stays(
                                span@,
                                (i + 1) as nat,
                                span@.len(),
                                scope@,
                                indent,
                                template@,
                            );
                        }
                        return Err(e);
                    },
                };
                if current_line_indent > u16::MAX - indent {
                    proof {
                        lemma_render_error_stays(
                            span@,
                            (i + 1) as nat,
                            span@.len(),
                            scope@,
                            indent,
                            template@,
                        );
                    }
                    return Err(TemplateError::IndentOverflow);
                }
                proof {
                    lemma_lookup_weight(scope@, var@);
                }
                match expand_entry(&expander, indent + current_line_indent, opts, template) {
                    Ok(text) => {
                        writer.write_str(text.as_str());
                    },
                    Err(e) => {
                        proof {
                            lemma_render_error_stays(
                                span@,
                                (i + 1) as nat,
                                span@.len(),
                                scope@,
                                indent,
                                template@,
                            );
                        }
                        return Err(e);
                    },
                }
            },
        }
        i += 1;
    }
    Ok(writer.into_inner())
}

/// Renders a span in a scope and emits the text to `dest`. Where the span
/// cannot be rendered, nothing is emitted.
pub fn render_span(
    span: &TemplateSpan,
    dest: &mut SpanWriter,
    scope: Scope,
    indent: u16,
    template: &Template,
) -> (r: Result<(), TemplateError>)
    ensures
        match r {
            Ok(()) => rendered(span@, scope@, indent, template@) matches Ok(text) && final(dest)@
                == old(dest)@ + text,
            Err(e) => rendered(span@, scope@, indent, template@) == Err::<Seq<char>, _>(e@)
                && final(dest)@ == old(dest)@,
        },
{
    match render_text(span, &scope, indent, template) {
        Ok(text) => {
            dest.write_str(text.as_str());
            Ok(())
        },
        Err(e) => Err(e),
    }
}

impl TemplateSpan {
    /// Renders the span in a scope and emits the text to `dest`, as
    /// [`render_span`] does.
    pub fn print(
        &self,
        base_indent: u16,
        dest: &mut SpanWriter,
        scope: Scope,
        template: &Template,
    ) -> (r: Result<(), TemplateError>)
        ensures
            match r {
                Ok(()) => rendered(self@, scope@, base_indent, template@) matches Ok(text)
                    && final(dest)@ == old(dest)@ + text,
                Err(e) => rendered(self@, scope@, base_indent, template@) == Err::<Seq<char>, _>(
                    e@,
                ) && final(dest)@ == old(dest)@,
            },
    {
        render_span(self, dest, scope, base_indent, template)
    }
}

} // verus!
