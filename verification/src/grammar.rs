//! What a stream of tokens parses to: the schema grammar as functions on the
//! state of a parser.
//!
//! The parser never stops at an error. Each function here takes the state
//! before a piece of syntax and gives the state behind it, with the errors
//! that the piece added.

use vstd::prelude::*;
use crate::items::{
    EnumDefinitionView, EnumVariantValueView, EnumVariantView, PrimitiveType, ProgramView,
    StructDefinitionView, StructFieldView, TyKindView,
};
use crate::lexer::{stream_head, stream_tail};
use crate::text::index_of;
use crate::token::{init_token, TokenKindView, TokenView};

verus! {

/// The mathematical value of a parse error.
pub enum ParseErrorView {
    UnexpectedToken { expected: Option<TokenKindView>, found: TokenView },
    Custom(Seq<char>),
    RecursiveType(Seq<char>),
    UnknownType(Seq<char>),
    InvalidUdt(Seq<char>),
    RedefinedType(Seq<char>),
}

/// Everything a parser knows at one point of its work.
pub struct ParseState {
    /// The token that was consumed last.
    pub current: TokenView,
    /// The tokens still to come; the first of them is the lookahead.
    pub tokens: Seq<TokenView>,
    /// The token that the stream hands out once `tokens` is used up.
    pub end: TokenView,
    /// The errors found so far, in the order in which they were found.
    pub errors: Seq<ParseErrorView>,
    /// The structs declared so far, each name once, in the order in which
    /// the names were first declared.
    pub structs: Seq<StructDefinitionView>,
    /// The enums declared so far, each name once, in the order in which the
    /// names were first declared.
    pub enums: Seq<EnumDefinitionView>,
    /// The names that were used as a type and are not declared yet, each
    /// once, in the order in which they were first used.
    pub pending: Seq<Seq<char>>,
}

/// The state of a parser that has read nothing of a stream.
pub open spec fn initial_state(tokens: Seq<TokenView>, end: TokenView) -> ParseState {
    ParseState {
        current: init_token(),
        tokens,
        end,
        errors: Seq::empty(),
        structs: Seq::empty(),
        enums: Seq::empty(),
        pending: Seq::empty(),
    }
}

/// The token that will be consumed next.
pub open spec fn lookahead(s: ParseState) -> TokenView {
    stream_head(s.tokens, s.end)
}

/// Whether the lookahead is a token of kind `kind`. Behind the last token
/// of the stream there is only `Eof`.
pub open spec fn lookahead_is(s: ParseState, kind: TokenKindView) -> bool {
    if s.tokens.len() > 0 {
        s.tokens[0].kind == kind
    } else {
        kind is Eof
    }
}

/// The state after the lookahead has been consumed.
pub open spec fn consume(s: ParseState) -> ParseState {
    ParseState { current: lookahead(s), tokens: stream_tail(s.tokens), ..s }
}

/// The kind of the token that `consume` makes current.
pub open spec fn consumed_kind(s: ParseState) -> TokenKindView {
    if s.tokens.len() > 0 {
        s.tokens[0].kind
    } else {
        TokenKindView::Eof
    }
}

/// The state with one more error.
pub open spec fn with_error(s: ParseState, e: ParseErrorView) -> ParseState {
    ParseState { errors: s.errors.push(e), ..s }
}

/// The state with the complaint that the current token is not what was
/// expected.
pub open spec fn syntax_error(s: ParseState, expected: Option<TokenKindView>) -> ParseState {
    with_error(s, ParseErrorView::UnexpectedToken { expected, found: s.current })
}

/// Consumes one token, which should be of kind `expected`.
pub open spec fn expect(s: ParseState, expected: TokenKindView) -> ParseState {
    if consumed_kind(s) == expected {
        consume(s)
    } else {
        syntax_error(consume(s), Some(expected))
    }
}

/// Consumes one token, which should be an identifier, and gives its text;
/// for any other token, an error and the empty text.
pub open spec fn parse_ident(s: ParseState) -> (ParseState, Seq<char>) {
    match consumed_kind(s) {
        TokenKindView::Identifier(name) => (consume(s), name),
        _ => (
            syntax_error(consume(s), Some(TokenKindView::Identifier(Seq::empty()))),
            Seq::empty(),
        ),
    }
}

/// The primitive type that a name stands for, if any.
pub open spec fn primitive_of(name: Seq<char>) -> Option<PrimitiveType> {
    if name == "string"@ {
        Some(PrimitiveType::String)
    } else if name == "int"@ {
        Some(PrimitiveType::Int)
    } else if name == "float"@ {
        Some(PrimitiveType::Float)
    } else if name == "bool"@ {
        Some(PrimitiveType::Bool)
    } else {
        None
    }
}

/// Whether a name is kept for the language and cannot name a struct or an
/// enum.
pub open spec fn reserved_name(name: Seq<char>) -> bool {
    name == "struct"@ || name == "string"@ || name == "int"@ || name == "float"@ || name
        == "bool"@
}

/// The names of the structs, in order.
pub open spec fn struct_names(structs: Seq<StructDefinitionView>) -> Seq<Seq<char>> {
    structs.map_values(|d: StructDefinitionView| d.name)
}

/// The names of the enums, in order.
pub open spec fn enum_names(enums: Seq<EnumDefinitionView>) -> Seq<Seq<char>> {
    enums.map_values(|d: EnumDefinitionView| d.name)
}

/// Whether a struct or an enum of that name has been declared.
pub open spec fn is_defined(s: ParseState, name: Seq<char>) -> bool {
    struct_names(s.structs).contains(name) || enum_names(s.enums).contains(name)
}

/// The pending names with `name` among them.
pub open spec fn add_pending(pending: Seq<Seq<char>>, name: Seq<char>) -> Seq<Seq<char>> {
    if pending.contains(name) {
        pending
    } else {
        pending.push(name)
    }
}

/// The pending names without `name`.
pub open spec fn remove_pending(pending: Seq<Seq<char>>, name: Seq<char>) -> Seq<Seq<char>> {
    let i = index_of(pending, name);
    if i < pending.len() {
        pending.remove(i as int)
    } else {
        pending
    }
}

/// The structs with `def` among them: in the place of the struct of the
/// same name if there is one, else at the end.
pub open spec fn put_struct(
    structs: Seq<StructDefinitionView>,
    def: StructDefinitionView,
) -> Seq<StructDefinitionView> {
    let i = index_of(struct_names(structs), def.name);
    if i < structs.len() {
        structs.update(i as int, def)
    } else {
        structs.push(def)
    }
}

/// The enums with `def` among them: in the place of the enum of the same
/// name if there is one, else at the end.
pub open spec fn put_enum(
    enums: Seq<EnumDefinitionView>,
    def: EnumDefinitionView,
) -> Seq<EnumDefinitionView> {
    let i = index_of(enum_names(enums), def.name);
    if i < enums.len() {
        enums.update(i as int, def)
    } else {
        enums.push(def)
    }
}

/// Parses the type that a bare name stands for: a primitive type, or a
/// struct or enum of that name, which is noted as pending unless it has
/// been declared.
pub open spec fn parse_named_type(s: ParseState) -> (ParseState, TyKindView) {
    let (s1, name) = parse_ident(s);
    match primitive_of(name) {
        Some(p) => (s1, TyKindView::Primitive(p)),
        None => (
            if is_defined(s1, name) {
                s1
            } else {
                ParseState { pending: add_pending(s1.pending, name), ..s1 }
            },
            TyKindView::UserDefined(name),
        ),
    }
}

/// Parses a type without a trailing `?`: `<T>`, `[T]` or a name.
pub open spec fn parse_inner_type(s: ParseState) -> (ParseState, TyKindView)
    decreases s.tokens.len(), 0nat,
{
    if s.tokens.len() > 0 && s.tokens[0].kind is AngleLeft {
        let (s1, inner) = parse_type(consume(s));
        (expect(s1, TokenKindView::AngleRight), TyKindView::MapOf(Box::new(inner)))
    } else if s.tokens.len() > 0 && s.tokens[0].kind is SquareLeft {
        let (s1, inner) = parse_type(consume(s));
        (expect(s1, TokenKindView::SquareRight), TyKindView::Array(Box::new(inner)))
    } else {
        parse_named_type(s)
    }
}

/// Parses a type: `<T>`, `[T]` or a name, and a `?` behind it if there is one.
pub open spec fn parse_type(s: ParseState) -> (ParseState, TyKindView)
    decreases s.tokens.len(), 1nat,
{
    let (s1, ty) = parse_inner_type(s);
    if lookahead_is(s1, TokenKindView::QuestionMark) {
        (consume(s1), TyKindView::Nullable(Box::new(ty)))
    } else {
        (s1, ty)
    }
}

/// Whether a field of type `ty` makes the struct `parent` contain itself
/// directly.
pub open spec fn recursive_type(parent: Seq<char>, ty: TyKindView) -> bool {
    ty == TyKindView::UserDefined(parent)
}

/// Parsing a type never puts tokens back.
pub proof fn lemma_parse_type_shrinks(s: ParseState)
    ensures
        parse_type(s).0.tokens.len() <= s.tokens.len(),
        parse_inner_type(s).0.tokens.len() <= s.tokens.len(),
        parse_type(s).0.end == s.end,
        parse_inner_type(s).0.end == s.end,
    decreases s.tokens.len(),
{
    if s.tokens.len() > 0 && (s.tokens[0].kind is AngleLeft || s.tokens[0].kind is SquareLeft) {
        lemma_parse_type_shrinks(consume(s));
    }
}

/// Parses the fields of the struct `name` up to the closing brace, which it
/// leaves. A field whose type is the struct itself is reported and left
/// out.
pub open spec fn parse_fields(
    s: ParseState,
    name: Seq<char>,
    fields: Seq<StructFieldView>,
) -> (ParseState, Seq<StructFieldView>)
    decreases s.tokens.len(),
{
    if lookahead_is(s, TokenKindView::BraceRight) {
        (s, fields)
    } else {
        let (s1, field_name) = parse_ident(s);
        let s2 = expect(s1, TokenKindView::Colon);
        let (s3, ty) = parse_type(s2);
        proof {
            lemma_parse_type_shrinks(s2);
        }
        if recursive_type(name, ty) {
            let s4 = with_error(s3, ParseErrorView::RecursiveType(name));
            if lookahead_is(s4, TokenKindView::Eof) {
                (s4, fields)
            } else {
                parse_fields(s4, name, fields)
            }
        } else {
            let more = fields.push(StructFieldView { datatype: ty, name: field_name });
            if lookahead_is(s3, TokenKindView::Comma) {
                parse_fields(consume(s3), name, more)
            } else {
                (s3, more)
            }
        }
    }
}

/// Parsing fields never puts tokens back.
pub proof fn lemma_parse_fields_shrinks(
    s: ParseState,
    name: Seq<char>,
    fields: Seq<StructFieldView>,
)
    ensures
        parse_fields(s, name, fields).0.tokens.len() <= s.tokens.len(),
        parse_fields(s, name, fields).0.end == s.end,
    decreases s.tokens.len(),
{
    if !lookahead_is(s, TokenKindView::BraceRight) {
        let (s1, field_name) = parse_ident(s);
        let s2 = expect(s1, TokenKindView::Colon);
        let (s3, ty) = parse_type(s2);
        lemma_parse_type_shrinks(s2);
        if recursive_type(name, ty) {
            let s4 = with_error(s3, ParseErrorView::RecursiveType(name));
            if !lookahead_is(s4, TokenKindView::Eof) {
                lemma_parse_fields_shrinks(s4, name, fields);
            }
        } else {
            let more = fields.push(StructFieldView { datatype: ty, name: field_name });
            if lookahead_is(s3, TokenKindView::Comma) {
                lemma_parse_fields_shrinks(consume(s3), name, more);
            }
        }
    }
}

/// The state with the complaint that fits a new declaration's name, if one
/// does: the name is reserved, or it is declared already.
pub open spec fn check_name(s: ParseState, name: Seq<char>) -> ParseState {
    if reserved_name(name) {
        with_error(s, ParseErrorView::InvalidUdt(name))
    } else if is_defined(s, name) {
        with_error(s, ParseErrorView::RedefinedType(name))
    } else {
        s
    }
}

/// Parses a struct declaration behind its keyword.
pub open spec fn parse_struct(s: ParseState) -> ParseState {
    let (s1, name) = parse_ident(s);
    let s2 = check_name(s1, name);
    let s3 = expect(s2, TokenKindView::BraceLeft);
    let (s4, fields) = parse_fields(s3, name, Seq::empty());
    let s5 = expect(s4, TokenKindView::BraceRight);
    ParseState {
        pending: remove_pending(s5.pending, name),
        structs: put_struct(s5.structs, StructDefinitionView { name, fields }),
        ..s5
    }
}

/// What the variants seen so far have settled about those that follow.
pub struct EnumProgress {
    /// The value that the next variant without a value of its own gets.
    pub next_value: i32,
    /// Whether the enum holds integers.
    pub is_int: bool,
    /// Whether a variant has been seen.
    pub decided: bool,
}

/// Parses the value of one variant, from behind its name.
pub open spec fn parse_variant_value(s: ParseState, p: EnumProgress) -> (
    ParseState,
    EnumProgress,
    EnumVariantValueView,
) {
    let zero = EnumVariantValueView::Int(0);
    if lookahead_is(s, TokenKindView::Equal) {
        let s1 = consume(s);
        match consumed_kind(s1) {
            TokenKindView::StringLiteral(val) => {
                if p.decided && p.is_int {
                    (
                        with_error(
                            consume(s1),
                            ParseErrorView::Custom("Expected an int, found string"@),
                        ),
                        p,
                        zero,
                    )
                } else {
                    (
                        consume(s1),
                        EnumProgress { is_int: false, ..p },
                        EnumVariantValueView::String(val),
                    )
                }
            },
            TokenKindView::IntLiteral(val) => {
                if p.decided && !p.is_int {
                    (
                        with_error(
                            consume(s1),
                            ParseErrorView::Custom("Expected a string, found int"@),
                        ),
                        p,
                        zero,
                    )
                } else {
                    (
                        consume(s1),
                        EnumProgress { next_value: val.wrapping_add(1), ..p },
                        EnumVariantValueView::Int(val),
                    )
                }
            },
            _ => (syntax_error(s1, None), p, zero),
        }
    } else if !p.decided || p.is_int {
        (
            s,
            EnumProgress { next_value: p.next_value.wrapping_add(1), ..p },
            EnumVariantValueView::Int(p.next_value),
        )
    } else {
        (with_error(s, ParseErrorView::Custom("Expected a string"@)), p, zero)
    }
}

/// Parses the variants of an enum up to the closing brace, which it leaves.
pub open spec fn parse_variants(
    s: ParseState,
    p: EnumProgress,
    variants: Seq<EnumVariantView>,
) -> (ParseState, Seq<EnumVariantView>)
    decreases s.tokens.len(),
{
    if lookahead_is(s, TokenKindView::BraceRight) {
        (s, variants)
    } else {
        let (s1, name) = parse_ident(s);
        let (s2, settled, value) = parse_variant_value(s1, p);
        let more = variants.push(EnumVariantView { name, value });
        if lookahead_is(s2, TokenKindView::Comma) {
            parse_variants(consume(s2), EnumProgress { decided: true, ..settled }, more)
        } else {
            (s2, more)
        }
    }
}

/// Parsing variants never puts tokens back.
pub proof fn lemma_parse_variants_shrinks(
    s: ParseState,
    p: EnumProgress,
    variants: Seq<EnumVariantView>,
)
    ensures
        parse_variants(s, p, variants).0.tokens.len() <= s.tokens.len(),
        parse_variants(s, p, variants).0.end == s.end,
    decreases s.tokens.len(),
{
    if !lookahead_is(s, TokenKindView::BraceRight) {
        let (s1, name) = parse_ident(s);
        let (s2, settled, value) = parse_variant_value(s1, p);
        let more = variants.push(EnumVariantView { name, value });
        if lookahead_is(s2, TokenKindView::Comma) {
            lemma_parse_variants_shrinks(consume(s2), EnumProgress { decided: true, ..settled }, more);
        }
    }
}

/// Parses an enum declaration behind its keyword.
pub open spec fn parse_enum(s: ParseState) -> ParseState {
    let (s1, name) = parse_ident(s);
    let s2 = check_name(s1, name);
    let s3 = expect(s2, TokenKindView::BraceLeft);
    let (s4, variants) = parse_variants(
        s3,
        EnumProgress { next_value: 0, is_int: true, decided: false },
        Seq::empty(),
    );
    let s5 = expect(s4, TokenKindView::BraceRight);
    ParseState {
        pending: remove_pending(s5.pending, name),
        enums: put_enum(s5.enums, EnumDefinitionView { name, variants }),
        ..s5
    }
}

/// Parses declarations up to the end of the stream. A token that starts no
/// declaration is reported and passed over.
pub open spec fn parse_declarations(s: ParseState) -> ParseState
    decreases s.tokens.len(),
{
    let s1 = consume(s);
    match consumed_kind(s) {
        TokenKindView::Eof => s1,
        TokenKindView::Struct => {
            proof {
                lemma_parse_fields_shrinks(
                    expect(check_name(parse_ident(s1).0, parse_ident(s1).1), TokenKindView::BraceLeft),
                    parse_ident(s1).1,
                    Seq::empty(),
                );
            }
            parse_declarations(parse_struct(s1))
        },
        TokenKindView::Enum => {
            proof {
                lemma_parse_variants_shrinks(
                    expect(check_name(parse_ident(s1).0, parse_ident(s1).1), TokenKindView::BraceLeft),
                    EnumProgress { next_value: 0, is_int: true, decided: false },
                    Seq::empty(),
                );
            }
            parse_declarations(parse_enum(s1))
        },
        _ => parse_declarations(syntax_error(s1, None)),
    }
}

/// The errors of a finished parse: those found on the way, then one for
/// each name that was used as a type and never declared.
pub open spec fn final_errors(s: ParseState) -> Seq<ParseErrorView> {
    s.errors + s.pending.map_values(|name: Seq<char>| ParseErrorView::UnknownType(name))
}

/// What a finished parse hands back: the program, or the errors if there
/// are any.
pub open spec fn outcome(s: ParseState) -> Result<ProgramView, Seq<ParseErrorView>> {
    if final_errors(s).len() > 0 {
        Err(final_errors(s))
    } else {
        Ok(ProgramView { structs: s.structs, enums: s.enums })
    }
}

/// What a stream of tokens parses to.
pub open spec fn parse_tokens(tokens: Seq<TokenView>, end: TokenView) -> Result<
    ProgramView,
    Seq<ParseErrorView>,
> {
    outcome(parse_declarations(initial_state(tokens, end)))
}

} // verus!
