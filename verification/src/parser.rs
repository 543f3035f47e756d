//! The parser: builds the program model from a stream of tokens and checks
//! it on the way.

use vstd::prelude::*;
use vstd::string::StringExecFns;
use crate::grammar;
use crate::grammar::{ParseErrorView, ParseState};
use crate::items::{
    enum_views, field_views, struct_views, text_views, variant_views, EnumDefinition,
    EnumVariant, EnumVariantValue, PrimitiveType, Program, StructDefinition, StructField,
    TyKind,
};
use crate::lexer::{
    max_input_len, repeated_eof, start_state, stream_head, stream_tail, token_run, ForserFile,
    Lexer, TokenStream,
};
use crate::text::{index_of, lemma_contains_index_of, lemma_index_of, same_text};
use crate::validation::{
    kept, lemma_initial_state_kept, lemma_outcome_is_valid, lemma_parse_declarations_kept,
    valid_program,
};
use crate::token::{Token, TokenKind, TokenKindView, TokenView};

verus! {

/// What can be wrong with a schema.
#[derive(Debug, Clone, PartialEq, Eq)]
pub enum ParseError {
    /// A token stands where another was expected.
    UnexpectedToken { expected: Option<TokenKind>, found: Token },
    /// A complaint in words.
    Custom(String),
    /// A struct has a field of its own type.
    RecursiveType(String),
    /// A name is used as a type and declared nowhere.
    UnknownType(String),
    /// A reserved word is used as the name of a struct or an enum.
    InvalidUdt(String),
    /// A name is declared twice.
    RedefinedType(String),
}

/// The value of a token kind that may be absent.
pub open spec fn kind_view(kind: Option<TokenKind>) -> Option<TokenKindView> {
    match kind {
        Some(k) => Some(k@),
        None => None,
    }
}

impl View for ParseError {
    type V = ParseErrorView;

    open spec fn view(&self) -> ParseErrorView {
        match self {
            ParseError::UnexpectedToken { expected, found } => ParseErrorView::UnexpectedToken {
                expected: kind_view(*expected),
                found: found@,
            },
            ParseError::Custom(s) => ParseErrorView::Custom(s@),
            ParseError::RecursiveType(s) => ParseErrorView::RecursiveType(s@),
            ParseError::UnknownType(s) => ParseErrorView::UnknownType(s@),
            ParseError::InvalidUdt(s) => ParseErrorView::InvalidUdt(s@),
            ParseError::RedefinedType(s) => ParseErrorView::RedefinedType(s@),
        }
    }
}

/// The values of a sequence of errors.
pub open spec fn error_views(errors: Seq<ParseError>) -> Seq<ParseErrorView> {
    errors.map_values(|e: ParseError| e@)
}

/// The value of a parse result.
pub open spec fn result_view(r: Result<Program, Vec<ParseError>>) -> Result<
    crate::items::ProgramView,
    Seq<ParseErrorView>,
> {
    match r {
        Ok(program) => Ok(program@),
        Err(errors) => Err(error_views(errors@)),
    }
}

/// Whether a field of type `ty` makes the struct `parent` contain itself
/// directly: the type is the struct's own name and nothing around it.
pub fn ty_recursive(parent: &str, ty: &TyKind) -> (r: bool)
    ensures
        r == grammar::recursive_type(parent@, ty@),
{
    match ty {
        TyKind::UserDefined(udt) => same_text(parent, udt.as_str()),
        TyKind::Primitive(_) => false,
        TyKind::Array(_) => false,
        TyKind::Nullable(_) => false,
        TyKind::MapOf(_) => false,
        TyKind::Tuple(_) => false,
    }
}

/// Whether `name` is free for a struct or an enum to take: `false` for the
/// words that the language keeps for itself, `true` for every other name.
pub fn is_reserved(name: &str) -> (r: bool)
    ensures
        r == !grammar::reserved_name(name@),
{
    !(same_text(name, "struct") || same_text(name, "string") || same_text(name, "int")
        || same_text(name, "float") || same_text(name, "bool"))
}

/// The primitive type that `name` stands for, if any.
pub fn primitive_type(name: &str) -> (r: Option<PrimitiveType>)
    ensures
        r == grammar::primitive_of(name@),
{
    if same_text(name, "string") {
        Some(PrimitiveType::String)
    } else if same_text(name, "int") {
        Some(PrimitiveType::Int)
    } else if same_text(name, "float") {
        Some(PrimitiveType::Float)
    } else if same_text(name, "bool") {
        Some(PrimitiveType::Bool)
    } else {
        None
    }
}

/// Finds the struct called `name`: its index, or the number of structs if
/// there is none.
fn find_struct(structs: &Vec<StructDefinition>, name: &str) -> (i: usize)
    ensures
        i == index_of(grammar::struct_names(struct_views(structs@)), name@),
        i <= structs.len(),
{
    let ghost names = grammar::struct_names(struct_views(structs@));
    let mut i: usize = 0;
    while i < structs.len()
        invariant
            i <= structs.len(),
            names == grammar::struct_names(struct_views(structs@)),
            forall|j: int| 0 <= j < i ==> names[j] != name@,
        decreases structs.len() - i,
    {
        if same_text(structs[i].name.as_str(), name) {
            proof {
                lemma_index_of(names, name@, i as int);
            }
            return i;
        }
        i += 1;
    }
    proof {
        lemma_index_of(names, name@, i as int);
    }
    i
}

/// Finds the enum called `name`: its index, or the number of enums if there
/// is none.
fn find_enum(enums: &Vec<EnumDefinition>, name: &str) -> (i: usize)
    ensures
        i == index_of(grammar::enum_names(enum_views(enums@)), name@),
        i <= enums.len(),
{
    let ghost names = grammar::enum_names(enum_views(enums@));
    let mut i: usize = 0;
    while i < enums.len()
        invariant
            i <= enums.len(),
            names == grammar::enum_names(enum_views(enums@)),
            forall|j: int| 0 <= j < i ==> names[j] != name@,
        decreases enums.len() - i,
    {
        if same_text(enums[i].name.as_str(), name) {
            proof {
                lemma_index_of(names, name@, i as int);
            }
            return i;
        }
        i += 1;
    }
    proof {
        lemma_index_of(names, name@, i as int);
    }
    i
}

/// Finds `name` among `names`: its index, or the number of names if it is
/// not there.
fn find_text(names: &Vec<String>, name: &str) -> (i: usize)
    ensures
        i == index_of(text_views(names@), name@),
        i <= names.len(),
{
    let ghost views = text_views(names@);
    let mut i: usize = 0;
    while i < names.len()
        invariant
            i <= names.len(),
            views == text_views(names@),
            forall|j: int| 0 <= j < i ==> views[j] != name@,
        decreases names.len() - i,
    {
        if same_text(names[i].as_str(), name) {
            proof {
                lemma_index_of(views, name@, i as int);
            }
            return i;
        }
        i += 1;
    }
    proof {
        lemma_index_of(views, name@, i as int);
    }
    i
}

/// A recursive-descent parser with one token of lookahead.
pub struct Parser<L> {
    lexer: L,
    current: Token,
    next: Token,
    errors: Vec<ParseError>,
    // Items
    structs: Vec<StructDefinition>,
    enums: Vec<EnumDefinition>,
    // Validation
    /// User defined types that were used and are yet to be found.
    pending_types: Vec<String>,
    /// The tokens still to come, the lookahead first.
    upcoming: Ghost<Seq<TokenView>>,
}

impl<L: TokenStream> Parser<L> {
    /// Everything the parser knows at this point.
    pub closed spec fn model(&self) -> ParseState {
        ParseState {
            current: self.current@,
            tokens: self.upcoming@,
            end: self.lexer.end_token(),
            errors: error_views(self.errors@),
            structs: struct_views(self.structs@),
            enums: enum_views(self.enums@),
            pending: text_views(self.pending_types@),
        }
    }

    /// The lookahead is the head of the tokens still to come, and the stream
    /// holds the rest.
    pub closed spec fn linked(&self) -> bool {
        &&& self.lexer.well_formed()
        &&& self.lexer.end_token().kind is Eof
        &&& self.next@ == stream_head(self.upcoming@, self.lexer.end_token())
        &&& self.lexer.tokens() == stream_tail(self.upcoming@)
    }

    /// The parser is linked to its stream, and what it has declared so far
    /// is in order: every name stands once, and no struct holds a field of
    /// its own type.
    pub open spec fn wf(&self) -> bool {
        self.linked() && kept(self.model())
    }

    /// A parser at the start of a stream.
    pub fn new(lexer: L) -> (parser: Self)
        requires
            lexer.well_formed(),
        ensures
            parser.wf(),
            parser.model() == grammar::initial_state(lexer.tokens(), lexer.end_token()),
    {
        proof {
            lemma_initial_state_kept(lexer.tokens(), lexer.end_token());
        }
        let mut lexer = lexer;
        let ghost upcoming = lexer.tokens();
        proof {
            lexer.lemma_end_token();
        }
        let next = lexer.next_token();
        let parser = Self {
            current: Token::init(),
            next,
            lexer,
            errors: Vec::new(),
            structs: Vec::new(),
            enums: Vec::new(),
            pending_types: Vec::new(),
            upcoming: Ghost(upcoming),
        };
        assert(parser.model().errors =~= Seq::empty());
        assert(parser.model().structs =~= Seq::empty());
        assert(parser.model().enums =~= Seq::empty());
        assert(parser.model().pending =~= Seq::empty());
        parser
    }

    fn consume(&mut self)
        requires
            old(self).linked(),
        ensures
            final(self).linked(),
            final(self).model() == grammar::consume(old(self).model()),
    {
        let mut token = self.lexer.next_token();
        std::mem::swap(&mut self.next, &mut token);
        self.current = token;
        self.upcoming = Ghost(stream_tail(self.upcoming@));
    }

    fn push_error(&mut self, error: ParseError)
        requires
            old(self).linked(),
        ensures
            final(self).linked(),
            final(self).model() == grammar::with_error(old(self).model(), error@),
    {
        self.errors.push(error);
        assert(error_views(self.errors@) =~= error_views(old(self).errors@).push(error@));
    }

    fn syntax_error(&mut self, expected: Option<TokenKind>)
        requires
            old(self).linked(),
        ensures
            final(self).linked(),
            final(self).model() == grammar::syntax_error(old(self).model(), kind_view(expected)),
    {
        let found = self.current.duplicate();
        self.push_error(ParseError::UnexpectedToken { expected, found });
    }

    fn custom_error(&mut self, message: &str)
        requires
            old(self).linked(),
        ensures
            final(self).linked(),
            final(self).model() == grammar::with_error(
                old(self).model(),
                ParseErrorView::Custom(message@),
            ),
    {
        self.push_error(ParseError::Custom(String::from_str(message)));
    }

    fn consume_expected(&mut self, expected: TokenKind)
        requires
            old(self).linked(),
        ensures
            final(self).linked(),
            final(self).model() == grammar::expect(old(self).model(), expected@),
    {
        self.consume();
        if !expected.same(&self.current.kind) {
            self.syntax_error(Some(expected));
        }
    }

    fn parse_ident(&mut self) -> (name: String)
        requires
            old(self).linked(),
        ensures
            final(self).linked(),
            (final(self).model(), name@) == grammar::parse_ident(old(self).model()),
    {
        self.consume();
        match &self.current.kind {
            TokenKind::Identifier(ident) => ident.clone(),
            _ => {
                let name = String::new();
                self.syntax_error(Some(TokenKind::Identifier(String::new())));
                name
            },
        }
    }

    fn is_valid_udt(&self, name: &str) -> (r: bool)
        ensures
            r == grammar::is_defined(self.model(), name@),
    {
        proof {
            lemma_contains_index_of(grammar::struct_names(struct_views(self.structs@)), name@);
            lemma_contains_index_of(grammar::enum_names(enum_views(self.enums@)), name@);
        }
        find_struct(&self.structs, name) < self.structs.len() || find_enum(&self.enums, name)
            < self.enums.len()
    }

    fn next_is(&self, kind: &TokenKind) -> (r: bool)
        requires
            self.linked(),
        ensures
            r == grammar::lookahead_is(self.model(), kind@),
    {
        self.next.kind.same(kind)
    }

    fn add_pending(&mut self, name: &String)
        requires
            old(self).linked(),
        ensures
            final(self).linked(),
            final(self).model() == (ParseState {
                pending: grammar::add_pending(old(self).model().pending, name@),
                ..old(self).model()
            }),
    {
        proof {
            lemma_contains_index_of(text_views(self.pending_types@), name@);
        }
        if find_text(&self.pending_types, name.as_str()) == self.pending_types.len() {
            self.pending_types.push(name.clone());
            assert(text_views(self.pending_types@) =~= text_views(old(self).pending_types@).push(
                name@,
            ));
        }
    }

    fn remove_pending(&mut self, name: &String)
        requires
            old(self).linked(),
        ensures
            final(self).linked(),
            final(self).model() == (ParseState {
                pending: grammar::remove_pending(old(self).model().pending, name@),
                ..old(self).model()
            }),
    {
        let i = find_text(&self.pending_types, name.as_str());
        if i < self.pending_types.len() {
            self.pending_types.remove(i);
            assert(text_views(self.pending_types@) =~= text_views(old(self).pending_types@).remove(
                i as int,
            ));
        }
    }

    fn put_struct(&mut self, def: StructDefinition)
        requires
            old(self).linked(),
        ensures
            final(self).linked(),
            final(self).model() == (ParseState {
                structs: grammar::put_struct(old(self).model().structs, def@),
                ..old(self).model()
            }),
    {
        let i = find_struct(&self.structs, def.name.as_str());
        if i < self.structs.len() {
            self.structs.set(i, def);
            assert(struct_views(self.structs@) =~= struct_views(old(self).structs@).update(
                i as int,
                def@,
            ));
        } else {
            self.structs.push(def);
            assert(struct_views(self.structs@) =~= struct_views(old(self).structs@).push(def@));
        }
    }

    fn put_enum(&mut self, def: EnumDefinition)
        requires
            old(self).linked(),
        ensures
            final(self).linked(),
            final(self).model() == (ParseState {
                enums: grammar::put_enum(old(self).model().enums, def@),
                ..old(self).model()
            }),
    {
        let i = find_enum(&self.enums, def.name.as_str());
        if i < self.enums.len() {
            self.enums.set(i, def);
            assert(enum_views(self.enums@) =~= enum_views(old(self).enums@).update(
                i as int,
                def@,
            ));
        } else {
            self.enums.push(def);
            assert(enum_views(self.enums@) =~= enum_views(old(self).enums@).push(def@));
        }
    }

    fn check_name(&mut self, name: &String)
        requires
            old(self).linked(),
        ensures
            final(self).linked(),
            final(self).model() == grammar::check_name(old(self).model(), name@),
    {
        if !is_reserved(name.as_str()) {
            self.push_error(ParseError::InvalidUdt(name.clone()));
        } else if self.is_valid_udt(name.as_str()) {
            self.push_error(ParseError::RedefinedType(name.clone()));
        }
    }

    fn parse_named_type(&mut self) -> (ty: TyKind)
        requires
            old(self).linked(),
        ensures
            final(self).linked(),
            (final(self).model(), ty@) == grammar::parse_named_type(old(self).model()),
    {
        let name = self.parse_ident();
        match primitive_type(name.as_str()) {
            Some(p) => TyKind::Primitive(p),
            None => {
                // If the referenced type is not yet defined, then add it to
                // pending_types to be checked later
                if !self.is_valid_udt(name.as_str()) {
                    self.add_pending(&name);
                }
                TyKind::UserDefined(name)
            },
        }
    }

    fn parse_type(&mut self) -> (ty: TyKind)
        requires
            old(self).linked(),
        ensures
            final(self).linked(),
            (final(self).model(), ty@) == grammar::parse_type(old(self).model()),
        decreases old(self).model().tokens.len(),
    {
        let ty = if self.next_is(&TokenKind::AngleLeft) {
            self.consume();
            let ty = self.parse_type();
            self.consume_expected(TokenKind::AngleRight);
            TyKind::MapOf(Box::new(ty))
        } else if self.next_is(&TokenKind::SquareLeft) {
            self.consume();
            let ty = self.parse_type();
            self.consume_expected(TokenKind::SquareRight);
            TyKind::Array(Box::new(ty))
        } else {
            self.parse_named_type()
        };
        assert((self.model(), ty@) == grammar::parse_inner_type(old(self).model()));
        if self.next_is(&TokenKind::QuestionMark) {
            self.consume();
            TyKind::Nullable(Box::new(ty))
        } else {
            ty
        }
    }

    fn parse_struct(&mut self)
        requires
            old(self).linked(),
        ensures
            final(self).linked(),
            final(self).model() == grammar::parse_struct(old(self).model()),
    {
        let struct_name = self.parse_ident();
        self.check_name(&struct_name);
        let mut fields: Vec<StructField> = Vec::new();
        self.consume_expected(TokenKind::BraceLeft);
        let ghost start = self.model();
        assert(field_views(fields@) =~= Seq::empty());
        loop
            invariant_except_break
                grammar::parse_fields(self.model(), struct_name@, field_views(fields@))
                    == grammar::parse_fields(start, struct_name@, Seq::empty()),
            invariant
                self.linked(),
            ensures
                (self.model(), field_views(fields@)) == grammar::parse_fields(
                    start,
                    struct_name@,
                    Seq::empty(),
                ),
            decreases self.model().tokens.len(),
        {
            if self.next_is(&TokenKind::BraceRight) {
                break ;
            }
            let ghost seen = field_views(fields@);
            let field_name = self.parse_ident();
            self.consume_expected(TokenKind::Colon);
            proof {
                grammar::lemma_parse_type_shrinks(self.model());
            }
            let field_type = self.parse_type();
            if ty_recursive(struct_name.as_str(), &field_type) {
                self.push_error(ParseError::RecursiveType(struct_name.clone()));
                if self.next_is(&TokenKind::Eof) {
                    break ;
                }
                continue ;
            }
            fields.push(StructField { name: field_name, datatype: field_type });
            assert(field_views(fields@) =~= seen.push(
                crate::items::StructFieldView { datatype: field_type@, name: field_name@ },
            ));
            if self.next_is(&TokenKind::Comma) {
                self.consume();
            } else {
                break ;
            }
        }
        self.consume_expected(TokenKind::BraceRight);
        self.remove_pending(&struct_name);
        self.put_struct(StructDefinition { name: struct_name, fields });
    }

    fn parse_variant_value(&mut self, progress: &mut EnumCursor) -> (value: EnumVariantValue)
        requires
            old(self).linked(),
        ensures
            final(self).linked(),
            (final(self).model(), final(progress)@, value@) == grammar::parse_variant_value(
                old(self).model(),
                old(progress)@,
            ),
    {
        let mut variant_value = EnumVariantValue::Int(0);
        if self.next_is(&TokenKind::Equal) {
            self.consume();
            match self.next.kind.duplicate() {
                TokenKind::StringLiteral(val) => {
                    self.consume();
                    if progress.type_decided && progress.is_int_enum {
                        self.custom_error("Expected an int, found string");
                    } else {
                        variant_value = EnumVariantValue::String(val);
                        progress.is_int_enum = false;
                    }
                },
                TokenKind::IntLiteral(val) => {
                    self.consume();
                    if progress.type_decided && !progress.is_int_enum {
                        self.custom_error("Expected a string, found int");
                    } else {
                        variant_value = EnumVariantValue::Int(val);
                        progress.curr_int_value = val.wrapping_add(1);
                    }
                },
                _ => {
                    self.syntax_error(None);
                },
            }
        } else {
            if !progress.type_decided || progress.is_int_enum {
                variant_value = EnumVariantValue::Int(progress.curr_int_value);
                progress.curr_int_value = progress.curr_int_value.wrapping_add(1);
            } else {
                self.custom_error("Expected a string");
            }
        }
        variant_value
    }

    fn parse_enum(&mut self)
        requires
            old(self).linked(),
        ensures
            final(self).linked(),
            final(self).model() == grammar::parse_enum(old(self).model()),
    {
        let enum_name = self.parse_ident();
        self.check_name(&enum_name);
        let mut variants: Vec<EnumVariant> = Vec::new();
        self.consume_expected(TokenKind::BraceLeft);
        let mut progress = EnumCursor { curr_int_value: 0, is_int_enum: true, type_decided: false };
        let ghost start = self.model();
        let ghost target = grammar::parse_variants(start, progress@, Seq::empty());
        assert(variant_views(variants@) =~= Seq::empty());
        loop
            invariant_except_break
                grammar::parse_variants(self.model(), progress@, variant_views(variants@))
                    == target,
            invariant
                self.linked(),
            ensures
                (self.model(), variant_views(variants@)) == target,
            decreases self.model().tokens.len(),
        {
            if self.next_is(&TokenKind::BraceRight) {
                break ;
            }
            let ghost seen = variant_views(variants@);
            let variant_name = self.parse_ident();
            let variant_value = self.parse_variant_value(&mut progress);
            progress.type_decided = true;
            variants.push(EnumVariant { name: variant_name, value: variant_value });
            assert(variant_views(variants@) =~= seen.push(
                crate::items::EnumVariantView { name: variant_name@, value: variant_value@ },
            ));
            if self.next_is(&TokenKind::Comma) {
                self.consume();
            } else {
                break ;
            }
        }
        self.consume_expected(TokenKind::BraceRight);
        self.remove_pending(&enum_name);
        self.put_enum(EnumDefinition { name: enum_name, variants });
    }

    /// Parses every declaration of the stream, up to its end.
    pub fn parse_declarations(&mut self)
        requires
            old(self).wf(),
        ensures
            final(self).wf(),
            final(self).model() == grammar::parse_declarations(old(self).model()),
    {
        proof {
            lemma_parse_declarations_kept(self.model());
        }
        loop
            invariant_except_break
                grammar::parse_declarations(self.model()) == grammar::parse_declarations(
                    old(self).model(),
                ),
            invariant
                self.linked(),
            ensures
                self.model() == grammar::parse_declarations(old(self).model()),
            decreases self.model().tokens.len(),
        {
            self.consume();
            proof {
                let s1 = self.model();
                let (s2, name) = grammar::parse_ident(s1);
                let s3 = grammar::expect(grammar::check_name(s2, name), TokenKindView::BraceLeft);
                grammar::lemma_parse_fields_shrinks(s3, name, Seq::empty());
                grammar::lemma_parse_variants_shrinks(
                    s3,
                    grammar::EnumProgress { next_value: 0, is_int: true, decided: false },
                    Seq::empty(),
                );
            }
            match self.current.kind {
                TokenKind::Struct => self.parse_struct(),
                TokenKind::Enum => self.parse_enum(),
                TokenKind::Eof => {
                    break ;
                },
                _ => self.syntax_error(None),
            }
        }
    }

    /// The structs declared so far.
    pub fn structs(&self) -> (r: &Vec<StructDefinition>)
        ensures
            struct_views(r@) == self.model().structs,
    {
        &self.structs
    }

    /// The enums declared so far.
    pub fn enums(&self) -> (r: &Vec<EnumDefinition>)
        ensures
            enum_views(r@) == self.model().enums,
    {
        &self.enums
    }

    /// The errors found so far.
    pub fn errors(&self) -> (r: &Vec<ParseError>)
        ensures
            error_views(r@) == self.model().errors,
    {
        &self.errors
    }

    /// Ends the parse: reports each name that was used as a type and never
    /// declared, and hands back the program if there is no error at all.
    pub fn finish(self) -> (r: Result<Program, Vec<ParseError>>)
        requires
            self.wf(),
        ensures
            result_view(r) == grammar::outcome(self.model()),
            match r {
                Ok(program) => valid_program(program@),
                Err(errors) => errors.len() > 0,
            },
    {
        proof {
            lemma_outcome_is_valid(self.model());
        }
        let mut errors = self.errors;
        let pending = self.pending_types;
        let ghost found = error_views(errors@);
        let mut i: usize = 0;
        while i < pending.len()
            invariant
                i <= pending.len(),
                error_views(errors@) == found + text_views(pending@).take(i as int).map_values(
                    |name: Seq<char>| ParseErrorView::UnknownType(name),
                ),
            decreases pending.len() - i,
        {
            let ghost before = error_views(errors@);
            let error = ParseError::UnknownType(pending[i].clone());
            errors.push(error);
            assert(error_views(errors@) =~= before.push(error@));
            assert(text_views(pending@).take(i + 1) =~= text_views(pending@).take(i as int).push(
                pending@[i as int]@,
            ));
            i += 1;
        }
        assert(text_views(pending@).take(pending.len() as int) =~= text_views(pending@));
        if errors.len() > 0 {
            Err(errors)
        } else {
            Ok(Program { structs: self.structs, enums: self.enums })
        }
    }

    /// Parses the whole stream: the program it declares, or every error that
    /// was found.
    pub fn parse(self) -> (r: Result<Program, Vec<ParseError>>)
        requires
            self.wf(),
        ensures
            result_view(r) == grammar::outcome(grammar::parse_declarations(self.model())),
            match r {
                Ok(program) => valid_program(program@),
                Err(errors) => errors.len() > 0,
            },
    {
        let mut parser = self;
        parser.parse_declarations();
        parser.finish()
    }
}

/// What the variants read so far have settled about those that follow.
pub struct EnumCursor {
    pub curr_int_value: i32,
    pub is_int_enum: bool,
    pub type_decided: bool,
}

impl View for EnumCursor {
    type V = grammar::EnumProgress;

    open spec fn view(&self) -> grammar::EnumProgress {
        grammar::EnumProgress {
            next_value: self.curr_int_value,
            is_int: self.is_int_enum,
            decided: self.type_decided,
        }
    }
}

/// What the text of a schema parses to.
pub open spec fn schema_of(text: Seq<char>) -> Result<
    crate::items::ProgramView,
    Seq<ParseErrorView>,
> {
    grammar::parse_tokens(token_run(start_state(text)), repeated_eof(start_state(text)))
}

/// Lexes and parses the text of a schema: the program it declares, or every
/// error that was found.
pub fn parse_schema(text: &str) -> (r: Result<Program, Vec<ParseError>>)
    requires
        text@.len() <= max_input_len(),
    ensures
        result_view(r) == schema_of(text@),
        match r {
            Ok(program) => valid_program(program@),
            Err(errors) => errors.len() > 0,
        },
{
    let file = ForserFile::new(text);
    let mut source = file.source();
    let lexer = Lexer::new(&mut source);
    let parser = Parser::new(lexer);
    parser.parse()
}

} // verus!
