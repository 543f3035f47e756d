//! The token stream: turns the characters of a schema into tokens.

use vstd::prelude::*;
use crate::text::{to_chars, to_text, whitespace};
use crate::token::{keyword_from_chars, keyword_of, Token, TokenKind, TokenKindView, TokenView};

verus! {

/// A supply of characters, read one at a time and never rewound.
pub trait Source {
    /// The characters that are still to come.
    spec fn rest(&self) -> Seq<char>;

    /// Hands out the next character, or `None` at the end, where it stays.
    fn next_char(&mut self) -> (c: Option<char>)
        ensures
            old(self).rest().len() > 0 ==> c == Some(old(self).rest()[0]) && final(self).rest()
                == old(self).rest().drop_first(),
            old(self).rest().len() == 0 ==> c is None && final(self).rest().len() == 0,
    ;
}

/// The characters of a schema held in memory.
pub struct FileSource<'a> {
    chars: &'a Vec<char>,
    next: usize,
}

impl<'a> Source for FileSource<'a> {
    closed spec fn rest(&self) -> Seq<char> {
        if self.next <= self.chars@.len() {
            self.chars@.skip(self.next as int)
        } else {
            Seq::empty()
        }
    }

    fn next_char(&mut self) -> (c: Option<char>) {
        if self.next < self.chars.len() {
            let c = self.chars[self.next];
            assert(self.chars@.skip(self.next as int).drop_first() == self.chars@.skip(
                self.next + 1,
            ));
            self.next = self.next + 1;
            Some(c)
        } else {
            None
        }
    }
}

/// The text of one schema.
pub struct ForserFile {
    contents: Vec<char>,
}

impl ForserFile {
    /// Wraps the text of a schema.
    pub fn new(contents: &str) -> (f: Self)
        ensures
            f@ == contents@,
    {
        Self { contents: to_chars(contents) }
    }

    /// The text of the schema.
    pub closed spec fn view(&self) -> Seq<char> {
        self.contents@
    }

    /// A source that yields the characters of the schema from its start.
    pub fn source(&self) -> (s: FileSource<'_>)
        ensures
            s.rest() == self@,
    {
        FileSource { chars: &self.contents, next: 0 }
    }
}

/// Where a lexer stands: the characters it has not consumed yet and its
/// position counters.
pub struct LexState {
    /// The characters still to be consumed.
    pub input: Seq<char>,
    /// Offset at which the last token that was handed out ended.
    pub last_pos: int,
    /// Number of characters consumed so far.
    pub position: int,
    pub column: int,
    pub line: int,
}

/// The state in which a lexer starts on `input`.
pub open spec fn start_state(input: Seq<char>) -> LexState {
    LexState { input, last_pos: 1, position: 0, column: 0, line: 1 }
}

/// The state after one character has been consumed; at the end of the
/// input nothing changes.
pub open spec fn advance(st: LexState) -> LexState {
    if st.input.len() == 0 {
        st
    } else {
        LexState {
            input: st.input.drop_first(),
            last_pos: st.last_pos,
            position: st.position + 1,
            column: if st.input[0] == '\n' {
                1
            } else {
                st.column + 1
            },
            line: if st.input[0] == '\n' {
                st.line + 1
            } else {
                st.line
            },
        }
    }
}

/// The state after everything up to and including the first `stop` has been
/// consumed, or everything if there is no `stop`.
pub open spec fn advance_through(st: LexState, stop: char) -> LexState
    decreases st.input.len(),
{
    if st.input.len() == 0 {
        st
    } else if st.input[0] == stop {
        advance(st)
    } else {
        advance_through(advance(st), stop)
    }
}

/// The characters before the first `stop`, or all of them if there is none.
pub open spec fn text_until(s: Seq<char>, stop: char) -> Seq<char>
    decreases s.len(),
{
    if s.len() == 0 || s[0] == stop {
        Seq::empty()
    } else {
        seq![s[0]] + text_until(s.drop_first(), stop)
    }
}

/// Whether `c` may start an identifier.
pub open spec fn is_ident_start(c: char) -> bool {
    ('a' <= c && c <= 'z') || ('A' <= c && c <= 'Z')
}

/// Whether `c` is a decimal digit.
pub open spec fn is_digit(c: char) -> bool {
    '0' <= c && c <= '9'
}

/// Whether `c` may follow the first character of an identifier.
pub open spec fn is_ident_char(c: char) -> bool {
    is_ident_start(c) || is_digit(c) || c == '_' || c == '-'
}

/// The longest run of identifier characters at the start of `s`.
pub open spec fn ident_run(s: Seq<char>) -> Seq<char>
    decreases s.len(),
{
    if s.len() > 0 && is_ident_char(s[0]) {
        seq![s[0]] + ident_run(s.drop_first())
    } else {
        Seq::empty()
    }
}

/// The state after the identifier characters at the start of the input have
/// been consumed.
pub open spec fn advance_ident(st: LexState) -> LexState
    decreases st.input.len(),
{
    if st.input.len() > 0 && is_ident_char(st.input[0]) {
        advance_ident(advance(st))
    } else {
        st
    }
}

/// The value of the digit `c`.
pub open spec fn digit_value(c: char) -> i32 {
    (c as u32 - '0' as u32) as i32
}

/// The value that the digits at the start of `s` give when they continue the
/// number `acc`; the arithmetic wraps round in 32 bits.
pub open spec fn digits_value(acc: i32, s: Seq<char>) -> i32
    decreases s.len(),
{
    if s.len() > 0 && is_digit(s[0]) {
        digits_value(acc.wrapping_mul(10).wrapping_add(digit_value(s[0])), s.drop_first())
    } else {
        acc
    }
}

/// The state after the digits at the start of the input have been consumed.
pub open spec fn advance_digits(st: LexState) -> LexState
    decreases st.input.len(),
{
    if st.input.len() > 0 && is_digit(st.input[0]) {
        advance_digits(advance(st))
    } else {
        st
    }
}

/// The token of kind `kind` that ends where `st` stands.
pub open spec fn token_at(st: LexState, kind: TokenKindView) -> TokenView {
    TokenView {
        kind,
        pos_start: st.last_pos,
        pos_end: st.position,
        line: st.line,
        column: st.column,
    }
}

/// The state after a token that ends where `st` stands has been handed out.
pub open spec fn after_emit(st: LexState) -> LexState {
    LexState { last_pos: st.position, ..st }
}

/// The kind of the token that starts with `c`, where `st` is the state just
/// behind `c`, and the state behind that token.
pub open spec fn token_from(c: char, st: LexState) -> (TokenKindView, LexState) {
    if c == '{' {
        (TokenKindView::BraceLeft, st)
    } else if c == '}' {
        (TokenKindView::BraceRight, st)
    } else if c == '[' {
        (TokenKindView::SquareLeft, st)
    } else if c == ']' {
        (TokenKindView::SquareRight, st)
    } else if c == '<' {
        (TokenKindView::AngleLeft, st)
    } else if c == '>' {
        (TokenKindView::AngleRight, st)
    } else if c == ',' {
        (TokenKindView::Comma, st)
    } else if c == ':' {
        (TokenKindView::Colon, st)
    } else if c == '=' {
        (TokenKindView::Equal, st)
    } else if c == '?' {
        (TokenKindView::QuestionMark, st)
    } else if is_ident_start(c) {
        let ident = seq![c] + ident_run(st.input);
        (
            match keyword_of(ident) {
                Some(k) => k,
                None => TokenKindView::Identifier(ident),
            },
            advance_ident(st),
        )
    } else if is_digit(c) {
        (
            TokenKindView::IntLiteral(digits_value(digit_value(c), st.input)),
            advance_digits(st),
        )
    } else if c == '"' {
        (TokenKindView::StringLiteral(text_until(st.input, '"')), advance_through(st, '"'))
    } else {
        (TokenKindView::Unknown(c), st)
    }
}

/// Consuming never makes the input longer.
pub proof fn lemma_advance_through_shrinks(st: LexState, stop: char)
    ensures
        advance_through(st, stop).input.len() <= st.input.len(),
    decreases st.input.len(),
{
    if st.input.len() > 0 && st.input[0] != stop {
        lemma_advance_through_shrinks(advance(st), stop);
    }
}

/// Consuming never makes the input longer.
pub proof fn lemma_advance_ident_shrinks(st: LexState)
    ensures
        advance_ident(st).input.len() <= st.input.len(),
    decreases st.input.len(),
{
    if st.input.len() > 0 && is_ident_char(st.input[0]) {
        lemma_advance_ident_shrinks(advance(st));
    }
}

/// Consuming never makes the input longer.
pub proof fn lemma_advance_digits_shrinks(st: LexState)
    ensures
        advance_digits(st).input.len() <= st.input.len(),
    decreases st.input.len(),
{
    if st.input.len() > 0 && is_digit(st.input[0]) {
        lemma_advance_digits_shrinks(advance(st));
    }
}

/// The next token of the input and the state behind it. Whitespace and
/// `//` comments before the token are passed over; at the end of the input
/// the token is `Eof`.
pub open spec fn next_token_from(st: LexState) -> (TokenView, LexState)
    decreases st.input.len(),
{
    if st.input.len() == 0 {
        (token_at(st, TokenKindView::Eof), after_emit(st))
    } else {
        let c = st.input[0];
        let st1 = advance(st);
        if whitespace(c) {
            next_token_from(st1)
        } else if c == '/' && st1.input.len() > 0 && st1.input[0] == '/' {
            proof {
                lemma_advance_through_shrinks(st1, '\n');
            }
            next_token_from(advance_through(st1, '\n'))
        } else {
            let (kind, st2) = token_from(c, st1);
            (token_at(st2, kind), after_emit(st2))
        }
    }
}

/// A token that is not `Eof` has consumed something, and no token makes the
/// input longer.
pub proof fn lemma_next_token_shrinks(st: LexState)
    ensures
        next_token_from(st).1.input.len() <= st.input.len(),
        !(next_token_from(st).0.kind is Eof) ==> next_token_from(st).1.input.len()
            < st.input.len(),
        st.input.len() == 0 ==> next_token_from(st).0.kind is Eof,
    decreases st.input.len(),
{
    if st.input.len() > 0 {
        let c = st.input[0];
        let st1 = advance(st);
        if whitespace(c) {
            lemma_next_token_shrinks(st1);
        } else if c == '/' && st1.input.len() > 0 && st1.input[0] == '/' {
            lemma_advance_through_shrinks(st1, '\n');
            lemma_next_token_shrinks(advance_through(st1, '\n'));
        } else {
            lemma_advance_through_shrinks(st1, '"');
            lemma_advance_ident_shrinks(st1);
            lemma_advance_digits_shrinks(st1);
        }
    }
}

/// The tokens that a lexer in state `st` hands out before its first `Eof`.
pub open spec fn tokens_from(st: LexState) -> Seq<TokenView>
    decreases st.input.len(),
{
    let (tok, st1) = next_token_from(st);
    if tok.kind is Eof {
        Seq::empty()
    } else {
        proof {
            lemma_next_token_shrinks(st);
        }
        seq![tok] + tokens_from(st1)
    }
}

/// The state in which a lexer that started in `st` has just handed out its
/// first `Eof`.
pub open spec fn state_at_eof(st: LexState) -> LexState
    decreases st.input.len(),
{
    let (tok, st1) = next_token_from(st);
    if tok.kind is Eof {
        st1
    } else {
        proof {
            lemma_next_token_shrinks(st);
        }
        state_at_eof(st1)
    }
}

/// The first `Eof` that a lexer in state `st` hands out.
pub open spec fn first_eof(st: LexState) -> TokenView
    decreases st.input.len(),
{
    let (tok, st1) = next_token_from(st);
    if tok.kind is Eof {
        tok
    } else {
        proof {
            lemma_next_token_shrinks(st);
        }
        first_eof(st1)
    }
}

/// The state that `Eof` leaves behind is at the end of the input and has
/// nothing pending between the last token and its position.
pub proof fn lemma_state_at_eof(st: LexState)
    ensures
        state_at_eof(st).input.len() == 0,
        state_at_eof(st).last_pos == state_at_eof(st).position,
        first_eof(st).kind is Eof,
    decreases st.input.len(),
{
    lemma_eof_state(st);
    let (tok, st1) = next_token_from(st);
    if !(tok.kind is Eof) {
        lemma_next_token_shrinks(st);
        lemma_state_at_eof(st1);
    }
}

/// Where the next token is `Eof`, the state behind it is at the end of the
/// input.
pub proof fn lemma_eof_state(st: LexState)
    ensures
        next_token_from(st).0.kind is Eof ==> next_token_from(st).1.input.len() == 0
            && next_token_from(st).1.last_pos == next_token_from(st).1.position,
    decreases st.input.len(),
{
    if st.input.len() > 0 {
        let c = st.input[0];
        let st1 = advance(st);
        if whitespace(c) {
            lemma_eof_state(st1);
        } else if c == '/' && st1.input.len() > 0 && st1.input[0] == '/' {
            lemma_advance_through_shrinks(st1, '\n');
            lemma_eof_state(advance_through(st1, '\n'));
        }
    }
}

/// A stream of tokens: a finite run of tokens, and after it one token that
/// is handed out for ever.
pub trait TokenStream {
    /// The tokens that are still to come before the stream settles on its
    /// end token.
    spec fn tokens(&self) -> Seq<TokenView>;

    /// The token that is handed out once `tokens` is used up.
    spec fn end_token(&self) -> TokenView;

    /// What the stream needs to hold of itself between calls.
    spec fn well_formed(&self) -> bool;

    /// The end token is an `Eof`.
    proof fn lemma_end_token(&self)
        requires
            self.well_formed(),
        ensures
            self.end_token().kind is Eof,
    ;

    /// Hands out the next token.
    fn next_token(&mut self) -> (t: Token)
        requires
            old(self).well_formed(),
        ensures
            final(self).well_formed(),
            t@ == stream_head(old(self).tokens(), old(self).end_token()),
            final(self).tokens() == stream_tail(old(self).tokens()),
            final(self).end_token() == old(self).end_token(),
    ;
}

/// The token that a stream hands out next.
pub open spec fn stream_head(tokens: Seq<TokenView>, end: TokenView) -> TokenView {
    if tokens.len() > 0 {
        tokens[0]
    } else {
        end
    }
}

/// The tokens that are left once the next one has been handed out.
pub open spec fn stream_tail(tokens: Seq<TokenView>) -> Seq<TokenView> {
    if tokens.len() > 0 {
        tokens.drop_first()
    } else {
        tokens
    }
}

/// The `Eof` token that a lexer in state `st` repeats once it has handed
/// out its first.
pub open spec fn repeated_eof(st: LexState) -> TokenView {
    token_at(state_at_eof(st), TokenKindView::Eof)
}

/// The tokens that a lexer in state `st` hands out before it repeats itself:
/// those before the first `Eof`, and that `Eof` too where the one that is
/// repeated differs from it.
pub open spec fn token_run(st: LexState) -> Seq<TokenView> {
    if first_eof(st) == repeated_eof(st) {
        tokens_from(st)
    } else {
        tokens_from(st).push(first_eof(st))
    }
}

/// The most characters that a lexer can number.
pub open spec fn max_input_len() -> int {
    0x7fff_ffff_ffff_fffe
}

/// Turns characters into tokens, one token per call.
///
/// Whitespace parts the tokens, and a `//` starts a comment that runs to
/// the end of its line. Any other character that starts no token becomes an
/// `Unknown` token. Offsets, lines and columns count characters; a line
/// ends at a line feed.
pub struct Lexer<'a, S> {
    source: &'a mut S,
    current: Option<char>,
    next: Option<char>,
    last_pos: i64,
    /// Position of the next character.
    position: i64,
    column: i64,
    line: i64,
}

impl<'a, S: Source> Lexer<'a, S> {
    /// Where the lexer stands.
    pub closed spec fn state(&self) -> LexState {
        LexState {
            input: match self.next {
                Some(c) => seq![c] + self.source.rest(),
                None => Seq::empty(),
            },
            last_pos: self.last_pos as int,
            position: self.position as int,
            column: self.column as int,
            line: self.line as int,
        }
    }

    /// The counters fit their type however far the lexer reads.
    pub closed spec fn wf(&self) -> bool {
        &&& self.next is None ==> self.source.rest().len() == 0
        &&& 0 <= self.column <= self.position
        &&& 1 <= self.line <= self.position + 1
        &&& self.position + self.state().input.len() <= max_input_len()
    }

    /// A lexer at the start of `source`.
    pub fn new(source: &'a mut S) -> (lexer: Self)
        requires
            old(source).rest().len() <= max_input_len(),
        ensures
            lexer.wf(),
            lexer.state() == start_state(old(source).rest()),
    {
        let ghost all = source.rest();
        let next = source.next_char();
        let lexer = Self {
            current: None,
            next,
            source,
            last_pos: 1,
            position: 0,
            column: 0,
            line: 1,
        };
        assert(lexer.state().input =~= all);
        lexer
    }

    fn consume(&mut self) -> (c: Option<char>)
        requires
            old(self).wf(),
        ensures
            final(self).wf(),
            final(self).state() == advance(old(self).state()),
            final(self).current == c,
            c == if old(self).state().input.len() > 0 {
                Some(old(self).state().input[0])
            } else {
                None::<char>
            },
    {
        let ghost before = self.state();
        self.current = self.next;
        self.next = self.source.next_char();
        if let Some(x) = self.current {
            assert(self.state().input =~= before.input.drop_first());
            self.position += 1;
            if x == '\n' {
                self.column = 1;
                self.line += 1;
            } else {
                self.column += 1;
            }
            Some(x)
        } else {
            assert(self.state().input =~= before.input);
            None
        }
    }

    fn peek(&self) -> (c: Option<char>)
        ensures
            c == if self.state().input.len() > 0 {
                Some(self.state().input[0])
            } else {
                None::<char>
            },
    {
        self.next
    }

    fn emit_token(&mut self, kind: TokenKind) -> (t: Token)
        requires
            old(self).wf(),
        ensures
            final(self).wf(),
            t@ == token_at(old(self).state(), kind@),
            final(self).state() == after_emit(old(self).state()),
    {
        let tok = Token {
            kind,
            pos_start: self.last_pos,
            pos_end: self.position,
            column: self.column,
            line: self.line,
        };
        self.last_pos = self.position;
        tok
    }

    /// Hands out the next token of the input; at the end of the input, `Eof`.
    pub fn next_token(&mut self) -> (t: Token)
        requires
            old(self).wf(),
        ensures
            final(self).wf(),
            (t@, final(self).state()) == next_token_from(old(self).state()),
    {
        loop
            invariant
                self.wf(),
                next_token_from(self.state()) == next_token_from(old(self).state()),
            decreases self.state().input.len(),
        {
            let c = match self.consume() {
                Some(x) => x,
                None => {
                    return self.emit_token(TokenKind::Eof);
                },
            };
            if c.is_whitespace() {
                continue ;
            }
            let comment = match self.peek() {
                Some(d) => c == '/' && d == '/',
                None => false,
            };
            if comment {
                proof {
                    lemma_advance_through_shrinks(self.state(), '\n');
                }
                self.consume_line_comment();
                continue ;
            }
            let kind = if c == '{' {
                TokenKind::BraceLeft
            } else if c == '}' {
                TokenKind::BraceRight
            } else if c == '[' {
                TokenKind::SquareLeft
            } else if c == ']' {
                TokenKind::SquareRight
            } else if c == '<' {
                TokenKind::AngleLeft
            } else if c == '>' {
                TokenKind::AngleRight
            } else if c == ',' {
                TokenKind::Comma
            } else if c == ':' {
                TokenKind::Colon
            } else if c == '=' {
                TokenKind::Equal
            } else if c == '?' {
                TokenKind::QuestionMark
            } else if (c >= 'a' && c <= 'z') || (c >= 'A' && c <= 'Z') {
                let ident = self.consume_identifier(c);
                match keyword_from_chars(ident.as_slice()) {
                    Some(k) => k,
                    None => TokenKind::Identifier(to_text(ident.as_slice())),
                }
            } else if c >= '0' && c <= '9' {
                let val = self.cosume_lit_int(c);
                TokenKind::IntLiteral(val)
            } else if c == '"' {
                let val = self.cosume_lit_str();
                TokenKind::StringLiteral(val)
            } else {
                TokenKind::Unknown(c)
            };
            return self.emit_token(kind);
        }
    }

    fn consume_line_comment(&mut self)
        requires
            old(self).wf(),
        ensures
            final(self).wf(),
            final(self).state() == advance_through(old(self).state(), '\n'),
    {
        loop
            invariant_except_break
                advance_through(self.state(), '\n') == advance_through(old(self).state(), '\n'),
            invariant
                self.wf(),
            ensures
                self.state() == advance_through(old(self).state(), '\n'),
            decreases self.state().input.len(),
        {
            match self.consume() {
                Some(c) => {
                    if c == '\n' {
                        break ;
                    }
                },
                None => {
                    break ;
                },
            }
        }
    }

    fn consume_identifier(&mut self, first: char) -> (ident: Vec<char>)
        requires
            old(self).wf(),
        ensures
            final(self).wf(),
            ident@ == seq![first] + ident_run(old(self).state().input),
            final(self).state() == advance_ident(old(self).state()),
    {
        let mut ident: Vec<char> = Vec::new();
        ident.push(first);
        loop
            invariant_except_break
                ident@ + ident_run(self.state().input) == seq![first] + ident_run(
                    old(self).state().input,
                ),
                advance_ident(self.state()) == advance_ident(old(self).state()),
            invariant
                self.wf(),
            ensures
                ident@ == seq![first] + ident_run(old(self).state().input),
                self.state() == advance_ident(old(self).state()),
            decreases self.state().input.len(),
        {
            let more = match self.peek() {
                Some(c) => (c >= 'a' && c <= 'z') || (c >= 'A' && c <= 'Z') || (c >= '0' && c
                    <= '9') || c == '_' || c == '-',
                None => false,
            };
            if !more {
                assert(ident@ + Seq::<char>::empty() =~= ident@);
                break ;
            }
            let ghost st = self.state();
            let ghost before = ident@;
            if let Some(c) = self.consume() {
                ident.push(c);
                assert(ident@ + ident_run(self.state().input) =~= before + ident_run(st.input));
            }
        }
        ident
    }

    fn cosume_lit_int(&mut self, first: char) -> (val: i32)
        requires
            old(self).wf(),
            is_digit(first),
        ensures
            final(self).wf(),
            val == digits_value(digit_value(first), old(self).state().input),
            final(self).state() == advance_digits(old(self).state()),
    {
        let mut val: i32 = digit_of(first);
        loop
            invariant_except_break
                digits_value(val, self.state().input) == digits_value(
                    digit_value(first),
                    old(self).state().input,
                ),
                advance_digits(self.state()) == advance_digits(old(self).state()),
            invariant
                self.wf(),
            ensures
                val == digits_value(digit_value(first), old(self).state().input),
                self.state() == advance_digits(old(self).state()),
            decreases self.state().input.len(),
        {
            let more = match self.peek() {
                Some(c) => c >= '0' && c <= '9',
                None => false,
            };
            if !more {
                break ;
            }
            if let Some(c) = self.consume() {
                val = val.wrapping_mul(10).wrapping_add(digit_of(c));
            }
        }
        val
    }

    fn cosume_lit_str(&mut self) -> (val: String)
        requires
            old(self).wf(),
        ensures
            final(self).wf(),
            val@ == text_until(old(self).state().input, '"'),
            final(self).state() == advance_through(old(self).state(), '"'),
    {
        let mut val = String::new();
        loop
            invariant_except_break
                val@ + text_until(self.state().input, '"') == text_until(
                    old(self).state().input,
                    '"',
                ),
                advance_through(self.state(), '"') == advance_through(old(self).state(), '"'),
            invariant
                self.wf(),
            ensures
                val@ == text_until(old(self).state().input, '"'),
                self.state() == advance_through(old(self).state(), '"'),
            decreases self.state().input.len(),
        {
            let ghost st = self.state();
            let ghost before = val@;
            match self.consume() {
                Some(c) => {
                    if c == '"' {
                        assert(val@ + Seq::<char>::empty() =~= val@);
                        break ;
                    }
                    val.push(c);
                    assert(val@ + text_until(self.state().input, '"') =~= before + text_until(
                        st.input,
                        '"',
                    ));
                },
                None => {
                    assert(val@ + Seq::<char>::empty() =~= val@);
                    break ;
                },
            }
        }
        val
    }
}

/// The value of a decimal digit.
fn digit_of(c: char) -> (d: i32)
    requires
        is_digit(c),
    ensures
        d == digit_value(c),
{
    (c as u32 - '0' as u32) as i32
}

impl<'a, S: Source> TokenStream for Lexer<'a, S> {
    open spec fn tokens(&self) -> Seq<TokenView> {
        token_run(self.state())
    }

    open spec fn end_token(&self) -> TokenView {
        repeated_eof(self.state())
    }

    open spec fn well_formed(&self) -> bool {
        self.wf()
    }

    proof fn lemma_end_token(&self) {
    }

    fn next_token(&mut self) -> (t: Token) {
        proof {
            let st = self.state();
            lemma_next_token_shrinks(st);
            lemma_eof_state(st);
            lemma_state_at_eof(st);
            lemma_state_at_eof(next_token_from(st).1);
        }
        let t = Lexer::next_token(self);
        proof {
            let st = old(self).state();
            let st1 = self.state();
            if t@.kind is Eof {
                assert(next_token_from(st1).0 == token_at(st1, TokenKindView::Eof));
                assert(after_emit(st1) == st1);
                assert(tokens_from(st1) =~= Seq::empty());
            } else {
                assert(token_run(st1) =~= token_run(st).drop_first());
            }
        }
        t
    }
}

} // verus!
