use forser::lexer::{ForserFile, Lexer, Source, TokenStream};
use forser::token::{to_keyword, Token, TokenKind};

fn kinds(text: &str) -> Vec<TokenKind> {
    let file = ForserFile::new(text);
    let mut source = file.source();
    let mut lexer = Lexer::new(&mut source);
    let mut found = vec![];
    loop {
        let token = lexer.next_token();
        let done = token.kind == TokenKind::Eof;
        found.push(token.kind);
        if done {
            return found;
        }
    }
}

fn ident(name: &str) -> TokenKind {
    TokenKind::Identifier(name.to_string())
}

#[test]
fn lexes_a_struct_header() {
    let file = ForserFile::new("struct A {");
    let mut source = file.source();
    let mut lexer = Lexer::new(&mut source);
    assert_eq!(lexer.next_token().kind, TokenKind::Struct);
    assert_eq!(lexer.next_token().kind, ident("A"));
    assert_eq!(lexer.next_token().kind, TokenKind::BraceLeft);
    assert_eq!(lexer.next_token().kind, TokenKind::Eof);
    assert_eq!(lexer.next_token().kind, TokenKind::Eof);
}

#[test]
fn source_hands_out_characters_in_order() {
    let file = ForserFile::new("ab");
    let mut source = file.source();
    assert_eq!(source.next_char(), Some('a'));
    assert_eq!(source.next_char(), Some('b'));
    assert_eq!(source.next_char(), None);
    assert_eq!(source.next_char(), None);
}

#[test]
fn init_token_stands_before_the_first_line() {
    let token = Token::init();
    assert_eq!(
        token,
        Token { kind: TokenKind::Init, pos_start: 0, pos_end: 0, line: 1, column: 0 }
    );
}

#[test]
fn keywords_are_struct_and_enum_only() {
    assert_eq!(to_keyword("struct"), Some(TokenKind::Struct));
    assert_eq!(to_keyword("enum"), Some(TokenKind::Enum));
    assert_eq!(to_keyword("structs"), None);
    assert_eq!(to_keyword("Enum"), None);
    assert_eq!(to_keyword(""), None);
}

#[test]
fn punctuation_maps_to_its_kinds() {
    assert_eq!(
        kinds("{}[]<>,:=?"),
        vec![
            TokenKind::BraceLeft,
            TokenKind::BraceRight,
            TokenKind::SquareLeft,
            TokenKind::SquareRight,
            TokenKind::AngleLeft,
            TokenKind::AngleRight,
            TokenKind::Comma,
            TokenKind::Colon,
            TokenKind::Equal,
            TokenKind::QuestionMark,
            TokenKind::Eof,
        ]
    );
}

#[test]
fn identifiers_take_letters_digits_underscores_and_hyphens() {
    assert_eq!(kinds("a_b-c9 Z"), vec![ident("a_b-c9"), ident("Z"), TokenKind::Eof]);
}

#[test]
fn keywords_inside_longer_words_are_identifiers() {
    assert_eq!(
        kinds("struct enum structure enum9"),
        vec![
            TokenKind::Struct,
            TokenKind::Enum,
            ident("structure"),
            ident("enum9"),
            TokenKind::Eof
        ]
    );
}

#[test]
fn integer_literals_accumulate_decimal_digits() {
    assert_eq!(
        kinds("0 7 1234567890"),
        vec![
            TokenKind::IntLiteral(0),
            TokenKind::IntLiteral(7),
            TokenKind::IntLiteral(1234567890),
            TokenKind::Eof
        ]
    );
}

#[test]
fn integer_literals_wrap_in_32_bits() {
    // 4294967301 = 2^32 + 5
    assert_eq!(kinds("4294967301"), vec![TokenKind::IntLiteral(5), TokenKind::Eof]);
    assert_eq!(kinds("2147483648"), vec![TokenKind::IntLiteral(i32::MIN), TokenKind::Eof]);
}

#[test]
fn a_minus_sign_is_no_part_of_a_number() {
    assert_eq!(
        kinds("-5"),
        vec![TokenKind::Unknown('-'), TokenKind::IntLiteral(5), TokenKind::Eof]
    );
}

#[test]
fn string_literals_run_to_the_closing_quote() {
    assert_eq!(
        kinds("\"a b\\n\" x"),
        vec![TokenKind::StringLiteral("a b\\n".to_string()), ident("x"), TokenKind::Eof]
    );
    assert_eq!(kinds("\"\""), vec![TokenKind::StringLiteral(String::new()), TokenKind::Eof]);
}

#[test]
fn an_open_string_literal_ends_with_the_input() {
    assert_eq!(kinds("\"abc"), vec![TokenKind::StringLiteral("abc".to_string()), TokenKind::Eof]);
}

#[test]
fn line_comments_are_skipped() {
    assert_eq!(
        kinds("a // struct b\nc // trailing"),
        vec![ident("a"), ident("c"), TokenKind::Eof]
    );
    assert_eq!(kinds("// only a comment"), vec![TokenKind::Eof]);
}

#[test]
fn a_single_slash_is_unknown() {
    assert_eq!(kinds("/ a"), vec![TokenKind::Unknown('/'), ident("a"), TokenKind::Eof]);
}

#[test]
fn whitespace_is_skipped() {
    assert_eq!(kinds(" \n a \n"), vec![ident("a"), TokenKind::Eof]);
    assert_eq!(kinds("a\tb"), vec![ident("a"), ident("b"), TokenKind::Eof]);
    assert_eq!(kinds("\tstruct\r\n"), vec![TokenKind::Struct, TokenKind::Eof]);
    assert_eq!(
        kinds("a\u{b}\u{c}b\u{a0}\u{2003}c"),
        vec![ident("a"), ident("b"), ident("c"), TokenKind::Eof]
    );
}

#[test]
fn skipped_whitespace_counts_in_the_positions() {
    let file = ForserFile::new("\ta\r\n\tb");
    let mut source = file.source();
    let mut lexer = Lexer::new(&mut source);
    assert_eq!(
        lexer.next_token(),
        Token { kind: ident("a"), pos_start: 1, pos_end: 2, line: 1, column: 2 }
    );
    assert_eq!(
        lexer.next_token(),
        Token { kind: ident("b"), pos_start: 2, pos_end: 6, line: 2, column: 3 }
    );
}

#[test]
fn unknown_characters_become_tokens() {
    assert_eq!(
        kinds("a $ é"),
        vec![ident("a"), TokenKind::Unknown('$'), TokenKind::Unknown('é'), TokenKind::Eof]
    );
}

#[test]
fn tokens_carry_their_positions() {
    let file = ForserFile::new("ab {\n  c");
    let mut source = file.source();
    let mut lexer = Lexer::new(&mut source);
    assert_eq!(
        lexer.next_token(),
        Token { kind: ident("ab"), pos_start: 1, pos_end: 2, line: 1, column: 2 }
    );
    assert_eq!(
        lexer.next_token(),
        Token { kind: TokenKind::BraceLeft, pos_start: 2, pos_end: 4, line: 1, column: 4 }
    );
    assert_eq!(
        lexer.next_token(),
        Token { kind: ident("c"), pos_start: 4, pos_end: 8, line: 2, column: 4 }
    );
    assert_eq!(
        lexer.next_token(),
        Token { kind: TokenKind::Eof, pos_start: 8, pos_end: 8, line: 2, column: 4 }
    );
}

#[test]
fn the_first_eof_closes_what_was_skipped_and_later_ones_are_empty() {
    let file = ForserFile::new("a  ");
    let mut source = file.source();
    let mut lexer = Lexer::new(&mut source);
    lexer.next_token();
    assert_eq!(
        lexer.next_token(),
        Token { kind: TokenKind::Eof, pos_start: 1, pos_end: 3, line: 1, column: 3 }
    );
    assert_eq!(
        lexer.next_token(),
        Token { kind: TokenKind::Eof, pos_start: 3, pos_end: 3, line: 1, column: 3 }
    );
    assert_eq!(
        lexer.next_token(),
        Token { kind: TokenKind::Eof, pos_start: 3, pos_end: 3, line: 1, column: 3 }
    );
}

#[test]
fn an_empty_input_is_eof_at_once() {
    let file = ForserFile::new("");
    let mut source = file.source();
    let mut lexer = Lexer::new(&mut source);
    assert_eq!(
        lexer.next_token(),
        Token { kind: TokenKind::Eof, pos_start: 1, pos_end: 0, line: 1, column: 0 }
    );
    assert_eq!(
        lexer.next_token(),
        Token { kind: TokenKind::Eof, pos_start: 0, pos_end: 0, line: 1, column: 0 }
    );
}

#[test]
fn the_lexer_is_a_token_stream() {
    fn first<L: TokenStream>(mut stream: L) -> Token {
        stream.next_token()
    }
    let file = ForserFile::new("enum");
    let mut source = file.source();
    assert_eq!(first(Lexer::new(&mut source)).kind, TokenKind::Enum);
}

#[test]
fn token_kinds_compare_with_their_payload() {
    assert!(ident("a").same(&ident("a")));
    assert!(!ident("a").same(&ident("b")));
    assert!(!ident("a").same(&TokenKind::StringLiteral("a".to_string())));
    assert!(TokenKind::IntLiteral(3).same(&TokenKind::IntLiteral(3)));
    assert!(!TokenKind::IntLiteral(3).same(&TokenKind::IntLiteral(4)));
    assert!(TokenKind::Eof.same(&TokenKind::Eof));
    assert_eq!(ident("abc").duplicate(), ident("abc"));
}
