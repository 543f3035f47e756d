//! Tokens of the schema language.

use vstd::prelude::*;
use crate::text::to_chars;

verus! {

/// What a token is.
#[derive(Debug, Clone, PartialEq, Eq)]
pub enum TokenKind {
    // Keywords
    Struct,
    Enum,
    // Punctuation
    ParenLeft,
    ParenRight,
    BraceLeft,
    BraceRight,
    SquareLeft,
    SquareRight,
    AngleLeft,
    AngleRight,
    Comma,
    Colon,
    QuestionMark,
    Equal,
    // Identifiers
    Identifier(String),
    // Literals
    StringLiteral(String),
    IntLiteral(i32),
    /// A character that starts no token.
    Unknown(char),
    /// What a parser holds before it has read its first token.
    Init,
    /// The end of the input.
    Eof,
}

/// The mathematical value of a [`TokenKind`]: text is a sequence of
/// characters.
pub enum TokenKindView {
    Struct,
    Enum,
    ParenLeft,
    ParenRight,
    BraceLeft,
    BraceRight,
    SquareLeft,
    SquareRight,
    AngleLeft,
    AngleRight,
    Comma,
    Colon,
    QuestionMark,
    Equal,
    Identifier(Seq<char>),
    StringLiteral(Seq<char>),
    IntLiteral(i32),
    Unknown(char),
    Init,
    Eof,
}

impl View for TokenKind {
    type V = TokenKindView;

    open spec fn view(&self) -> TokenKindView {
        match self {
            TokenKind::Struct => TokenKindView::Struct,
            TokenKind::Enum => TokenKindView::Enum,
            TokenKind::ParenLeft => TokenKindView::ParenLeft,
            TokenKind::ParenRight => TokenKindView::ParenRight,
            TokenKind::BraceLeft => TokenKindView::BraceLeft,
            TokenKind::BraceRight => TokenKindView::BraceRight,
            TokenKind::SquareLeft => TokenKindView::SquareLeft,
            TokenKind::SquareRight => TokenKindView::SquareRight,
            TokenKind::AngleLeft => TokenKindView::AngleLeft,
            TokenKind::AngleRight => TokenKindView::AngleRight,
            TokenKind::Comma => TokenKindView::Comma,
            TokenKind::Colon => TokenKindView::Colon,
            TokenKind::QuestionMark => TokenKindView::QuestionMark,
            TokenKind::Equal => TokenKindView::Equal,
            TokenKind::Identifier(s) => TokenKindView::Identifier(s@),
            TokenKind::StringLiteral(s) => TokenKindView::StringLiteral(s@),
            TokenKind::IntLiteral(v) => TokenKindView::IntLiteral(*v),
            TokenKind::Unknown(c) => TokenKindView::Unknown(*c),
            TokenKind::Init => TokenKindView::Init,
            TokenKind::Eof => TokenKindView::Eof,
        }
    }
}

impl TokenKind {
    /// Whether two kinds are the same, payload included.
    pub fn same(&self, other: &TokenKind) -> (r: bool)
        ensures
            r == (self@ == other@),
    {
        match (self, other) {
            (TokenKind::Struct, TokenKind::Struct) => true,
            (TokenKind::Enum, TokenKind::Enum) => true,
            (TokenKind::ParenLeft, TokenKind::ParenLeft) => true,
            (TokenKind::ParenRight, TokenKind::ParenRight) => true,
            (TokenKind::BraceLeft, TokenKind::BraceLeft) => true,
            (TokenKind::BraceRight, TokenKind::BraceRight) => true,
            (TokenKind::SquareLeft, TokenKind::SquareLeft) => true,
            (TokenKind::SquareRight, TokenKind::SquareRight) => true,
            (TokenKind::AngleLeft, TokenKind::AngleLeft) => true,
            (TokenKind::AngleRight, TokenKind::AngleRight) => true,
            (TokenKind::Comma, TokenKind::Comma) => true,
            (TokenKind::Colon, TokenKind::Colon) => true,
            (TokenKind::QuestionMark, TokenKind::QuestionMark) => true,
            (TokenKind::Equal, TokenKind::Equal) => true,
            (TokenKind::Identifier(a), TokenKind::Identifier(b)) => *a == *b,
            (TokenKind::StringLiteral(a), TokenKind::StringLiteral(b)) => *a == *b,
            (TokenKind::IntLiteral(a), TokenKind::IntLiteral(b)) => *a == *b,
            (TokenKind::Unknown(a), TokenKind::Unknown(b)) => *a == *b,
            (TokenKind::Init, TokenKind::Init) => true,
            (TokenKind::Eof, TokenKind::Eof) => true,
            _ => false,
        }
    }

    /// A copy of this kind.
    pub fn duplicate(&self) -> (r: TokenKind)
        ensures
            r@ == self@,
    {
        match self {
            TokenKind::Struct => TokenKind::Struct,
            TokenKind::Enum => TokenKind::Enum,
            TokenKind::ParenLeft => TokenKind::ParenLeft,
            TokenKind::ParenRight => TokenKind::ParenRight,
            TokenKind::BraceLeft => TokenKind::BraceLeft,
            TokenKind::BraceRight => TokenKind::BraceRight,
            TokenKind::SquareLeft => TokenKind::SquareLeft,
            TokenKind::SquareRight => TokenKind::SquareRight,
            TokenKind::AngleLeft => TokenKind::AngleLeft,
            TokenKind::AngleRight => TokenKind::AngleRight,
            TokenKind::Comma => TokenKind::Comma,
            TokenKind::Colon => TokenKind::Colon,
            TokenKind::QuestionMark => TokenKind::QuestionMark,
            TokenKind::Equal => TokenKind::Equal,
            TokenKind::Identifier(s) => TokenKind::Identifier(s.clone()),
            TokenKind::StringLiteral(s) => TokenKind::StringLiteral(s.clone()),
            TokenKind::IntLiteral(v) => TokenKind::IntLiteral(*v),
            TokenKind::Unknown(c) => TokenKind::Unknown(*c),
            TokenKind::Init => TokenKind::Init,
            TokenKind::Eof => TokenKind::Eof,
        }
    }
}

/// A token with its place in the source.
#[derive(Debug, Clone, PartialEq, Eq)]
pub struct Token {
    pub kind: TokenKind,
    /// Offset at which the previous token ended.
    pub pos_start: i64,
    /// Offset just behind the last character of this token.
    pub pos_end: i64,
    pub line: i64,
    pub column: i64,
}

/// The mathematical value of a [`Token`].
pub struct TokenView {
    pub kind: TokenKindView,
    pub pos_start: int,
    pub pos_end: int,
    pub line: int,
    pub column: int,
}

impl View for Token {
    type V = TokenView;

    open spec fn view(&self) -> TokenView {
        TokenView {
            kind: self.kind@,
            pos_start: self.pos_start as int,
            pos_end: self.pos_end as int,
            line: self.line as int,
            column: self.column as int,
        }
    }
}

/// The token that stands for "nothing read yet".
pub open spec fn init_token() -> TokenView {
    TokenView { kind: TokenKindView::Init, pos_start: 0, pos_end: 0, line: 1, column: 0 }
}

impl Token {
    /// The token a parser holds before it has read anything.
    pub fn init() -> (t: Self)
        ensures
            t@ == init_token(),
    {
        Self { kind: TokenKind::Init, pos_start: 0, pos_end: 0, column: 0, line: 1 }
    }

    /// A copy of this token.
    pub fn duplicate(&self) -> (t: Token)
        ensures
            t@ == self@,
    {
        Token {
            kind: self.kind.duplicate(),
            pos_start: self.pos_start,
            pos_end: self.pos_end,
            line: self.line,
            column: self.column,
        }
    }
}

/// The keyword that an identifier's text spells, if any.
pub open spec fn keyword_of(ident: Seq<char>) -> Option<TokenKindView> {
    if ident == "struct"@ {
        Some(TokenKindView::Struct)
    } else if ident == "enum"@ {
        Some(TokenKindView::Enum)
    } else {
        None
    }
}

/// Maps the reserved words `struct` and `enum` to their token kinds.
pub fn to_keyword(ident: &str) -> (r: Option<TokenKind>)
    ensures
        match r {
            Some(k) => keyword_of(ident@) == Some(k@),
            None => keyword_of(ident@) is None,
        },
{
    let chars = to_chars(ident);
    keyword_from_chars(chars.as_slice())
}

/// As [`to_keyword`], on a slice of characters.
pub fn keyword_from_chars(ident: &[char]) -> (r: Option<TokenKind>)
    ensures
        match r {
            Some(k) => keyword_of(ident@) == Some(k@),
            None => keyword_of(ident@) is None,
        },
{
    proof {
        reveal_strlit("struct");
        reveal_strlit("enum");
    }
    if ident.len() == 6 && ident[0] == 's' && ident[1] == 't' && ident[2] == 'r' && ident[3] == 'u'
        && ident[4] == 'c' && ident[5] == 't' {
        assert(ident@ =~= "struct"@);
        Some(TokenKind::Struct)
    } else if ident.len() == 4 && ident[0] == 'e' && ident[1] == 'n' && ident[2] == 'u'
        && ident[3] == 'm' {
        assert(ident@ =~= "enum"@);
        Some(TokenKind::Enum)
    } else {
        assert(ident@ != "struct"@) by {
            if ident@ == "struct"@ {
                assert(ident@.len() == 6);
                assert(ident@[0] == 's' && ident@[1] == 't' && ident@[2] == 'r' && ident@[3] == 'u'
                    && ident@[4] == 'c' && ident@[5] == 't');
            }
        }
        assert(ident@ != "enum"@) by {
            if ident@ == "enum"@ {
                assert(ident@.len() == 4);
                assert(ident@[0] == 'e' && ident@[1] == 'n' && ident@[2] == 'u' && ident@[3] == 'm');
            }
        }
        None
    }
}

} // verus!
