use vstd::prelude::*;

verus! {

/// The kinds of lexical unit. What a literal carries is kept in the token
/// itself: a string literal's text is its lexeme without the quotes, an
/// identifier's name is its lexeme, a number's value is `Token::value`.
#[derive(Clone, Copy, Debug, PartialEq, Eq, Structural)]
pub enum TokenType {
    LeftParen,
    RightParen,
    LeftBrace,
    RightBrace,
    Comma,
    Dot,
    Minus,
    Plus,
    Semicolon,
    Slash,
    Star,
    Bang,
    BangEqual,
    Equal,
    EqualEqual,
    Greater,
    GreaterEqual,
    Less,
    LessEqual,
    Identifier,
    String,
    Number,
    And,
    Class,
    Else,
    False,
    For,
    Fun,
    If,
    Nil,
    Or,
    Print,
    Return,
    Super,
    This,
    True,
    Var,
    While,
    Eof,
}

/// A lexical unit: its kind, the source text it was read from, the value of
/// a number literal (a fixed-point decimal, see `crate::number`; zero for
/// every other kind), and the line on which it ended.
#[derive(Debug)]
pub struct Token {
    pub token_type: TokenType,
    pub lexeme: Vec<char>,
    pub value: i64,
    pub line: usize,
}

/// The mathematical model of a token.
pub struct TokenModel {
    pub token_type: TokenType,
    pub lexeme: Seq<char>,
    pub value: int,
    pub line: nat,
}

impl View for Token {
    type V = TokenModel;

    open spec fn view(&self) -> TokenModel {
        TokenModel {
            token_type: self.token_type,
            lexeme: self.lexeme@,
            value: self.value as int,
            line: self.line as nat,
        }
    }
}

impl Token {
    pub fn new(token_type: TokenType, lexeme: Vec<char>, value: i64, line: usize) -> (r: Token)
        ensures
            r.token_type == token_type,
            r.lexeme@ == lexeme@,
            r.value == value,
            r.line == line,
    {
        Token { token_type, lexeme, value, line }
    }

    /// A copy of this token with the same model.
    pub fn duplicate(&self) -> (r: Token)
        ensures
            r@ == self@,
    {
        let lexeme = self.lexeme.clone();
        assert(lexeme@ =~= self.lexeme@);
        Token { token_type: self.token_type, lexeme, value: self.value, line: self.line }
    }
}

} // verus!
