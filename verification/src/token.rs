//! The token model: one immutable record per lexical unit, plus the closed
//! set of lexical categories.

use vstd::prelude::*;

verus! {

/// The closed set of lexical categories.
#[allow(non_camel_case_types)]
#[derive(Debug, Clone, Copy, PartialEq, Eq, Structural, Hash)]
pub enum TokenType {
    // Single-character tokens.
    LEFT_PAREN,
    RIGHT_PAREN,
    LEFT_BRACE,
    RIGHT_BRACE,
    COMMA,
    DOT,
    MINUS,
    PLUS,
    SEMICOLON,
    SLASH,
    STAR,
    // One or two character tokens.
    BANG,
    BANG_EQUAL,
    EQUAL,
    EQUAL_EQUAL,
    GREATER,
    GREATER_EQUAL,
    LESS,
    LESS_EQUAL,
    // Literals.
    IDENTIFIER,
    STRING,
    NUMBER,
    // Keywords.
    AND,
    CLASS,
    ELSE,
    FALSE,
    FUN,
    FOR,
    IF,
    NIL,
    OR,
    PRINT,
    RETURN,
    SUPER,
    THIS,
    TRUE,
    VAR,
    WHILE,
    EOF,
}

/// A decoded literal value carried by STRING and NUMBER tokens (and by
/// literal expressions). A number keeps its exact source spelling, so that
/// nothing is lost to rounding; consumers that need an arithmetic value
/// convert the digits themselves.
#[derive(Debug, PartialEq)]
pub enum LiteralType {
    Str(String),
    Number(String),
    Bool(bool),
    Nil,
}

/// The mathematical value of a `LiteralType`.
pub enum LiteralModel {
    Str(Seq<char>),
    Number(Seq<char>),
    Bool(bool),
    Nil,
}

impl DeepView for LiteralType {
    type V = LiteralModel;

    open spec fn deep_view(&self) -> LiteralModel {
        match self {
            LiteralType::Str(s) => LiteralModel::Str(s@),
            LiteralType::Number(s) => LiteralModel::Number(s@),
            LiteralType::Bool(b) => LiteralModel::Bool(*b),
            LiteralType::Nil => LiteralModel::Nil,
        }
    }
}

impl Clone for LiteralType {
    fn clone(&self) -> (r: Self)
        ensures
            r.deep_view() == self.deep_view(),
    {
        match self {
            LiteralType::Str(s) => LiteralType::Str(s.clone()),
            LiteralType::Number(s) => LiteralType::Number(s.clone()),
            LiteralType::Bool(b) => LiteralType::Bool(*b),
            LiteralType::Nil => LiteralType::Nil,
        }
    }
}

/// The mathematical value of a `Token`: its category, the exact source
/// substring it was scanned from, its decoded literal value if any, and the
/// 1-based source line at which it starts.
pub struct TokenModel {
    pub token_type: TokenType,
    pub lexeme: Seq<char>,
    pub literal: Option<LiteralModel>,
    pub line: int,
}

/// One lexical unit. Produced once by the lexer and read-only afterwards.
#[derive(Debug, PartialEq)]
pub struct Token {
    pub token_type: TokenType,
    pub lexeme: String,
    pub literal: Option<LiteralType>,
    pub line: usize,
}

impl DeepView for Token {
    type V = TokenModel;

    open spec fn deep_view(&self) -> TokenModel {
        TokenModel {
            token_type: self.token_type,
            lexeme: self.lexeme@,
            literal: self.literal.deep_view(),
            line: self.line as int,
        }
    }
}

impl Clone for Token {
    fn clone(&self) -> (r: Self)
        ensures
            r.deep_view() == self.deep_view(),
    {
        let r = Token {
            token_type: self.token_type,
            lexeme: self.lexeme.clone(),
            literal: match &self.literal {
                Some(l) => Some(l.clone()),
                None => None,
            },
            line: self.line,
        };
        proof {
            assert(r.deep_view().literal =~= self.deep_view().literal);
        }
        r
    }
}

impl Token {
    pub fn new(token_type: TokenType, lexeme: String, literal: Option<LiteralType>, line: usize) -> (r: Self)
        ensures
            r.deep_view() == (TokenModel {
                token_type,
                lexeme: lexeme@,
                literal: literal.deep_view(),
                line: line as int,
            }),
    {
        Self { token_type, lexeme, literal, line }
    }

    /// A single-line description: category name, lexeme, literal value.
    pub fn to_string(&self) -> (r: String)
        ensures
            r@ == token_text(self.deep_view()),
    {
        let mut s = String::from_str(token_type_name(self.token_type));
        s.append(" ");
        s.append(self.lexeme.as_str());
        s.append(" ");
        match &self.literal {
            Some(LiteralType::Str(v)) => s.append(v.as_str()),
            Some(LiteralType::Number(v)) => s.append(v.as_str()),
            Some(LiteralType::Bool(b)) => {
                if *b {
                    s.append("true");
                } else {
                    s.append("false");
                }
            },
            Some(LiteralType::Nil) => s.append("nil"),
            None => s.append(""),
        }
        proof {
            reveal_strlit("");
            assert(s@ =~= token_text(self.deep_view()));
        }
        s
    }
}

/// The text of a literal value, as `Token::to_string` shows it.
pub open spec fn literal_text(l: Option<LiteralModel>) -> Seq<char> {
    match l {
        Some(LiteralModel::Str(s)) => s,
        Some(LiteralModel::Number(s)) => s,
        Some(LiteralModel::Bool(b)) => if b { "true"@ } else { "false"@ },
        Some(LiteralModel::Nil) => "nil"@,
        None => ""@,
    }
}

/// The text of a whole token, as `Token::to_string` shows it.
pub open spec fn token_text(t: TokenModel) -> Seq<char> {
    spec_token_type_name(t.token_type) + " "@ + t.lexeme + " "@ + literal_text(t.literal)
}

/// The name of a lexical category.
pub open spec fn spec_token_type_name(t: TokenType) -> Seq<char> {
    match t {
        TokenType::LEFT_PAREN => "LEFT_PAREN"@,
        TokenType::RIGHT_PAREN => "RIGHT_PAREN"@,
        TokenType::LEFT_BRACE => "LEFT_BRACE"@,
        TokenType::RIGHT_BRACE => "RIGHT_BRACE"@,
        TokenType::COMMA => "COMMA"@,
        TokenType::DOT => "DOT"@,
        TokenType::MINUS => "MINUS"@,
        TokenType::PLUS => "PLUS"@,
        TokenType::SEMICOLON => "SEMICOLON"@,
        TokenType::SLASH => "SLASH"@,
        TokenType::STAR => "STAR"@,
        TokenType::BANG => "BANG"@,
        TokenType::BANG_EQUAL => "BANG_EQUAL"@,
        TokenType::EQUAL => "EQUAL"@,
        TokenType::EQUAL_EQUAL => "EQUAL_EQUAL"@,
        TokenType::GREATER => "GREATER"@,
        TokenType::GREATER_EQUAL => "GREATER_EQUAL"@,
        TokenType::LESS => "LESS"@,
        TokenType::LESS_EQUAL => "LESS_EQUAL"@,
        TokenType::IDENTIFIER => "IDENTIFIER"@,
        TokenType::STRING => "STRING"@,
        TokenType::NUMBER => "NUMBER"@,
        TokenType::AND => "AND"@,
        TokenType::CLASS => "CLASS"@,
        TokenType::ELSE => "ELSE"@,
        TokenType::FALSE => "FALSE"@,
        TokenType::FUN => "FUN"@,
        TokenType::FOR => "FOR"@,
        TokenType::IF => "IF"@,
        TokenType::NIL => "NIL"@,
        TokenType::OR => "OR"@,
        TokenType::PRINT => "PRINT"@,
        TokenType::RETURN => "RETURN"@,
        TokenType::SUPER => "SUPER"@,
        TokenType::THIS => "THIS"@,
        TokenType::TRUE => "TRUE"@,
        TokenType::VAR => "VAR"@,
        TokenType::WHILE => "WHILE"@,
        TokenType::EOF => "EOF"@,
    }
}

/// The printable name of a lexical category.
pub fn token_type_name(t: TokenType) -> (r: &'static str)
    ensures
        r@ == spec_token_type_name(t),
{
    match t {
        TokenType::LEFT_PAREN => "LEFT_PAREN",
        TokenType::RIGHT_PAREN => "RIGHT_PAREN",
        TokenType::LEFT_BRACE => "LEFT_BRACE",
        TokenType::RIGHT_BRACE => "RIGHT_BRACE",
        TokenType::COMMA => "COMMA",
        TokenType::DOT => "DOT",
        TokenType::MINUS => "MINUS",
        TokenType::PLUS => "PLUS",
        TokenType::SEMICOLON => "SEMICOLON",
        TokenType::SLASH => "SLASH",
        TokenType::STAR => "STAR",
        TokenType::BANG => "BANG",
        TokenType::BANG_EQUAL => "BANG_EQUAL",
        TokenType::EQUAL => "EQUAL",
        TokenType::EQUAL_EQUAL => "EQUAL_EQUAL",
        TokenType::GREATER => "GREATER",
        TokenType::GREATER_EQUAL => "GREATER_EQUAL",
        TokenType::LESS => "LESS",
        TokenType::LESS_EQUAL => "LESS_EQUAL",
        TokenType::IDENTIFIER => "IDENTIFIER",
        TokenType::STRING => "STRING",
        TokenType::NUMBER => "NUMBER",
        TokenType::AND => "AND",
        TokenType::CLASS => "CLASS",
        TokenType::ELSE => "ELSE",
        TokenType::FALSE => "FALSE",
        TokenType::FUN => "FUN",
        TokenType::FOR => "FOR",
        TokenType::IF => "IF",
        TokenType::NIL => "NIL",
        TokenType::OR => "OR",
        TokenType::PRINT => "PRINT",
        TokenType::RETURN => "RETURN",
        TokenType::SUPER => "SUPER",
        TokenType::THIS => "THIS",
        TokenType::TRUE => "TRUE",
        TokenType::VAR => "VAR",
        TokenType::WHILE => "WHILE",
        TokenType::EOF => "EOF",
    }
}

} // verus!
