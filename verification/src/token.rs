//! The token data model: token kinds, literal payloads, and the immutable
//! token record produced by the scanner.

use vstd::prelude::*;
use vstd::string::StringExecFns;

verus! {

/// Every lexical category the scanner can emit: single-character
/// punctuation, one-or-two-character operators, literal categories,
/// reserved keywords, and the end-of-input sentinel.
#[derive(Debug, Clone, Copy, PartialEq, Eq, Structural)]
pub enum TokenType {
    // Single-character tokens
    LeftParen,
    RightParen,
    LeftBrace,
    RightBrace,
    Comma,
    Dot,
    Minus,
    Plus,
    Semicolon,
    Slash,
    Star,
    // One or two character tokens
    Bang,
    BangEqual,
    Equal,
    EqualEqual,
    Greater,
    GreaterEqual,
    Less,
    LessEqual,
    // Literals
    Identifier,
    String,
    Number,
    // Keywords
    And,
    Class,
    Else,
    False,
    Fun,
    For,
    If,
    Nil,
    Or,
    Print,
    Return,
    Super,
    This,
    True,
    Var,
    While,
    Eof,
}

/// The payload attached to a literal token: the text of a string literal
/// (quotes stripped, no escape processing), the exact source text of a
/// number literal, a boolean, or the absence of a value. A number keeps its
/// digits as text; turning that text into a machine float is left to
/// unverified consumers of the token stream.
#[derive(Debug, Clone, PartialEq)]
pub enum Literal {
    Str(String),
    Num(String),
    Nil,
    Bool(bool),
}

/// The mathematical value of a `Literal`: the same shape over `Seq<char>`.
#[verifier::ext_equal]
pub ghost enum LiteralView {
    Str(Seq<char>),
    Num(Seq<char>),
    Nil,
    Bool(bool),
}

impl View for Literal {
    type V = LiteralView;

    open spec fn view(&self) -> LiteralView {
        match self {
            Literal::Str(s) => LiteralView::Str(s@),
            Literal::Num(s) => LiteralView::Num(s@),
            Literal::Nil => LiteralView::Nil,
            Literal::Bool(b) => LiteralView::Bool(*b),
        }
    }
}

/// The view of an optional literal payload.
pub open spec fn literal_view(l: Option<Literal>) -> Option<LiteralView> {
    match l {
        Some(x) => Some(x@),
        None => None,
    }
}

/// One classified, positioned unit of lexical output, immutable once
/// constructed: its kind, the exact source substring that produced it, the
/// 1-based line on which that substring starts, and an optional literal
/// payload.
#[derive(Debug, Clone, PartialEq)]
pub struct Token {
    pub token_type: TokenType,
    pub lexeme: String,
    pub line_number: usize,
    pub literal: Option<Literal>,
}

/// The mathematical value of a `Token`.
#[verifier::ext_equal]
pub ghost struct TokenView {
    pub token_type: TokenType,
    pub lexeme: Seq<char>,
    pub line_number: int,
    pub literal: Option<LiteralView>,
}

impl View for Token {
    type V = TokenView;

    open spec fn view(&self) -> TokenView {
        TokenView {
            token_type: self.token_type,
            lexeme: self.lexeme@,
            line_number: self.line_number as int,
            literal: literal_view(self.literal),
        }
    }
}

impl Token {
    /// Builds a token from its parts; the result carries exactly them.
    pub fn new(token_type: TokenType, lexeme: String, literal: Option<Literal>, line_number: usize) -> (t: Token)
        ensures
            t@ == (TokenView {
                token_type,
                lexeme: lexeme@,
                line_number: line_number as int,
                literal: literal_view(literal),
            }),
    {
        Token { token_type, lexeme, line_number, literal }
    }

    /// The synthetic end-of-input token, stamped with the given line.
    pub fn eof(line_number: usize) -> (t: Token)
        ensures
            t@ == (TokenView {
                token_type: TokenType::Eof,
                lexeme: Seq::<char>::empty(),
                line_number: line_number as int,
                literal: None,
            }),
    {
        Token { token_type: TokenType::Eof, lexeme: String::new(), line_number, literal: None }
    }

    /// Renders the token for human inspection: its kind, its lexeme, and
    /// its literal payload, separated by single spaces. This format is for
    /// diagnostics only, not a stable wire format.
    pub fn to_string(&self) -> (r: String)
        ensures
            r@ == token_text(self@),
    {
        let mut out = String::new();
        out.append(token_type_text(self.token_type));
        out.append(" ");
        out.append(self.lexeme.as_str());
        out.append(" ");
        match &self.literal {
            None => {
                out.append("None");
            },
            Some(Literal::Str(s)) => {
                out.append("Some(Str(\"");
                out.append(s.as_str());
                out.append("\"))");
            },
            Some(Literal::Num(n)) => {
                out.append("Some(Num(");
                out.append(n.as_str());
                out.append("))");
            },
            Some(Literal::Nil) => {
                out.append("Some(Nil)");
            },
            Some(Literal::Bool(b)) => {
                if *b {
                    out.append("Some(Bool(true))");
                } else {
                    out.append("Some(Bool(false))");
                }
            },
        }
        proof {
            assert(out@ =~= token_text(self@));
        }
        out
    }
}

/// The rendered name of a token kind.
pub open spec fn token_type_name(t: TokenType) -> Seq<char> {
    match t {
        TokenType::LeftParen => "LeftParen"@,
        TokenType::RightParen => "RightParen"@,
        TokenType::LeftBrace => "LeftBrace"@,
        TokenType::RightBrace => "RightBrace"@,
        TokenType::Comma => "Comma"@,
        TokenType::Dot => "Dot"@,
        TokenType::Minus => "Minus"@,
        TokenType::Plus => "Plus"@,
        TokenType::Semicolon => "Semicolon"@,
        TokenType::Slash => "Slash"@,
        TokenType::Star => "Star"@,
        TokenType::Bang => "Bang"@,
        TokenType::BangEqual => "BangEqual"@,
        TokenType::Equal => "Equal"@,
        TokenType::EqualEqual => "EqualEqual"@,
        TokenType::Greater => "Greater"@,
        TokenType::GreaterEqual => "GreaterEqual"@,
        TokenType::Less => "Less"@,
        TokenType::LessEqual => "LessEqual"@,
        TokenType::Identifier => "Identifier"@,
        TokenType::String => "String"@,
        TokenType::Number => "Number"@,
        TokenType::And => "And"@,
        TokenType::Class => "Class"@,
        TokenType::Else => "Else"@,
        TokenType::False => "False"@,
        TokenType::Fun => "Fun"@,
        TokenType::For => "For"@,
        TokenType::If => "If"@,
        TokenType::Nil => "Nil"@,
        TokenType::Or => "Or"@,
        TokenType::Print => "Print"@,
        TokenType::Return => "Return"@,
        TokenType::Super => "Super"@,
        TokenType::This => "This"@,
        TokenType::True => "True"@,
        TokenType::Var => "Var"@,
        TokenType::While => "While"@,
        TokenType::Eof => "Eof"@,
    }
}

/// The rendered form of a literal payload.
pub open spec fn literal_text(l: Option<LiteralView>) -> Seq<char> {
    match l {
        None => "None"@,
        Some(LiteralView::Str(s)) => "Some(Str(\""@ + s + "\"))"@,
        Some(LiteralView::Num(n)) => "Some(Num("@ + n + "))"@,
        Some(LiteralView::Nil) => "Some(Nil)"@,
        Some(LiteralView::Bool(b)) => if b {
            "Some(Bool(true))"@
        } else {
            "Some(Bool(false))"@
        },
    }
}

/// The rendered form of a whole token.
pub open spec fn token_text(t: TokenView) -> Seq<char> {
    token_type_name(t.token_type) + " "@ + t.lexeme + " "@ + literal_text(t.literal)
}

/// The rendered name of a token kind, as a string slice.
fn token_type_text(t: TokenType) -> (r: &'static str)
    ensures
        r@ == token_type_name(t),
{
    match t {
        TokenType::LeftParen => "LeftParen",
        TokenType::RightParen => "RightParen",
        TokenType::LeftBrace => "LeftBrace",
        TokenType::RightBrace => "RightBrace",
        TokenType::Comma => "Comma",
        TokenType::Dot => "Dot",
        TokenType::Minus => "Minus",
        TokenType::Plus => "Plus",
        TokenType::Semicolon => "Semicolon",
        TokenType::Slash => "Slash",
        TokenType::Star => "Star",
        TokenType::Bang => "Bang",
        TokenType::BangEqual => "BangEqual",
        TokenType::Equal => "Equal",
        TokenType::EqualEqual => "EqualEqual",
        TokenType::Greater => "Greater",
        TokenType::GreaterEqual => "GreaterEqual",
        TokenType::Less => "Less",
        TokenType::LessEqual => "LessEqual",
        TokenType::Identifier => "Identifier",
        TokenType::String => "String",
        TokenType::Number => "Number",
        TokenType::And => "And",
        TokenType::Class => "Class",
        TokenType::Else => "Else",
        TokenType::False => "False",
        TokenType::Fun => "Fun",
        TokenType::For => "For",
        TokenType::If => "If",
        TokenType::Nil => "Nil",
        TokenType::Or => "Or",
        TokenType::Print => "Print",
        TokenType::Return => "Return",
        TokenType::Super => "Super",
        TokenType::This => "This",
        TokenType::True => "True",
        TokenType::Var => "Var",
        TokenType::While => "While",
        TokenType::Eof => "Eof",
    }
}

} // verus!
