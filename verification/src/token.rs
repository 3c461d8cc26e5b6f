//! The token model: the executable token type handed to callers, its
//! mathematical counterpart used in contracts, and the scan errors.

use vstd::prelude::*;

verus! {

/// The mathematical form of a token, used in specifications.  Text payloads
/// are character sequences; otherwise it mirrors [`TokenTypes`] exactly.
#[allow(inconsistent_fields)]
pub enum Token {
    Add,
    Sub,
    Div,
    Mult,
    Mod,
    IntDiv,
    Pow,
    Inc,
    Dec,
    Assign,
    AddAssign,
    SubAssign,
    DivAssign,
    MultAssign,
    ModAssign,
    Equal,
    NotEqual,
    LessThan,
    Greater,
    LessEqual,
    GreaterEqual,
    And,
    Or,
    Not,
    BitAnd,
    BitOr,
    BitNot,
    /// An integer literal, or the bare type name `int` (then without a value).
    Int { value: Option<i64> },
    /// A decimal literal, carried as its exact text, or the bare type name
    /// `float` (then without a text).
    Float { text: Option<Seq<char>> },
    /// A quoted string literal, or the bare type name `string`.
    Str { value: Option<Seq<char>> },
    /// A boolean literal, or the bare type name `bool`.
    Bool { value: Option<bool> },
    /// The sentinel for "no token produced this step"; it never appears in
    /// the output sequence of a scan.
    NoToken,
    Var,
    Const,
    Print,
    If,
    Else,
    ElseIf,
    While,
    For,
    Function,
    Identifier { name: Seq<char> },
    LeftParen,
    RightParen,
    LeftCurly,
    RightCurly,
    LeftSquare,
    RightSquare,
    Colon,
    /// A statement boundary, produced for each newline character.
    EndStatement,
}

/// The unit of scanner output.  A payload is present if and only if the kind
/// is a literal or identifier kind; a bare type-name keyword (such as `int`
/// used as an annotation) carries `None` in its payload slot.
///
/// A decimal literal is carried as its exact source text; turning that text
/// into a machine floating-point number is the caller's affair.
#[allow(inconsistent_fields)]
#[derive(Debug, Clone, PartialEq)]
pub enum TokenTypes {
    Add,
    Sub,
    Div,
    Mult,
    Mod,
    IntDiv,
    Pow,
    Inc,
    Dec,
    Assign,
    AddAssign,
    SubAssign,
    DivAssign,
    MultAssign,
    ModAssign,
    Equal,
    NotEqual,
    LessThan,
    Greater,
    LessEqual,
    GreaterEqual,
    And,
    Or,
    Not,
    BitAnd,
    BitOr,
    BitNot,
    Int { value: Option<i64> },
    Float { text: Option<String> },
    Str { value: Option<String> },
    Bool { value: Option<bool> },
    NoToken,
    Var,
    Const,
    Print,
    If,
    Else,
    ElseIf,
    While,
    For,
    Function,
    Identifier { name: String },
    LeftParen,
    RightParen,
    LeftCurly,
    RightCurly,
    LeftSquare,
    RightSquare,
    Colon,
    EndStatement,
}

impl View for TokenTypes {
    type V = Token;

    open spec fn view(&self) -> Token {
        match self {
            TokenTypes::Add => Token::Add,
            TokenTypes::Sub => Token::Sub,
            TokenTypes::Div => Token::Div,
            TokenTypes::Mult => Token::Mult,
            TokenTypes::Mod => Token::Mod,
            TokenTypes::IntDiv => Token::IntDiv,
            TokenTypes::Pow => Token::Pow,
            TokenTypes::Inc => Token::Inc,
            TokenTypes::Dec => Token::Dec,
            TokenTypes::Assign => Token::Assign,
            TokenTypes::AddAssign => Token::AddAssign,
            TokenTypes::SubAssign => Token::SubAssign,
            TokenTypes::DivAssign => Token::DivAssign,
            TokenTypes::MultAssign => Token::MultAssign,
            TokenTypes::ModAssign => Token::ModAssign,
            TokenTypes::Equal => Token::Equal,
            TokenTypes::NotEqual => Token::NotEqual,
            TokenTypes::LessThan => Token::LessThan,
            TokenTypes::Greater => Token::Greater,
            TokenTypes::LessEqual => Token::LessEqual,
            TokenTypes::GreaterEqual => Token::GreaterEqual,
            TokenTypes::And => Token::And,
            TokenTypes::Or => Token::Or,
            TokenTypes::Not => Token::Not,
            TokenTypes::BitAnd => Token::BitAnd,
            TokenTypes::BitOr => Token::BitOr,
            TokenTypes::BitNot => Token::BitNot,
            TokenTypes::Int { value } => Token::Int { value: *value },
            TokenTypes::Float { text } => Token::Float {
                text: match text {
                    Option::Some(s) => Option::Some(s@),
                    Option::None => Option::None,
                },
            },
            TokenTypes::Str { value } => Token::Str {
                value: match value {
                    Option::Some(s) => Option::Some(s@),
                    Option::None => Option::None,
                },
            },
            TokenTypes::Bool { value } => Token::Bool { value: *value },
            TokenTypes::NoToken => Token::NoToken,
            TokenTypes::Var => Token::Var,
            TokenTypes::Const => Token::Const,
            TokenTypes::Print => Token::Print,
            TokenTypes::If => Token::If,
            TokenTypes::Else => Token::Else,
            TokenTypes::ElseIf => Token::ElseIf,
            TokenTypes::While => Token::While,
            TokenTypes::For => Token::For,
            TokenTypes::Function => Token::Function,
            TokenTypes::Identifier { name } => Token::Identifier { name: name@ },
            TokenTypes::LeftParen => Token::LeftParen,
            TokenTypes::RightParen => Token::RightParen,
            TokenTypes::LeftCurly => Token::LeftCurly,
            TokenTypes::RightCurly => Token::RightCurly,
            TokenTypes::LeftSquare => Token::LeftSquare,
            TokenTypes::RightSquare => Token::RightSquare,
            TokenTypes::Colon => Token::Colon,
            TokenTypes::EndStatement => Token::EndStatement,
        }
    }
}

/// The mathematical form of a token sequence: each token replaced by its
/// view.
pub open spec fn tokens_view(v: Seq<TokenTypes>) -> Seq<Token> {
    v.map_values(|t: TokenTypes| t@)
}

/// Why a scan failed.  A failure aborts the whole scan: no partial token
/// list is returned.
#[derive(Debug, Clone, Copy, PartialEq, Eq, Structural)]
pub enum ScanError {
    /// The character run collected for a numeric literal cannot be parsed as
    /// the implied numeric type: an integer run whose value does not fit in
    /// `i64`, or a decimal run with more than one decimal point.
    MalformedNumericLiteral,
    /// End of input was reached while scanning inside a quoted string.
    UnterminatedString,
}

} // verus!
