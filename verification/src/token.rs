//! Tokens: the words of the language.
use vstd::prelude::*;

verus! {

/// Every token of the language.
#[derive(Debug)]
pub enum Token {
    Function,
    Return,
    Comma,
    Local,
    Global,
    Assign,
    Multiply,
    Divide,
    Plus,
    Minus,
    Exponent,
    Equal,
    NotEqual,
    Less,
    LessEq,
    More,
    MoreEq,
    ParenthesisOpen,
    ParenthesisClose,
    SquareBracketOpen,
    SquareBracketClose,
    CurlyBracketOpen,
    CurlyBracketClose,
    If,
    Then,
    Else,
    ElseIf,
    While,
    Do,
    End,
    Nil,
    True,
    False,
    Identifier(String),
    /// A number literal as written in the source (digits, maybe a point and more digits).
    Numeral(String),
    /// A number literal's value, as the bits of an IEEE-754 double.
    Number(u64),
    Concat,
    Dot,
    String(String),
    /// An embedded block of another language: its name and its code.
    GuestBlock((String, String)),
}

/// The content of a token, with character sequences in place of strings.
pub enum TokenView {
    Function,
    Return,
    Comma,
    Local,
    Global,
    Assign,
    Multiply,
    Divide,
    Plus,
    Minus,
    Exponent,
    Equal,
    NotEqual,
    Less,
    LessEq,
    More,
    MoreEq,
    ParenthesisOpen,
    ParenthesisClose,
    SquareBracketOpen,
    SquareBracketClose,
    CurlyBracketOpen,
    CurlyBracketClose,
    If,
    Then,
    Else,
    ElseIf,
    While,
    Do,
    End,
    Nil,
    True,
    False,
    Identifier(Seq<char>),
    Numeral(Seq<char>),
    Number(u64),
    Concat,
    Dot,
    String(Seq<char>),
    GuestBlock(Seq<char>, Seq<char>),
}

impl View for Token {
    type V = TokenView;

    open spec fn view(&self) -> TokenView {
        match self {
            Token::Function => TokenView::Function,
            Token::Return => TokenView::Return,
            Token::Comma => TokenView::Comma,
            Token::Local => TokenView::Local,
            Token::Global => TokenView::Global,
            Token::Assign => TokenView::Assign,
            Token::Multiply => TokenView::Multiply,
            Token::Divide => TokenView::Divide,
            Token::Plus => TokenView::Plus,
            Token::Minus => TokenView::Minus,
            Token::Exponent => TokenView::Exponent,
            Token::Equal => TokenView::Equal,
            Token::NotEqual => TokenView::NotEqual,
            Token::Less => TokenView::Less,
            Token::LessEq => TokenView::LessEq,
            Token::More => TokenView::More,
            Token::MoreEq => TokenView::MoreEq,
            Token::ParenthesisOpen => TokenView::ParenthesisOpen,
            Token::ParenthesisClose => TokenView::ParenthesisClose,
            Token::SquareBracketOpen => TokenView::SquareBracketOpen,
            Token::SquareBracketClose => TokenView::SquareBracketClose,
            Token::CurlyBracketOpen => TokenView::CurlyBracketOpen,
            Token::CurlyBracketClose => TokenView::CurlyBracketClose,
            Token::If => TokenView::If,
            Token::Then => TokenView::Then,
            Token::Else => TokenView::Else,
            Token::ElseIf => TokenView::ElseIf,
            Token::While => TokenView::While,
            Token::Do => TokenView::Do,
            Token::End => TokenView::End,
            Token::Nil => TokenView::Nil,
            Token::True => TokenView::True,
            Token::False => TokenView::False,
            Token::Identifier(s) => TokenView::Identifier(s@),
            Token::Numeral(s) => TokenView::Numeral(s@),
            Token::Number(b) => TokenView::Number(*b),
            Token::Concat => TokenView::Concat,
            Token::Dot => TokenView::Dot,
            Token::String(s) => TokenView::String(s@),
            Token::GuestBlock((a, b)) => TokenView::GuestBlock(a@, b@),
        }
    }
}

} // verus!
