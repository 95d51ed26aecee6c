//! The tokens that the lexer produces.
use vstd::prelude::*;

verus! {

/// A lexical token of a dice expression.
///
/// `S` is the type of the text that the two text-carrying tokens hold: the
/// lexer produces `Token<String>`, and its contract speaks of
/// `Token<Seq<char>>`, the same token with its text as a character sequence.
#[derive(Debug, Clone, PartialEq)]
pub enum Token<S> {
    /// A numeric literal, as written (digits with at most one `.`).
    Number(S),
    /// The text of an annotation, between `[` and `]`, trimmed.
    AnnotationText(S),
    /// `+`
    Plus,
    /// `-`
    Minus,
    /// `*`
    Star,
    /// `/`
    Slash,
    /// `//`
    DoubleSlash,
    /// `%`
    Percent,
    /// `==`
    EqualEqual,
    /// `!=`
    NotEqual,
    /// `>`
    Greater,
    /// `>=`
    GreaterEqual,
    /// `<`
    Less,
    /// `<=`
    LessEqual,
    /// `(`
    LParen,
    /// `)`
    RParen,
    /// `{`
    SetStart,
    /// `}`
    SetEnd,
    /// `[`, which opens an annotation
    AnnotationStart,
    /// `]`
    AnnotationEnd,
    /// `,`
    Comma,
    /// `d`
    Dice,
    /// `d%`
    DicePercent,
    /// `k`
    Keep,
    /// `p`
    Drop,
    /// `rr`
    Reroll,
    /// `ro`
    RerollOnce,
    /// `ra`
    RerollAdd,
    /// `e` or `!`
    Explode,
    /// `mi`
    Min,
    /// `ma`
    Max,
    /// `h`
    SelectorHigh,
    /// `l`
    SelectorLow,
    /// the end of the input
    Eof,
}

impl View for Token<String> {
    type V = Token<Seq<char>>;

    open spec fn view(&self) -> Token<Seq<char>> {
        match self {
            Token::Number(s) => Token::Number(s@),
            Token::AnnotationText(s) => Token::AnnotationText(s@),
            Token::Plus => Token::Plus,
            Token::Minus => Token::Minus,
            Token::Star => Token::Star,
            Token::Slash => Token::Slash,
            Token::DoubleSlash => Token::DoubleSlash,
            Token::Percent => Token::Percent,
            Token::EqualEqual => Token::EqualEqual,
            Token::NotEqual => Token::NotEqual,
            Token::Greater => Token::Greater,
            Token::GreaterEqual => Token::GreaterEqual,
            Token::Less => Token::Less,
            Token::LessEqual => Token::LessEqual,
            Token::LParen => Token::LParen,
            Token::RParen => Token::RParen,
            Token::SetStart => Token::SetStart,
            Token::SetEnd => Token::SetEnd,
            Token::AnnotationStart => Token::AnnotationStart,
            Token::AnnotationEnd => Token::AnnotationEnd,
            Token::Comma => Token::Comma,
            Token::Dice => Token::Dice,
            Token::DicePercent => Token::DicePercent,
            Token::Keep => Token::Keep,
            Token::Drop => Token::Drop,
            Token::Reroll => Token::Reroll,
            Token::RerollOnce => Token::RerollOnce,
            Token::RerollAdd => Token::RerollAdd,
            Token::Explode => Token::Explode,
            Token::Min => Token::Min,
            Token::Max => Token::Max,
            Token::SelectorHigh => Token::SelectorHigh,
            Token::SelectorLow => Token::SelectorLow,
            Token::Eof => Token::Eof,
        }
    }
}

} // verus!
