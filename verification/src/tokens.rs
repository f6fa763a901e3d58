use vstd::prelude::*;

verus! {

/// The tokens produced by the lexer.
#[derive(Copy, Clone, PartialEq, Eq, Structural, Debug)]
pub enum Token {
    //keywords
    Array,
    Rec,
    Break,
    Do,
    End,
    While,
    If,
    Then,
    Else,
    For,
    In,
    Let,
    Of,
    To,
    Type,
    Var,
    Function,
    Nil,
    Int,
    TokString,
    //structural symbols
    Plus,
    Minus,
    Mul,
    Div,
    LogAnd,
    LogNot,
    LogOr,
    Equals,
    LessEquals,
    GreaterEquals,
    LessThan,
    GreaterThan,
    LessThanGreaterThan,
    ColonEquals,
    LeftParen,
    RightParen,
    LeftCurly,
    RightCurly,
    LeftSquare,
    RightSquare,
    SemiColon,
    Colon,
    Comma,
    Dot,
    //error/init/eof
    Error,
    NoToken,
    Eof,
    NewLine,
    Ident,
    Number,
}

impl Default for Token {
    fn default() -> (t: Token)
        ensures
            t == Token::NoToken,
    {
        Token::NoToken
    }
}

} // verus!
