//! The eight instructions of the language and the symbols that denote them.

use vstd::prelude::*;

verus! {

/// One instruction of the language.
#[derive(Debug, Clone, Copy, PartialEq, Eq, Structural)]
pub enum Token {
    /// `+`: add one to the current cell.
    Plus,
    /// `-`: subtract one from the current cell.
    Minus,
    /// `>`: move the pointer one cell to the right.
    Right,
    /// `<`: move the pointer one cell to the left.
    Left,
    /// `[`: open a loop.
    BeginLoop,
    /// `]`: close a loop.
    EndLoop,
    /// `,`: read one unit of input into the current cell.
    Input,
    /// `.`: write the current cell to the output.
    Output,
}

/// The instruction that a character denotes, if it denotes one.
pub open spec fn token_of(c: char) -> Option<Token> {
    if c == '+' {
        Some(Token::Plus)
    } else if c == '-' {
        Some(Token::Minus)
    } else if c == '>' {
        Some(Token::Right)
    } else if c == '<' {
        Some(Token::Left)
    } else if c == '[' {
        Some(Token::BeginLoop)
    } else if c == ']' {
        Some(Token::EndLoop)
    } else if c == ',' {
        Some(Token::Input)
    } else if c == '.' {
        Some(Token::Output)
    } else {
        None
    }
}

/// Whether a character is one of the eight instruction symbols.
pub open spec fn is_symbol(c: char) -> bool {
    token_of(c) is Some
}

impl Token {
    /// Reads one character as an instruction.  Characters other than the
    /// eight symbols denote nothing.
    pub fn from_char(c: char) -> (t: Option<Token>)
        ensures
            t == token_of(c),
    {
        match c {
            '+' => Some(Token::Plus),
            '-' => Some(Token::Minus),
            '>' => Some(Token::Right),
            '<' => Some(Token::Left),
            '[' => Some(Token::BeginLoop),
            ']' => Some(Token::EndLoop),
            ',' => Some(Token::Input),
            '.' => Some(Token::Output),
            _ => None,
        }
    }
}

} // verus!
