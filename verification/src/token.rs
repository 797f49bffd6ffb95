//! The token category model: the closed set of token kinds, the token value
//! itself, and the failure report for unrecognized input.

use vstd::prelude::*;

verus! {

/// The sub-kind of a literal token.
#[derive(Clone, Copy, Debug, PartialEq, Eq, Structural)]
pub enum LiteralKind {
    /// A run of decimal digits.
    Integer,
    /// A single character between apostrophes, stored without them.
    Character,
    /// A quoted string, stored without the surrounding quotes.
    Text,
}

/// The classification assigned to a matched lexeme.
#[derive(Clone, Copy, Debug, PartialEq, Eq, Structural)]
pub enum TokenType {
    /// Whitespace and comments: matched and consumed, never emitted.
    Discard,
    /// A reserved word such as `if` or `while`.
    Keyword,
    /// A built-in data-type name: `char`, `int` or `str`.
    DataType,
    /// A name introduced by the program under scan.
    Identifier,
    /// A literal, refined by its sub-kind.
    Literal(LiteralKind),
    /// A unary operator such as `++` or `!`.
    UnaryOperator,
    /// A binary operator such as `+` or `==`.
    BinaryOperator,
    /// An assignment operator such as `=` or `+=`.
    AssignmentOperator,
    /// A punctuation mark such as `{`, `->` or `;`.
    Delimiter,
}

/// A classified lexeme: the category together with the exact source bytes it
/// stands for. For quoted literals the delimiters are already stripped; every
/// other lexeme is a verbatim slice of the source.
#[derive(Clone, Copy, Debug)]
pub struct Token<'a> {
    pub category: TokenType,
    pub lexeme: &'a [u8],
}

/// The mathematical image of a [`Token`]: its category and the byte sequence
/// of its lexeme.
pub ghost struct SpecToken {
    pub category: TokenType,
    pub lexeme: Seq<u8>,
}

impl<'a> View for Token<'a> {
    type V = SpecToken;

    open spec fn view(&self) -> SpecToken {
        SpecToken { category: self.category, lexeme: self.lexeme@ }
    }
}

/// How many bytes of the unconsumed input a failure report carries at most.
pub const PREVIEW_MAX: usize = 32;

/// The single failure mode: no table entry matches at `position`. `preview`
/// holds the next bytes of the input from that position, cut off after
/// [`PREVIEW_MAX`] bytes.
#[derive(Clone, Copy, Debug)]
pub struct LexError<'a> {
    pub position: usize,
    pub preview: &'a [u8],
}

} // verus!
