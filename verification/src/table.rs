//! The pattern table: the total recognition grammar as one ordered list of
//! (pattern, category) pairs. The order is part of the contract: the engine
//! commits to the first entry that matches, so every entry stands before the
//! entries it would otherwise be shadowed by — a compound operator before its
//! one-byte prefix, a comment opener before the division sign, a keyword
//! before the identifier pattern.

use vstd::prelude::*;

use crate::pattern::Pattern;
use crate::token::LiteralKind;
use crate::token::TokenType;

verus! {

/// One row of the pattern table: a recognition pattern and the category a
/// match of it is tagged with.
#[derive(Clone, Copy, Debug, PartialEq, Eq, Structural)]
pub struct Entry {
    pub pattern: Pattern,
    pub category: TokenType,
}

/// The declared pattern table. Entries are tried strictly in this order.
///
/// The compound forms `= += -= *= /=` carry the assignment category in the
/// entries that fire; the binary-operator rows for the same spellings stand
/// further down, so the binary category keeps its full documented count of
/// fifteen spellings while an assignment form always wins at scan time.
pub open spec fn table_model() -> Seq<Entry> {
    seq![
        Entry { pattern: Pattern::Whitespace, category: TokenType::Discard },
        Entry { pattern: Pattern::LineComment, category: TokenType::Discard },
        Entry { pattern: Pattern::BlockComment, category: TokenType::Discard },
        Entry { pattern: Pattern::KwBreak, category: TokenType::Keyword },
        Entry { pattern: Pattern::KwContinue, category: TokenType::Keyword },
        Entry { pattern: Pattern::KwElif, category: TokenType::Keyword },
        Entry { pattern: Pattern::KwElse, category: TokenType::Keyword },
        Entry { pattern: Pattern::KwFun, category: TokenType::Keyword },
        Entry { pattern: Pattern::KwIf, category: TokenType::Keyword },
        Entry { pattern: Pattern::KwReturn, category: TokenType::Keyword },
        Entry { pattern: Pattern::KwWhile, category: TokenType::Keyword },
        Entry { pattern: Pattern::TyChar, category: TokenType::DataType },
        Entry { pattern: Pattern::TyInt, category: TokenType::DataType },
        Entry { pattern: Pattern::TyStr, category: TokenType::DataType },
        Entry { pattern: Pattern::IntLit, category: TokenType::Literal(LiteralKind::Integer) },
        Entry { pattern: Pattern::CharLit, category: TokenType::Literal(LiteralKind::Character) },
        Entry { pattern: Pattern::TextLit, category: TokenType::Literal(LiteralKind::Text) },
        Entry { pattern: Pattern::Ident, category: TokenType::Identifier },
        Entry { pattern: Pattern::Sym2(43u8, 43u8), category: TokenType::UnaryOperator },  // ++
        Entry { pattern: Pattern::Sym2(45u8, 45u8), category: TokenType::UnaryOperator },  // --
        Entry { pattern: Pattern::Sym2(45u8, 62u8), category: TokenType::Delimiter },  // ->
        Entry { pattern: Pattern::Sym2(61u8, 61u8), category: TokenType::BinaryOperator },  // ==
        Entry { pattern: Pattern::Sym2(33u8, 61u8), category: TokenType::BinaryOperator },  // !=
        Entry { pattern: Pattern::Sym2(62u8, 61u8), category: TokenType::BinaryOperator },  // >=
        Entry { pattern: Pattern::Sym2(60u8, 61u8), category: TokenType::BinaryOperator },  // <=
        Entry { pattern: Pattern::Sym2(43u8, 61u8), category: TokenType::AssignmentOperator },  // +=
        Entry { pattern: Pattern::Sym2(45u8, 61u8), category: TokenType::AssignmentOperator },  // -=
        Entry { pattern: Pattern::Sym2(42u8, 61u8), category: TokenType::AssignmentOperator },  // *=
        Entry { pattern: Pattern::Sym2(47u8, 61u8), category: TokenType::AssignmentOperator },  // /=
        Entry { pattern: Pattern::Sym1(61u8), category: TokenType::AssignmentOperator },  // =
        Entry { pattern: Pattern::Sym2(43u8, 61u8), category: TokenType::BinaryOperator },  // +=
        Entry { pattern: Pattern::Sym2(45u8, 61u8), category: TokenType::BinaryOperator },  // -=
        Entry { pattern: Pattern::Sym2(42u8, 61u8), category: TokenType::BinaryOperator },  // *=
        Entry { pattern: Pattern::Sym2(47u8, 61u8), category: TokenType::BinaryOperator },  // /=
        Entry { pattern: Pattern::Sym1(61u8), category: TokenType::BinaryOperator },  // =
        Entry { pattern: Pattern::Sym1(43u8), category: TokenType::BinaryOperator },  // +
        Entry { pattern: Pattern::Sym1(45u8), category: TokenType::BinaryOperator },  // -
        Entry { pattern: Pattern::Sym1(42u8), category: TokenType::BinaryOperator },  // *
        Entry { pattern: Pattern::Sym1(47u8), category: TokenType::BinaryOperator },  // /
        Entry { pattern: Pattern::Sym1(62u8), category: TokenType::BinaryOperator },  // >
        Entry { pattern: Pattern::Sym1(60u8), category: TokenType::BinaryOperator },  // <
        Entry { pattern: Pattern::Sym1(33u8), category: TokenType::UnaryOperator },  // !
        Entry { pattern: Pattern::Sym1(38u8), category: TokenType::UnaryOperator },  // &
        Entry { pattern: Pattern::Sym1(40u8), category: TokenType::Delimiter },  // (
        Entry { pattern: Pattern::Sym1(41u8), category: TokenType::Delimiter },  // )
        Entry { pattern: Pattern::Sym1(91u8), category: TokenType::Delimiter },  // [
        Entry { pattern: Pattern::Sym1(93u8), category: TokenType::Delimiter },  // ]
        Entry { pattern: Pattern::Sym1(123u8), category: TokenType::Delimiter },  // {
        Entry { pattern: Pattern::Sym1(125u8), category: TokenType::Delimiter },  // }
        Entry { pattern: Pattern::Sym1(58u8), category: TokenType::Delimiter },  // :
        Entry { pattern: Pattern::Sym1(44u8), category: TokenType::Delimiter },  // ,
        Entry { pattern: Pattern::Sym1(59u8), category: TokenType::Delimiter },  // ;
    ]
}

/// How many entries of `t` from position `i` on carry category `c`.
pub open spec fn count_category_from(t: Seq<Entry>, c: TokenType, i: nat) -> nat
    decreases t.len() - i,
    when i <= t.len()
{
    if i >= t.len() {
        0
    } else {
        (if t[i as int].category == c {
            1nat
        } else {
            0nat
        }) + count_category_from(t, c, i + 1)
    }
}

/// How many entries of the table carry category `c`.
pub open spec fn count_category(c: TokenType) -> nat {
    count_category_from(table_model(), c, 0)
}

/// Builds the table as a value. It equals the declared [`table_model`] row
/// for row, so one constructed table serves any number of scans.
pub fn token_table() -> (t: Vec<Entry>)
    ensures
        t@ == table_model(),
{
    let t: Vec<Entry> = vec![
        Entry { pattern: Pattern::Whitespace, category: TokenType::Discard },
        Entry { pattern: Pattern::LineComment, category: TokenType::Discard },
        Entry { pattern: Pattern::BlockComment, category: TokenType::Discard },
        Entry { pattern: Pattern::KwBreak, category: TokenType::Keyword },
        Entry { pattern: Pattern::KwContinue, category: TokenType::Keyword },
        Entry { pattern: Pattern::KwElif, category: TokenType::Keyword },
        Entry { pattern: Pattern::KwElse, category: TokenType::Keyword },
        Entry { pattern: Pattern::KwFun, category: TokenType::Keyword },
        Entry { pattern: Pattern::KwIf, category: TokenType::Keyword },
        Entry { pattern: Pattern::KwReturn, category: TokenType::Keyword },
        Entry { pattern: Pattern::KwWhile, category: TokenType::Keyword },
        Entry { pattern: Pattern::TyChar, category: TokenType::DataType },
        Entry { pattern: Pattern::TyInt, category: TokenType::DataType },
        Entry { pattern: Pattern::TyStr, category: TokenType::DataType },
        Entry { pattern: Pattern::IntLit, category: TokenType::Literal(LiteralKind::Integer) },
        Entry { pattern: Pattern::CharLit, category: TokenType::Literal(LiteralKind::Character) },
        Entry { pattern: Pattern::TextLit, category: TokenType::Literal(LiteralKind::Text) },
        Entry { pattern: Pattern::Ident, category: TokenType::Identifier },
        Entry { pattern: Pattern::Sym2(43u8, 43u8), category: TokenType::UnaryOperator },
        Entry { pattern: Pattern::Sym2(45u8, 45u8), category: TokenType::UnaryOperator },
        Entry { pattern: Pattern::Sym2(45u8, 62u8), category: TokenType::Delimiter },
        Entry { pattern: Pattern::Sym2(61u8, 61u8), category: TokenType::BinaryOperator },
        Entry { pattern: Pattern::Sym2(33u8, 61u8), category: TokenType::BinaryOperator },
        Entry { pattern: Pattern::Sym2(62u8, 61u8), category: TokenType::BinaryOperator },
        Entry { pattern: Pattern::Sym2(60u8, 61u8), category: TokenType::BinaryOperator },
        Entry { pattern: Pattern::Sym2(43u8, 61u8), category: TokenType::AssignmentOperator },
        Entry { pattern: Pattern::Sym2(45u8, 61u8), category: TokenType::AssignmentOperator },
        Entry { pattern: Pattern::Sym2(42u8, 61u8), category: TokenType::AssignmentOperator },
        Entry { pattern: Pattern::Sym2(47u8, 61u8), category: TokenType::AssignmentOperator },
        Entry { pattern: Pattern::Sym1(61u8), category: TokenType::AssignmentOperator },
        Entry { pattern: Pattern::Sym2(43u8, 61u8), category: TokenType::BinaryOperator },
        Entry { pattern: Pattern::Sym2(45u8, 61u8), category: TokenType::BinaryOperator },
        Entry { pattern: Pattern::Sym2(42u8, 61u8), category: TokenType::BinaryOperator },
        Entry { pattern: Pattern::Sym2(47u8, 61u8), category: TokenType::BinaryOperator },
        Entry { pattern: Pattern::Sym1(61u8), category: TokenType::BinaryOperator },
        Entry { pattern: Pattern::Sym1(43u8), category: TokenType::BinaryOperator },
        Entry { pattern: Pattern::Sym1(45u8), category: TokenType::BinaryOperator },
        Entry { pattern: Pattern::Sym1(42u8), category: TokenType::BinaryOperator },
        Entry { pattern: Pattern::Sym1(47u8), category: TokenType::BinaryOperator },
        Entry { pattern: Pattern::Sym1(62u8), category: TokenType::BinaryOperator },
        Entry { pattern: Pattern::Sym1(60u8), category: TokenType::BinaryOperator },
        Entry { pattern: Pattern::Sym1(33u8), category: TokenType::UnaryOperator },
        Entry { pattern: Pattern::Sym1(38u8), category: TokenType::UnaryOperator },
        Entry { pattern: Pattern::Sym1(40u8), category: TokenType::Delimiter },
        Entry { pattern: Pattern::Sym1(41u8), category: TokenType::Delimiter },
        Entry { pattern: Pattern::Sym1(91u8), category: TokenType::Delimiter },
        Entry { pattern: Pattern::Sym1(93u8), category: TokenType::Delimiter },
        Entry { pattern: Pattern::Sym1(123u8), category: TokenType::Delimiter },
        Entry { pattern: Pattern::Sym1(125u8), category: TokenType::Delimiter },
        Entry { pattern: Pattern::Sym1(58u8), category: TokenType::Delimiter },
        Entry { pattern: Pattern::Sym1(44u8), category: TokenType::Delimiter },
        Entry { pattern: Pattern::Sym1(59u8), category: TokenType::Delimiter },
    ];
    proof {
        assert(t@ =~= table_model());
    }
    t
}

/// The language surface is a fixed, finite set of constructs: the table holds
/// exactly the documented number of entries of each flat category and of each
/// literal sub-kind. Changing the language must change these counts with it.
#[verifier::rlimit(60)]
pub proof fn lemma_table_category_counts()
    ensures
        count_category(TokenType::Discard) == 3,
        count_category(TokenType::Keyword) == 8,
        count_category(TokenType::DataType) == 3,
        count_category(TokenType::Identifier) == 1,
        count_category(TokenType::Literal(LiteralKind::Integer)) == 1,
        count_category(TokenType::Literal(LiteralKind::Character)) == 1,
        count_category(TokenType::Literal(LiteralKind::Text)) == 1,
        count_category(TokenType::UnaryOperator) == 4,
        count_category(TokenType::BinaryOperator) == 15,
        count_category(TokenType::AssignmentOperator) == 5,
        count_category(TokenType::Delimiter) == 10,
{
    reveal_with_fuel(count_category_from, 54);
}

} // verus!
