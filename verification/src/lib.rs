//! A lexical scanner for a small C-like language.
//!
//! The scanner turns raw source text into an ordered sequence of classified
//! tokens: the priority-ordered pattern table decides which lexeme starts at
//! the cursor, the scanning engine commits the first entry that matches,
//! strips delimiters from quoted literals, skips whitespace and comments, and
//! either emits a token or reports the first unrecognized position.

pub mod pattern;
pub mod scan;
pub mod table;
pub mod token;

pub use scan::NextToken;
pub use scan::Parser;
pub use scan::Tokenizer;
pub use table::token_table;
pub use table::Entry;
pub use token::LexError;
pub use token::LiteralKind;
pub use token::SpecToken;
pub use token::Token;
pub use token::TokenType;
pub use token::PREVIEW_MAX;
