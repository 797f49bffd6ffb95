//! Scenario checks beyond the reference runs: categories of whole scans,
//! delimiter stripping, discard transparency, failure reports, the table's
//! literal sub-kind counts, and the engine stepped one call at a time.

use lexer::token_table;
use lexer::LiteralKind;
use lexer::NextToken;
use lexer::Parser;
use lexer::Token;
use lexer::TokenType;
use lexer::Tokenizer;
use lexer::PREVIEW_MAX;

fn lex(src: &str) -> Vec<Token<'_>> {
    let mut parser: Parser = Parser::init(src.as_bytes());
    parser.parse().expect("the input should tokenize")
}

fn categories(tokens: &[Token<'_>]) -> Vec<TokenType> {
    tokens.iter().map(|t| t.category).collect()
}

fn count_category(token_type: TokenType) -> usize {
    let mut count: usize = 0;
    for entry in token_table().iter() {
        if entry.category == token_type {
            count += 1;
        }
    }
    count
}

#[test]
fn literal_subkind_counts_are_fixed() {
    assert_eq!(count_category(TokenType::Literal(LiteralKind::Integer)), 1);
    assert_eq!(count_category(TokenType::Literal(LiteralKind::Character)), 1);
    assert_eq!(count_category(TokenType::Literal(LiteralKind::Text)), 1);
    assert_eq!(count_category(TokenType::Identifier), 1);
    assert_eq!(count_category(TokenType::AssignmentOperator), 5);
    assert_eq!(count_category(TokenType::Discard), 3);
    assert_eq!(token_table().len(), 52);
}

#[test]
fn character_literal_is_stripped_and_classified() {
    let tokens = lex("'c'");
    assert_eq!(tokens.len(), 1);
    assert_eq!(tokens[0].category, TokenType::Literal(LiteralKind::Character));
    assert_eq!(tokens[0].lexeme, b"c");
}

#[test]
fn string_literal_is_stripped_and_classified() {
    let tokens = lex("\"This is String\"");
    assert_eq!(tokens.len(), 1);
    assert_eq!(tokens[0].category, TokenType::Literal(LiteralKind::Text));
    assert_eq!(tokens[0].lexeme, b"This is String");
}

#[test]
fn comments_and_whitespace_are_transparent() {
    let tokens = lex("/* multi\nline */ 42 // trailing");
    assert_eq!(tokens.len(), 1);
    assert_eq!(tokens[0].category, TokenType::Literal(LiteralKind::Integer));
    assert_eq!(tokens[0].lexeme, b"42");
}

#[test]
fn operators_disambiguate_binary_from_assignment() {
    let tokens = lex("+ - / * == != >= > <= < = += -= *= /=");
    let expected: Vec<(&[u8], TokenType)> = vec![
        (b"+", TokenType::BinaryOperator),
        (b"-", TokenType::BinaryOperator),
        (b"/", TokenType::BinaryOperator),
        (b"*", TokenType::BinaryOperator),
        (b"==", TokenType::BinaryOperator),
        (b"!=", TokenType::BinaryOperator),
        (b">=", TokenType::BinaryOperator),
        (b">", TokenType::BinaryOperator),
        (b"<=", TokenType::BinaryOperator),
        (b"<", TokenType::BinaryOperator),
        (b"=", TokenType::AssignmentOperator),
        (b"+=", TokenType::AssignmentOperator),
        (b"-=", TokenType::AssignmentOperator),
        (b"*=", TokenType::AssignmentOperator),
        (b"/=", TokenType::AssignmentOperator),
    ];
    assert_eq!(tokens.len(), expected.len());
    for (token, (lexeme, category)) in tokens.iter().zip(expected.iter()) {
        assert_eq!(token.lexeme, *lexeme);
        assert_eq!(token.category, *category);
    }
}

#[test]
fn statement_categories_in_order() {
    let tokens = lex("if a==b { a++; } else { --a; }");
    assert_eq!(
        categories(&tokens),
        vec![
            TokenType::Keyword,
            TokenType::Identifier,
            TokenType::BinaryOperator,
            TokenType::Identifier,
            TokenType::Delimiter,
            TokenType::Identifier,
            TokenType::UnaryOperator,
            TokenType::Delimiter,
            TokenType::Delimiter,
            TokenType::Keyword,
            TokenType::Delimiter,
            TokenType::UnaryOperator,
            TokenType::Identifier,
            TokenType::Delimiter,
            TokenType::Delimiter,
        ]
    );
}

#[test]
fn garbage_input_fails_with_position_and_preview() {
    let mut parser: Parser = Parser::init(b"`");
    let error = parser.parse().expect_err("a backtick matches no pattern");
    assert_eq!(error.position, 0);
    assert_eq!(error.preview, b"`");
}

#[test]
fn failure_names_first_unrecognized_position() {
    let mut parser: Parser = Parser::init(b"a `b");
    let error = parser.parse().expect_err("a backtick matches no pattern");
    assert_eq!(error.position, 2);
    assert_eq!(error.preview, b"`b");
}

#[test]
fn failure_preview_is_bounded() {
    let long = "`".repeat(100);
    let mut parser: Parser = Parser::init(long.as_bytes());
    let error = parser.parse().expect_err("a backtick matches no pattern");
    assert_eq!(error.position, 0);
    assert_eq!(error.preview.len(), PREVIEW_MAX);
}

#[test]
fn empty_input_yields_no_tokens() {
    let tokens = lex("");
    assert!(tokens.is_empty());
}

#[test]
fn whitespace_only_input_yields_no_tokens() {
    let tokens = lex(" \t\r\n  ");
    assert!(tokens.is_empty());
}

#[test]
fn unterminated_string_fails_at_the_quote() {
    let mut parser: Parser = Parser::init(b"\"abc");
    let error = parser.parse().expect_err("no closing quote, no match");
    assert_eq!(error.position, 0);
}

#[test]
fn unterminated_block_comment_falls_back_to_operators() {
    let tokens = lex("/*x");
    let lexemes: Vec<&[u8]> = tokens.iter().map(|t| t.lexeme).collect();
    assert_eq!(lexemes, vec![&b"/"[..], b"*", b"x"]);
    assert_eq!(
        categories(&tokens),
        vec![
            TokenType::BinaryOperator,
            TokenType::BinaryOperator,
            TokenType::Identifier,
        ]
    );
}

#[test]
fn keywords_do_not_swallow_identifier_heads() {
    let tokens = lex("ifx intx returned");
    assert_eq!(
        categories(&tokens),
        vec![
            TokenType::Identifier,
            TokenType::Identifier,
            TokenType::Identifier,
        ]
    );
}

#[test]
fn arrow_is_a_delimiter_not_two_operators() {
    let tokens = lex("->");
    assert_eq!(tokens.len(), 1);
    assert_eq!(tokens[0].category, TokenType::Delimiter);
    assert_eq!(tokens[0].lexeme, b"->");
}

#[test]
fn tokenizer_steps_through_input_one_token_at_a_time() {
    let mut tokenizer: Tokenizer = Tokenizer::init(b"x = 1;");
    assert!(tokenizer.has_more_tokens());
    let expected: Vec<(&[u8], TokenType)> = vec![
        (b"x", TokenType::Identifier),
        (b"=", TokenType::AssignmentOperator),
        (b"1", TokenType::Literal(LiteralKind::Integer)),
        (b";", TokenType::Delimiter),
    ];
    for (lexeme, category) in expected {
        match tokenizer.get_next_token() {
            NextToken::Token(token) => {
                assert_eq!(token.lexeme, lexeme);
                assert_eq!(token.category, category);
            }
            _ => panic!("expected a token"),
        }
    }
    assert!(matches!(tokenizer.get_next_token(), NextToken::EndOfInput));
    assert!(!tokenizer.has_more_tokens());
}

#[test]
fn tokenizer_rests_at_the_failure_position() {
    let mut tokenizer: Tokenizer = Tokenizer::init(b"1 ` 2");
    match tokenizer.get_next_token() {
        NextToken::Token(token) => assert_eq!(token.lexeme, b"1"),
        _ => panic!("expected a token"),
    }
    match tokenizer.get_next_token() {
        NextToken::Failure(error) => {
            assert_eq!(error.position, 2);
            assert_eq!(error.preview, b"` 2");
        }
        _ => panic!("expected a failure"),
    }
}

#[test]
fn character_literal_may_hold_any_plain_byte() {
    let tokens = lex("' '");
    assert_eq!(tokens.len(), 1);
    assert_eq!(tokens[0].category, TokenType::Literal(LiteralKind::Character));
    assert_eq!(tokens[0].lexeme, b" ");
}

#[test]
fn empty_string_literal_has_empty_lexeme() {
    let tokens = lex("\"\"");
    assert_eq!(tokens.len(), 1);
    assert_eq!(tokens[0].category, TokenType::Literal(LiteralKind::Text));
    assert_eq!(tokens[0].lexeme, b"");
}

#[test]
fn lone_apostrophe_fails() {
    let mut parser: Parser = Parser::init(b"''");
    let error = parser.parse().expect_err("an empty character literal matches no pattern");
    assert_eq!(error.position, 0);
}
