//! The reference scenarios: whole-input scans checked against their expected
//! lexeme sequences, and the fixed per-category entry counts of the table.

use lexer::token_table;
use lexer::Parser;
use lexer::Token;
use lexer::TokenType;

fn lex(src: &str) -> Vec<Token<'_>> {
    let mut parser: Parser = Parser::init(src.as_bytes());
    parser.parse().expect("the input should tokenize")
}

fn lexemes<'a>(tokens: &[Token<'a>]) -> Vec<&'a str> {
    tokens
        .iter()
        .map(|t| std::str::from_utf8(t.lexeme).expect("lexemes of str input are str"))
        .collect()
}

fn count_token_types(token_type: TokenType) -> usize {
    let mut count: usize = 0;
    for entry in token_table().iter() {
        if entry.category == token_type {
            count += 1;
        }
    }
    count
}

#[test]
fn test_lexing_comments() {
    let tokens = lex("/* multi\nline */ 42 // single-line");
    assert_eq!(lexemes(&tokens), vec!["42"]);
}

#[test]
fn test_lexing_character() {
    let tokens = lex("'c'");
    assert_eq!(lexemes(&tokens), vec!["c"]);
}

#[test]
fn test_lexing_integer() {
    let tokens = lex("42");
    assert_eq!(lexemes(&tokens), vec!["42"]);
}

#[test]
fn test_lexing_string() {
    let tokens = lex("\"This is String\"");
    assert_eq!(lexemes(&tokens), vec!["This is String"]);
}

#[test]
fn test_lexing_datatypes() {
    let datatype_count: usize = count_token_types(TokenType::DataType);
    assert_eq!(datatype_count, 3, "Exhaustive testing of DataTypes");

    let tokens = lex("char int str");
    assert_eq!(lexemes(&tokens), vec!["char", "int", "str"]);
}

#[test]
fn test_lexing_keywords() {
    let keyword_count: usize = count_token_types(TokenType::Keyword);
    assert_eq!(keyword_count, 8, "Exhaustive testing of Keywords");

    let tokens = lex("break continue elif else fun if return while");
    assert_eq!(
        lexemes(&tokens),
        vec!["break", "continue", "elif", "else", "fun", "if", "return", "while"]
    );
}

#[test]
fn test_lexing_unary_operators() {
    let operator_count: usize = count_token_types(TokenType::UnaryOperator);
    assert_eq!(operator_count, 4, "Exhaustive testing of UnaryOperators");

    let tokens = lex("++ -- ! &");
    assert_eq!(lexemes(&tokens), vec!["++", "--", "!", "&"]);
}

#[test]
fn test_lexing_binary_operators() {
    let operator_count: usize = count_token_types(TokenType::BinaryOperator);
    assert_eq!(operator_count, 15, "Exhaustive testing of BinaryOperators");

    let tokens = lex("+ - / * == != >= > <= < = += -= *= /=");
    assert_eq!(
        lexemes(&tokens),
        vec![
            "+", "-", "/", "*", "==", "!=", ">=", ">", "<=", "<", "=", "+=", "-=", "*=", "/=",
        ]
    );
}

#[test]
fn test_lexing_delimiters() {
    let delimiter_count: usize = count_token_types(TokenType::Delimiter);
    assert_eq!(delimiter_count, 10, "Exhaustive testing of Delimiters");

    let tokens = lex("()[]{}->:,;");
    assert_eq!(
        lexemes(&tokens),
        vec!["(", ")", "[", "]", "{", "}", "->", ":", ",", ";"]
    );
}

#[test]
fn test_lexing_assignment_statement() {
    let tokens = lex("a += 42;");
    assert_eq!(lexemes(&tokens), vec!["a", "+=", "42", ";"]);
}

#[test]
fn test_lexing_if_else() {
    let tokens = lex("if a==b { a++; } else { --a; }");
    assert_eq!(
        lexemes(&tokens),
        vec![
            "if", "a", "==", "b", "{", "a", "++", ";", "}", "else", "{", "--", "a", ";", "}",
        ]
    );
}
