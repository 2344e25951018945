//! Unit tests of the source reader, the scanner and the parser.

use mango::literal::Literal;
use mango::parser::{ParseError, Parser};
use mango::scanner::{ScanError, Scanner, Source};
use mango::statement::Statement;
use mango::token_type::TokenType;

fn scan_kinds(source: &str) -> Vec<TokenType> {
    let tokens = Scanner::new(source.to_string()).scan().expect("scan should succeed");
    tokens.iter().map(|t| t.kind).collect()
}

#[test]
fn source_reads_characters_in_order() {
    let mut source = Source::new("ab".to_string());
    assert_eq!(source.peek(0), 'a');
    assert_eq!(source.peek(1), 'b');
    assert_eq!(source.peek(2), '\0');
    assert!(!source.is_at_end());
    assert_eq!(source.next(), 'a');
    assert_eq!(source.next(), 'b');
    assert!(source.is_at_end());
    assert_eq!(source.next(), '\0');
}

#[test]
fn source_slices_by_position() {
    let source = Source::new("hello".to_string());
    assert_eq!(source.slice(1, Some(4)), "ell");
    assert_eq!(source.slice(2, None), "llo");
}

#[test]
fn scanner_recognizes_punctuation() {
    assert_eq!(
        scan_kinds("; ( ) { } + - / = !"),
        vec![
            TokenType::Semicolon,
            TokenType::LeftParen,
            TokenType::RightParen,
            TokenType::LeftBrace,
            TokenType::RightBrace,
            TokenType::Plus,
            TokenType::Minus,
            TokenType::Slash,
            TokenType::Equal,
            TokenType::Bang,
            TokenType::End,
        ]
    );
}

#[test]
fn scanner_splits_star_from_star_star() {
    assert_eq!(
        scan_kinds("* ** ***"),
        vec![
            TokenType::Star,
            TokenType::StarStar,
            TokenType::StarStar,
            TokenType::Star,
            TokenType::End,
        ]
    );
}

#[test]
fn scanner_decodes_numbers() {
    let tokens = Scanner::new("12 7".to_string()).scan().unwrap();
    assert_eq!(tokens[0].kind, TokenType::Number);
    assert_eq!(tokens[0].literal, Literal::Number(12));
    assert_eq!(tokens[1].literal, Literal::Number(7));
}

#[test]
fn scanner_consumes_fraction_but_defaults_to_zero() {
    let tokens = Scanner::new("12.5".to_string()).scan().unwrap();
    assert_eq!(tokens.len(), 2);
    assert_eq!(tokens[0].kind, TokenType::Number);
    assert_eq!(tokens[0].literal, Literal::Number(0));
}

#[test]
fn scanner_leaves_trailing_dot_alone() {
    let result = Scanner::new("12.".to_string()).scan();
    assert_eq!(result.unwrap_err(), ScanError::UnknownChar('.'));
}

#[test]
fn scanner_decodes_string_literals() {
    let tokens = Scanner::new("\"hi there\"".to_string()).scan().unwrap();
    assert_eq!(tokens[0].kind, TokenType::Str);
    assert_eq!(tokens[0].literal, Literal::Str("hi there".to_string()));
}

#[test]
fn scanner_decodes_identifiers_and_keywords() {
    let tokens = Scanner::new("while alpha3".to_string()).scan().unwrap();
    assert_eq!(tokens[0].kind, TokenType::While);
    assert_eq!(tokens[0].literal, Literal::Str("while".to_string()));
    assert_eq!(tokens[1].kind, TokenType::Identifier);
    assert_eq!(tokens[1].literal, Literal::Str("alpha3".to_string()));
}

#[test]
fn scanner_reports_unknown_characters() {
    assert_eq!(
        Scanner::new("#".to_string()).scan().unwrap_err(),
        ScanError::UnknownChar('#')
    );
}

#[test]
fn scanner_reports_unterminated_strings() {
    assert_eq!(
        Scanner::new("\"open".to_string()).scan().unwrap_err(),
        ScanError::UnterminatedString
    );
}

#[test]
fn scan_token_reads_one_token() {
    let mut scanner = Scanner::new("42".to_string());
    let token = scanner.scan_token().unwrap().unwrap();
    assert_eq!(token.kind, TokenType::Number);
    assert_eq!(token.literal, Literal::Number(42));
}

fn parse_program(source: &str) -> Result<Statement, ParseError> {
    let tokens = Scanner::new(source.to_string()).scan().expect("scan should succeed");
    Parser::new(tokens).parse()
}

#[test]
fn parser_builds_a_program_of_statements() {
    let program = parse_program("var a = 1; print a;").unwrap();
    match program {
        Statement::Program { statements } => {
            assert_eq!(statements.len(), 2);
            assert!(matches!(statements[0], Statement::VariableDeclaration { .. }));
            assert!(matches!(statements[1], Statement::Print { .. }));
        }
        other => panic!("expected a program, got {:?}", other),
    }
}

#[test]
fn parser_builds_while_with_block_body() {
    let program = parse_program("while (true) { print 1; }").unwrap();
    match program {
        Statement::Program { statements } => {
            assert!(matches!(statements[0], Statement::While { .. }));
        }
        other => panic!("expected a program, got {:?}", other),
    }
}

#[test]
fn parser_rejects_bad_variable_payload() {
    assert_eq!(
        parse_program("var a = ;").unwrap_err(),
        ParseError::UnexpectedToken
    );
}

#[test]
fn parsed_program_is_well_formed() {
    let program = parse_program("print 1 + 2 * 3; { var a = 1; a = a - 1; }").unwrap();
    assert!(program.is_well_formed());
}
