//! End-to-end runs of small programs through the full pipeline.

use mango::interpreter::{Interpreter, PipelineError, RunError};
use mango::literal::Literal;
use mango::parser::ParseError;
use mango::scanner::ScanError;

fn run_program(source: &str) -> Result<Vec<String>, PipelineError> {
    let mut interpreter = Interpreter::new();
    match interpreter.run(source.to_string(), u64::MAX) {
        Ok(()) => Ok(interpreter.take_output()),
        Err(e) => Err(e),
    }
}

fn printed(source: &str) -> Vec<String> {
    run_program(source).expect("program should run")
}

#[test]
fn term_chain_is_right_associative() {
    assert_eq!(printed("print 2 - 3 - 4;"), vec!["3".to_string()]);
}

#[test]
fn exponent_evaluates() {
    assert_eq!(printed("print 2 ** 2;"), vec!["4".to_string()]);
}

#[test]
fn exponent_chain_is_right_associative() {
    assert_eq!(printed("print 2 ** 2 ** 3;"), vec!["256".to_string()]);
}

#[test]
fn parentheses_override_grouping() {
    assert_eq!(printed("print (2 - 3) - 4;"), vec!["-5".to_string()]);
}

#[test]
fn factorial_of_five() {
    assert_eq!(printed("print 5!;"), vec!["120".to_string()]);
}

#[test]
fn factorial_of_zero() {
    assert_eq!(printed("print 0!;"), vec!["0".to_string()]);
}

#[test]
fn factorial_below_one() {
    assert_eq!(printed("print (0 - 3)!;"), vec!["0".to_string()]);
}

#[test]
fn factorial_out_of_range_is_none() {
    assert_eq!(printed("print 21!;"), vec!["None".to_string()]);
}

#[test]
fn string_plus_number_concatenates() {
    assert_eq!(printed("print \"a\" + 1;"), vec!["a1".to_string()]);
}

#[test]
fn number_plus_string_concatenates() {
    assert_eq!(printed("print 1 + \"a\";"), vec!["1a".to_string()]);
}

#[test]
fn division_by_zero_is_none() {
    assert_eq!(printed("print 1 / 0;"), vec!["None".to_string()]);
}

#[test]
fn division_truncates() {
    assert_eq!(printed("print 7 / 2;"), vec!["3".to_string()]);
    assert_eq!(printed("print (0 - 7) / 2;"), vec!["-3".to_string()]);
}

#[test]
fn addition_out_of_range_is_none() {
    assert_eq!(
        printed("print 9223372036854775807 + 1;"),
        vec!["None".to_string()]
    );
}

#[test]
fn negative_exponent_is_none() {
    assert_eq!(printed("print 2 ** (0 - 1);"), vec!["None".to_string()]);
}

#[test]
fn operands_of_mixed_kind_are_none() {
    assert_eq!(printed("print true + 1;"), vec!["None".to_string()]);
    assert_eq!(printed("print \"a\" * 2;"), vec!["None".to_string()]);
}

#[test]
fn variables_add() {
    assert_eq!(
        printed("var a = 1; var b = 2; print a + b;"),
        vec!["3".to_string()]
    );
}

#[test]
fn block_scoping_shadows_without_leaking() {
    assert_eq!(
        printed("var a = 1; { var a = 2; print a; } print a;"),
        vec!["2".to_string(), "1".to_string()]
    );
}

#[test]
fn assignment_in_outer_scope_persists() {
    assert_eq!(
        printed("var a = 1; { a = 2; } print a;"),
        vec!["2".to_string()]
    );
}

#[test]
fn assigning_undeclared_name_is_fatal() {
    let result = run_program("a = 1;");
    assert_eq!(
        result,
        Err(PipelineError::Runtime(RunError::UndefinedVariable(
            "a".to_string()
        )))
    );
}

#[test]
fn reading_undeclared_name_is_none() {
    assert_eq!(printed("print x;"), vec!["None".to_string()]);
}

#[test]
fn while_runs_until_reassigned() {
    assert_eq!(
        printed("var a = true; var n = 0; while (a) { a = false; n = n + 1; } print n;"),
        vec!["1".to_string()]
    );
}

#[test]
fn while_counts_two_iterations() {
    let source =
        "var a = true; var b = true; var n = 0; while (a) { a = b; b = false; n = n + 1; } print n;";
    assert_eq!(printed(source), vec!["2".to_string()]);
}

#[test]
fn while_with_non_boolean_condition_skips_body() {
    assert_eq!(
        printed("var n = 0; while (1) { n = 1; } print n;"),
        vec!["0".to_string()]
    );
}

#[test]
fn endless_while_stops_on_budget() {
    let mut interpreter = Interpreter::new();
    let result = interpreter.run("while (true) { }".to_string(), 1000);
    assert_eq!(result, Err(PipelineError::Runtime(RunError::OutOfSteps)));
}

#[test]
fn number_round_trips_through_print() {
    assert_eq!(printed("print 123;"), vec!["123".to_string()]);
    assert_eq!(printed("print 0;"), vec!["0".to_string()]);
}

#[test]
fn booleans_round_trip_through_print() {
    assert_eq!(printed("print true;"), vec!["true".to_string()]);
    assert_eq!(printed("print false;"), vec!["false".to_string()]);
}

#[test]
fn string_round_trips_through_print() {
    assert_eq!(printed("print \"hi there\";"), vec!["hi there".to_string()]);
}

#[test]
fn boolean_negation() {
    assert_eq!(printed("print !true;"), vec!["false".to_string()]);
    assert_eq!(printed("print !1;"), vec!["false".to_string()]);
}

#[test]
fn numeric_negation() {
    assert_eq!(printed("print -5;"), vec!["-5".to_string()]);
    assert_eq!(printed("print -true;"), vec!["None".to_string()]);
}

#[test]
fn fractional_literal_defaults_to_zero() {
    assert_eq!(printed("print 1.5;"), vec!["0".to_string()]);
}

#[test]
fn oversized_literal_defaults_to_zero() {
    assert_eq!(printed("print 99999999999999999999;"), vec!["0".to_string()]);
}

#[test]
fn unknown_character_stops_the_scan() {
    assert_eq!(
        run_program("print 1 @ 2;"),
        Err(PipelineError::Scan(ScanError::UnknownChar('@')))
    );
}

#[test]
fn unterminated_string_stops_the_scan() {
    assert_eq!(
        run_program("print \"abc;"),
        Err(PipelineError::Scan(ScanError::UnterminatedString))
    );
}

#[test]
fn missing_semicolon_is_a_parse_error() {
    assert_eq!(
        run_program("print 1"),
        Err(PipelineError::Parse(ParseError::ExpectedSemicolon))
    );
}

#[test]
fn var_without_identifier_is_a_parse_error() {
    assert_eq!(
        run_program("var 1 = 2;"),
        Err(PipelineError::Parse(ParseError::ExpectedIdentifier))
    );
}

#[test]
fn var_without_equal_is_a_parse_error() {
    assert_eq!(
        run_program("var a 2;"),
        Err(PipelineError::Parse(ParseError::ExpectedEqual))
    );
}

#[test]
fn unclosed_parenthesis_is_a_parse_error() {
    assert_eq!(
        run_program("print (1 + 2;"),
        Err(PipelineError::Parse(ParseError::ExpectedRightParen))
    );
}

#[test]
fn while_without_parenthesis_is_a_parse_error() {
    assert_eq!(
        run_program("while true { }"),
        Err(PipelineError::Parse(ParseError::ExpectedLeftParen))
    );
}

#[test]
fn while_without_block_is_a_parse_error() {
    assert_eq!(
        run_program("while (true) print 1;"),
        Err(PipelineError::Parse(ParseError::ExpectedBlock))
    );
}

#[test]
fn unclosed_block_is_a_parse_error() {
    assert_eq!(
        run_program("{ print 1;"),
        Err(PipelineError::Parse(ParseError::ExpectedRightBrace))
    );
}

#[test]
fn stray_token_is_a_parse_error() {
    assert_eq!(
        run_program(";"),
        Err(PipelineError::Parse(ParseError::UnexpectedToken))
    );
}

#[test]
fn state_persists_across_runs() {
    let mut interpreter = Interpreter::new();
    interpreter.run("var a = 1;".to_string(), u64::MAX).unwrap();
    interpreter.run("print a;".to_string(), u64::MAX).unwrap();
    assert_eq!(interpreter.take_output(), vec!["1".to_string()]);
}

#[test]
fn state_survives_a_failed_run() {
    let mut interpreter = Interpreter::new();
    interpreter.run("var a = 7;".to_string(), u64::MAX).unwrap();
    let failed = interpreter.run("b = 1;".to_string(), u64::MAX);
    assert!(failed.is_err());
    interpreter.run("print a;".to_string(), u64::MAX).unwrap();
    assert_eq!(interpreter.take_output(), vec!["7".to_string()]);
}

#[test]
fn assignment_yields_the_assigned_value() {
    assert_eq!(
        printed("var a = 1; print a = 5;"),
        vec!["5".to_string()]
    );
}

#[test]
fn factor_binds_tighter_than_term() {
    assert_eq!(printed("print 1 + 2 * 3;"), vec!["7".to_string()]);
    assert_eq!(printed("print 2 * 3 + 4;"), vec!["10".to_string()]);
}

#[test]
fn expression_entry_point_returns_the_value() {
    let mut interpreter = Interpreter::new();
    assert_eq!(
        interpreter.run_expression("1 + 2".to_string()),
        Ok(Literal::Number(3))
    );
    interpreter.run("var a = 10;".to_string(), u64::MAX).unwrap();
    assert_eq!(
        interpreter.run_expression("a * a".to_string()),
        Ok(Literal::Number(100))
    );
    assert_eq!(
        interpreter.run_expression("b = 1".to_string()),
        Err(PipelineError::Runtime(RunError::UndefinedVariable(
            "b".to_string()
        )))
    );
}

#[test]
fn empty_source_runs_to_nothing() {
    assert_eq!(printed(""), Vec::<String>::new());
    assert_eq!(printed("   \t\r\n"), Vec::<String>::new());
}
