use zinc::ZincError;
use zinc::ZincParser;
use zinc::format_error_json;
use zinc::is_simple_identifier;
use zinc::transpile;
use zinc::transpile_string;
use zinc::transpile_with_error;

#[test]
fn empty_program_yields_no_statements_error() {
    let err = transpile_with_error("   // only a comment\n\t ").unwrap_err();
    assert_eq!(err.line, 0);
    assert_eq!(err.column, 0);
    assert_eq!(err.message, "No statements found");
    assert_eq!(err.suggestion, "Add at least one statement.");
}

#[test]
fn empty_input_yields_no_statements_error() {
    let err = transpile_with_error("").unwrap_err();
    assert_eq!(err.message, "No statements found");
    // The convenience entry point degrades the same input to empty output.
    assert_eq!(transpile(""), "");
}

#[test]
fn syntax_error_carries_location() {
    let err = transpile_with_error("let = 5").unwrap_err();
    assert_eq!(err.line, 1);
    assert_eq!(err.column, 5);
    assert_eq!(err.message, "Unexpected token");
    assert_eq!(err.suggestion, "Check syntax near the reported location.");
}

#[test]
fn syntax_error_on_second_line() {
    let err = transpile_with_error("break\n  @").unwrap_err();
    assert_eq!(err.line, 2);
    assert_eq!(err.column, 3);
    assert_eq!(err.message, "Unexpected character");
}

#[test]
fn unterminated_string_reports_end_of_input() {
    let err = transpile_with_error("print(\"abc").unwrap_err();
    assert_eq!(err.line, 1);
    assert_eq!(err.column, 11);
    assert_eq!(err.message, "Unterminated string literal");
}

#[test]
fn unexpected_end_of_input() {
    let err = transpile_with_error("let x =").unwrap_err();
    assert_eq!(err.message, "Unexpected end of input");
    assert_eq!(err.line, 1);
    assert_eq!(err.column, 8);
}

#[test]
fn convenience_entry_point_swallows_errors() {
    assert_eq!(transpile("let = 5"), "");
}

#[test]
fn parse_program_counts_statements() {
    let prog = ZincParser::parse_program("break break").unwrap();
    assert_eq!(prog.stmts.len(), 2);
    let empty = ZincParser::parse_program(" // nothing here\n").unwrap();
    assert_eq!(empty.stmts.len(), 0);
}

#[test]
fn format_error_json_shape() {
    assert_eq!(
        format_error_json("Parse failed"),
        "{\"line\":0,\"column\":0,\"message\":\"Parse failed\",\
         \"suggestion\":\"Check syntax near the reported location.\"}"
    );
}

#[test]
fn error_to_json_escapes_content() {
    let err = ZincError {
        line: 12,
        column: 3,
        message: String::from("bad \"token\" \\ here\n"),
        suggestion: String::from("fix\tit"),
    };
    assert_eq!(
        err.to_json(),
        "{\"line\":12,\"column\":3,\"message\":\"bad \\\"token\\\" \\\\ here\\n\",\
         \"suggestion\":\"fix\\tit\"}"
    );
}

#[test]
fn simple_identifier_shapes() {
    assert!(is_simple_identifier("abc"));
    assert!(is_simple_identifier("_a1"));
    assert!(!is_simple_identifier(""));
    assert!(!is_simple_identifier("1a"));
    assert!(!is_simple_identifier("a.b"));
    assert!(!is_simple_identifier("f(x)"));
}

#[test]
fn transpile_string_rewraps_raw() {
    assert_eq!(transpile_string("\"a\\\"b\""), "r#\"a\"b\"#");
    assert_eq!(transpile_string("\"\""), "r#\"\"#");
    assert_eq!(transpile_string("\"\\\\\""), "r#\"\\\"#");
    // Source text shorter than the two delimiters lowers to empty text.
    assert_eq!(transpile_string("x"), "");
}
