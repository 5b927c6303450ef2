//! Tests of the error types and parse-diagnostic helpers.

use chameleon_core::error::{
    add_suggestions, enhance_parse_error, extract_snippet, invalid_token_error,
    offset_to_position, unrecognized_eof_error, unrecognized_token_error, extra_token_error,
    ChameleonError, ParseErrorDetail,
};

#[test]
fn test_parse_error_detail_builders() {
    let d = ParseErrorDetail::new("boom".to_string(), 3, 7)
        .with_snippet("snip".to_string())
        .with_suggestion("fix it".to_string())
        .with_token("tok".to_string());
    assert_eq!(d.message, "boom");
    assert_eq!(d.line, 3);
    assert_eq!(d.column, 7);
    assert_eq!(d.snippet.as_deref(), Some("snip"));
    assert_eq!(d.suggestion.as_deref(), Some("fix it"));
    assert_eq!(d.token.as_deref(), Some("tok"));
}

#[test]
fn test_error_messages() {
    let parse = ChameleonError::ParseError(ParseErrorDetail::new("bad".to_string(), 2, 5));
    assert_eq!(parse.message(), "Parse error at line 2, column 5: bad");
    let validation = ChameleonError::ValidationError("dup".to_string());
    assert_eq!(validation.message(), "Validation error: dup");
    let internal = ChameleonError::InternalError("oops".to_string());
    assert_eq!(internal.message(), "Internal error: oops");
}

#[test]
fn test_raw_parse_errors() {
    match invalid_token_error(4) {
        ChameleonError::ParseError(d) => {
            assert_eq!(d.message, "Invalid token");
            assert_eq!((d.line, d.column), (1, 5));
        }
        _ => panic!("expected a parse error"),
    }
    let expected = vec!["\"}\"".to_string(), "ident".to_string()];
    match unrecognized_eof_error(9, &expected) {
        ChameleonError::ParseError(d) => {
            assert_eq!(d.message, "Unexpected end of file, expected one of: \"}\", ident");
            assert_eq!(d.suggestion.as_deref(), Some("Check if you're missing a closing brace }"));
        }
        _ => panic!("expected a parse error"),
    }
    match unrecognized_token_error(2, "\"entiy\"", &Vec::new()) {
        ChameleonError::ParseError(d) => {
            assert_eq!(d.message, "Unexpected token: \"entiy\"");
            assert_eq!(d.token.as_deref(), Some("\"entiy\""));
        }
        _ => panic!("expected a parse error"),
    }
    match extra_token_error(11, "x") {
        ChameleonError::ParseError(d) => {
            assert_eq!(d.message, "Extra unexpected token: x");
            assert_eq!(d.column, 12);
        }
        _ => panic!("expected a parse error"),
    }
}

#[test]
fn test_offset_to_position() {
    let source = "ab\ncd\ne";
    assert_eq!(offset_to_position(source, 0), (1, 1));
    assert_eq!(offset_to_position(source, 2), (1, 3));
    assert_eq!(offset_to_position(source, 3), (2, 1));
    assert_eq!(offset_to_position(source, 6), (3, 1));
    assert_eq!(offset_to_position(source, 100), (3, 2));
}

#[test]
fn test_extract_snippet() {
    let source = "entity User {\n  name string\n}";
    let snippet = extract_snippet(source, 2, 8);
    assert_eq!(snippet, "   2 |   name string\n     |        ^");
    assert_eq!(extract_snippet(source, 0, 1), "");
    assert_eq!(extract_snippet(source, 9, 1), "");
}

#[test]
fn test_add_suggestions_typos() {
    let d = ParseErrorDetail::new("Unexpected token".to_string(), 1, 1)
        .with_token("Enity".to_string());
    assert_eq!(add_suggestions(d).suggestion.as_deref(), Some("Did you mean 'entity'?"));

    let d = ParseErrorDetail::new("x".to_string(), 1, 1).with_token("pirmary".to_string());
    assert_eq!(add_suggestions(d).suggestion.as_deref(), Some("Did you mean 'primary'?"));

    let d = ParseErrorDetail::new("x".to_string(), 1, 1).with_token("uniquq".to_string());
    assert_eq!(add_suggestions(d).suggestion.as_deref(), Some("Did you mean 'unique'?"));

    let d = ParseErrorDetail::new("x".to_string(), 1, 1).with_token("unique".to_string());
    assert_eq!(add_suggestions(d).suggestion, None);

    let d = ParseErrorDetail::new("x".to_string(), 1, 1).with_token("nullabe".to_string());
    assert_eq!(add_suggestions(d).suggestion.as_deref(), Some("Did you mean 'nullable'?"));
}

#[test]
fn test_add_suggestions_syntax() {
    let d = ParseErrorDetail::new(
        "Unexpected token, expected one of: \":\"".to_string(),
        1,
        1,
    );
    assert_eq!(
        add_suggestions(d).suggestion.as_deref(),
        Some("Fields must have a type after the colon.\nExample: name: string")
    );

    let d = ParseErrorDetail::new(
        "Unexpected token, expected one of: \"{\"".to_string(),
        1,
        1,
    );
    assert_eq!(
        add_suggestions(d).suggestion.as_deref(),
        Some("Entity definitions must have an opening brace.\nExample: entity User {")
    );
}

#[test]
fn test_enhance_parse_error() {
    let source = "entity User {\nbad line\n}";
    // The raw error knows only an offset, carried in the column.
    let raw = ChameleonError::ParseError(ParseErrorDetail::new(
        "Unexpected token".to_string(),
        1,
        16,
    ));
    match enhance_parse_error(raw, source) {
        ChameleonError::ParseError(d) => {
            assert_eq!((d.line, d.column), (2, 2));
            assert!(d.snippet.as_deref().unwrap().contains("bad line"));
            assert!(d.snippet.as_deref().unwrap().contains("^"));
        }
        _ => panic!("expected a parse error"),
    }
    // Errors of other kinds pass through untouched.
    let other = ChameleonError::ValidationError("dup".to_string());
    assert_eq!(
        enhance_parse_error(other.clone(), source),
        ChameleonError::ValidationError("dup".to_string())
    );
}
