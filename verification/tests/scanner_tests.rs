use hyper::scanner::{scan_tokens, TokenType};

fn number_literals(source: &str) -> Vec<String> {
    let (tokens, error) = scan_tokens(source);
    assert!(!error, "source should scan: {}", source);
    tokens
        .into_iter()
        .filter(|t| t.token_type == TokenType::Number)
        .map(|t| t.literal)
        .collect()
}

#[test]
fn float_literals_keep_their_fraction() {
    assert_eq!(number_literals("1.0"), vec!["1.0".to_string()]);
    assert_eq!(number_literals("2.50"), vec!["2.5".to_string()]);
    assert_eq!(number_literals("0.000001"), vec!["0.000001".to_string()]);
}

#[test]
fn integer_literals_stay_integers() {
    assert_eq!(number_literals("42"), vec!["42".to_string()]);
    assert_eq!(number_literals("1_000"), vec!["1000".to_string()]);
}

#[test]
fn unindent_mismatch_is_indentation_error() {
    let source = "if True:\n    pass\n  x = 1\n";
    let (_tokens, error) = scan_tokens(source);
    assert!(error);
}

#[test]
fn unexpected_indent_is_indentation_error() {
    let source = "let x = 1\n    let y = 2\n";
    let (_tokens, error) = scan_tokens(source);
    assert!(error);
}

#[test]
fn mixed_indent_is_indentation_error() {
    let source = "if True:\n \tpass\n";
    let (_tokens, error) = scan_tokens(source);
    assert!(error);
}

#[test]
fn deeper_indent_inside_a_block_is_indentation_error() {
    let (_tokens, error) = scan_tokens("if x:\n    a = 1\n        b = 2\n");
    assert!(error);
    let (_tokens, error) = scan_tokens("if x:\n    if y:\n        b = 2\n");
    assert!(!error);
}
