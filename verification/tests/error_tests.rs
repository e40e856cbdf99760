use hyper::error::{format_error, ErrorKind};

#[test]
fn format_error_labels() {
    assert_eq!(
        format_error(ErrorKind::Syntax, 3, "expected ':'"),
        "SyntaxError: line 3: expected ':'"
    );
    assert_eq!(
        format_error(ErrorKind::Indentation, 2, "unexpected indent"),
        "IndentationError: line 2: unexpected indent"
    );
    assert_eq!(
        format_error(ErrorKind::Runtime, 10, "division by zero"),
        "RuntimeError: line 10: division by zero"
    );
}
