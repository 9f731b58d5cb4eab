use tokenizer::diagnostic::{push_numeral, Diagnostic, LexError};

#[test]
fn numeral_of_a_number() {
    let cases = [
        (0usize, "0"),
        (7, "7"),
        (9, "9"),
        (10, "10"),
        (11, "11"),
        (99, "99"),
        (100, "100"),
        (12345, "12345"),
        (1000000, "1000000"),
    ];
    for (n, expected) in cases {
        let mut s = String::new();
        push_numeral(&mut s, n);
        assert_eq!(s, expected);
    }
    let mut s = String::from("line ");
    push_numeral(&mut s, 42);
    assert_eq!(s, "line 42");
    let mut s = String::new();
    push_numeral(&mut s, usize::MAX);
    assert_eq!(s, format!("{}", usize::MAX));
}

#[test]
fn message_of_an_error() {
    assert_eq!(LexError::UnexpectedCharacter('@').message(), "Unexpected character: @");
    assert_eq!(LexError::UnexpectedCharacter('é').message(), "Unexpected character: é");
    assert_eq!(LexError::UnterminatedString.message(), "Unterminated string");
}

#[test]
fn line_of_a_diagnostic() {
    let d = Diagnostic { line: 1, error: LexError::UnexpectedCharacter('$') };
    assert_eq!(d.to_string(), "[line 1] Error: Unexpected character: $.");
    let d = Diagnostic { line: 120, error: LexError::UnexpectedCharacter('#') };
    assert_eq!(d.to_string(), "[line 120] Error: Unexpected character: #.");
    let d = Diagnostic { line: 7, error: LexError::UnterminatedString };
    assert_eq!(d.to_string(), "[line 7] Error: Unterminated string.");
    let d = Diagnostic { line: 1000, error: LexError::UnterminatedString };
    assert_eq!(d.to_string(), "[line 1000] Error: Unterminated string.");
}
