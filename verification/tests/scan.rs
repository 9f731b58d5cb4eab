use tokenizer::diagnostic::{Diagnostic, LexError};
use tokenizer::scanner::scan;
use tokenizer::token::Token;

fn tokens_of(source: &str) -> Vec<Token> {
    let result = scan(source);
    let mut tokens = Vec::new();
    for i in 0..result.tokens.len() {
        tokens.push(result.tokens.get(i).clone());
    }
    tokens
}

fn lines_of(source: &str) -> Vec<String> {
    scan(source).tokens.render_all()
}

fn number(text: &str) -> Token {
    Token::Number(text.to_string())
}

fn identifier(name: &str) -> Token {
    Token::Identifier(name.to_string())
}

fn string(text: &str) -> Token {
    Token::String(text.to_string())
}

fn unexpected(line: usize, c: char) -> Diagnostic {
    Diagnostic { line, error: LexError::UnexpectedCharacter(c) }
}

fn unterminated(line: usize) -> Diagnostic {
    Diagnostic { line, error: LexError::UnterminatedString }
}

#[test]
fn empty_input_yields_only_the_end_of_input() {
    let result = scan("");
    assert_eq!(result.tokens.len(), 1);
    assert_eq!(tokens_of(""), vec![Token::EOF]);
    assert_eq!(lines_of(""), vec!["EOF  null".to_string()]);
    assert_eq!(result.error_count(), 0);
    assert!(result.is_clean());
}

#[test]
fn parentheses_around_a_plus() {
    assert_eq!(
        tokens_of("(+)"),
        vec![Token::LeftParen, Token::Plus, Token::RightParen, Token::EOF]
    );
    assert_eq!(
        lines_of("(+)"),
        vec![
            "LEFT_PAREN ( null".to_string(),
            "PLUS + null".to_string(),
            "RIGHT_PAREN ) null".to_string(),
            "EOF  null".to_string(),
        ]
    );
}

#[test]
fn comment_makes_no_token() {
    assert_eq!(tokens_of("// comment\n123"), vec![number("123"), Token::EOF]);
    assert_eq!(
        lines_of("// comment\n123"),
        vec!["NUMBER 123 123.0".to_string(), "EOF  null".to_string()]
    );
    assert!(scan("// comment\n123").is_clean());
}

#[test]
fn line_counter_advances_past_the_newline_of_a_comment() {
    let result = scan("// comment\n@");
    assert_eq!(result.diagnostics, vec![unexpected(2, '@')]);
}

#[test]
fn comment_runs_to_the_end_of_input() {
    assert_eq!(tokens_of("// nothing else"), vec![Token::EOF]);
    assert_eq!(tokens_of("//"), vec![Token::EOF]);
    assert_eq!(tokens_of("+ // (ignored) @ \"\n-"), vec![Token::Plus, Token::Minus, Token::EOF]);
    assert!(scan("+ // (ignored) @ \"\n-").is_clean());
}

#[test]
fn unterminated_string_is_reported_and_makes_no_token() {
    let result = scan("\"unterminated");
    assert_eq!(tokens_of("\"unterminated"), vec![Token::EOF]);
    assert_eq!(result.diagnostics, vec![unterminated(1)]);
    assert_eq!(result.error_count(), 1);
    assert!(!result.is_clean());
    assert_eq!(result.diagnostics[0].to_string(), "[line 1] Error: Unterminated string.");
}

#[test]
fn unterminated_string_is_reported_where_it_began() {
    let result = scan("(\n\n\"one\ntwo\nthree");
    assert_eq!(result.diagnostics, vec![unterminated(3)]);
    assert_eq!(tokens_of("(\n\n\"one\ntwo\nthree"), vec![Token::LeftParen, Token::EOF]);
}

#[test]
fn trailing_dot_is_a_token_of_its_own() {
    assert_eq!(tokens_of("42."), vec![number("42"), Token::Dot, Token::EOF]);
    assert_eq!(
        lines_of("42."),
        vec!["NUMBER 42 42.0".to_string(), "DOT . null".to_string(), "EOF  null".to_string()]
    );
}

#[test]
fn trailing_zeros_of_a_fraction_are_not_displayed() {
    assert_eq!(tokens_of("3.1400"), vec![number("3.1400"), Token::EOF]);
    assert_eq!(lines_of("3.1400")[0], "NUMBER 3.1400 3.14");
}

#[test]
fn keyword_is_not_found_inside_a_word() {
    assert_eq!(tokens_of("orchid"), vec![identifier("orchid"), Token::EOF]);
    assert_eq!(
        lines_of("orchid"),
        vec!["IDENTIFIER orchid null".to_string(), "EOF  null".to_string()]
    );
}

#[test]
fn unexpected_character_is_reported_and_skipped() {
    let result = scan("@");
    assert_eq!(tokens_of("@"), vec![Token::EOF]);
    assert_eq!(result.diagnostics, vec![unexpected(1, '@')]);
    assert_eq!(result.error_count(), 1);
    assert_eq!(result.diagnostics[0].to_string(), "[line 1] Error: Unexpected character: @.");
}

#[test]
fn scanning_resumes_behind_an_unexpected_character() {
    let result = scan(",.$(#");
    assert_eq!(
        tokens_of(",.$(#"),
        vec![Token::Comma, Token::Dot, Token::LeftParen, Token::EOF]
    );
    assert_eq!(result.diagnostics, vec![unexpected(1, '$'), unexpected(1, '#')]);
    assert_eq!(result.error_count(), 2);
}

#[test]
fn end_of_input_is_last_and_occurs_once() {
    let sources = [
        "",
        "(+)",
        "var x = 1.50; // set\nprint x;",
        "\"open",
        "@#$",
        "\n\n\n",
        "while (true) { x = x / 2.; }",
        "\"a\" \"b\"",
    ];
    for source in sources {
        let tokens = tokens_of(source);
        assert_eq!(tokens.last(), Some(&Token::EOF));
        assert_eq!(tokens.iter().filter(|t| **t == Token::EOF).count(), 1);
    }
}

#[test]
fn number_fields_of_a_rendered_line_are_the_same_number() {
    let sources = ["0", "7", "123", "42.", "3.1400", "5.000", "0.5", "007.250", "1.0", "10.01"];
    for source in sources {
        let lines = lines_of(source);
        let fields: Vec<&str> = lines[0].split(' ').collect();
        assert_eq!(fields.len(), 3);
        assert_eq!(fields[0], "NUMBER");
        let lexeme: f64 = fields[1].parse().unwrap();
        let display: f64 = fields[2].parse().unwrap();
        assert_eq!(lexeme, display);
    }
}

#[test]
fn every_punctuation_character_is_a_token() {
    assert_eq!(
        tokens_of("(){}*+-.,;"),
        vec![
            Token::LeftParen,
            Token::RightParen,
            Token::LeftBrace,
            Token::RightBrace,
            Token::Star,
            Token::Plus,
            Token::Minus,
            Token::Dot,
            Token::Comma,
            Token::SemiColon,
            Token::EOF,
        ]
    );
}

#[test]
fn operators_take_an_equal_sign_behind_them() {
    assert_eq!(
        tokens_of("= == ! != > >= < <="),
        vec![
            Token::Equal,
            Token::EqualEqual,
            Token::Bang,
            Token::BangEqual,
            Token::Greater,
            Token::GreaterEqual,
            Token::Less,
            Token::LessEqual,
            Token::EOF,
        ]
    );
}

#[test]
fn operators_are_read_from_the_left() {
    assert_eq!(tokens_of("==="), vec![Token::EqualEqual, Token::Equal, Token::EOF]);
    assert_eq!(tokens_of("!=="), vec![Token::BangEqual, Token::Equal, Token::EOF]);
    assert_eq!(tokens_of("<=>"), vec![Token::LessEqual, Token::Greater, Token::EOF]);
    assert_eq!(tokens_of("= ="), vec![Token::Equal, Token::Equal, Token::EOF]);
    assert_eq!(tokens_of("!"), vec![Token::Bang, Token::EOF]);
    assert_eq!(tokens_of("<"), vec![Token::Less, Token::EOF]);
}

#[test]
fn single_slash_is_a_token() {
    assert_eq!(tokens_of("/"), vec![Token::Slash, Token::EOF]);
    assert_eq!(tokens_of("/ /"), vec![Token::Slash, Token::Slash, Token::EOF]);
    assert_eq!(
        tokens_of("a/b"),
        vec![identifier("a"), Token::Slash, identifier("b"), Token::EOF]
    );
    assert_eq!(tokens_of("/=/"), vec![Token::Slash, Token::Equal, Token::Slash, Token::EOF]);
}

#[test]
fn blanks_and_newlines_make_no_token() {
    assert_eq!(tokens_of(" \t\r\n \n"), vec![Token::EOF]);
    assert!(scan(" \t\r\n \n").is_clean());
    assert_eq!(tokens_of(" ( \t) \r\n"), vec![Token::LeftParen, Token::RightParen, Token::EOF]);
}

#[test]
fn string_keeps_what_stands_between_the_quotes() {
    assert_eq!(tokens_of("\"hello world\""), vec![string("hello world"), Token::EOF]);
    assert_eq!(lines_of("\"hello world\"")[0], "STRING \"hello world\" hello world");
    assert_eq!(tokens_of("\"\""), vec![string(""), Token::EOF]);
    assert_eq!(lines_of("\"\"")[0], "STRING \"\" ");
    assert_eq!(
        tokens_of("\"a\"\"b\""),
        vec![string("a"), string("b"), Token::EOF]
    );
}

#[test]
fn string_is_kept_without_escape_processing() {
    assert_eq!(tokens_of("\"a\\nb // c @\""), vec![string("a\\nb // c @"), Token::EOF]);
    assert_eq!(
        tokens_of("\"back\\\" x"),
        vec![string("back\\"), identifier("x"), Token::EOF]
    );
}

#[test]
fn string_may_run_over_lines() {
    let source = "\"one\ntwo\"\n@";
    assert_eq!(tokens_of(source), vec![string("one\ntwo"), Token::EOF]);
    assert_eq!(scan(source).diagnostics, vec![unexpected(3, '@')]);
}

#[test]
fn diagnostics_carry_the_line_of_their_character() {
    let result = scan("@\n#\n\n  $ ^\n&");
    assert_eq!(
        result.diagnostics,
        vec![
            unexpected(1, '@'),
            unexpected(2, '#'),
            unexpected(4, '$'),
            unexpected(4, '^'),
            unexpected(5, '&'),
        ]
    );
    assert_eq!(result.error_count(), 5);
}

#[test]
fn carriage_return_does_not_count_as_a_line() {
    assert_eq!(scan("\r\r@").diagnostics, vec![unexpected(1, '@')]);
    assert_eq!(scan("\r\n\r\n@").diagnostics, vec![unexpected(3, '@')]);
}

#[test]
fn number_literals() {
    assert_eq!(tokens_of("123"), vec![number("123"), Token::EOF]);
    assert_eq!(tokens_of("123.450"), vec![number("123.450"), Token::EOF]);
    assert_eq!(tokens_of("0"), vec![number("0"), Token::EOF]);
    assert_eq!(tokens_of("007"), vec![number("007"), Token::EOF]);
    assert_eq!(lines_of("123")[0], "NUMBER 123 123.0");
    assert_eq!(lines_of("123.450")[0], "NUMBER 123.450 123.45");
    assert_eq!(lines_of("123.")[0], "NUMBER 123 123.0");
    assert_eq!(lines_of("5.000")[0], "NUMBER 5.000 5.0");
    assert_eq!(lines_of("007")[0], "NUMBER 007 007.0");
    assert_eq!(lines_of("10.0100")[0], "NUMBER 10.0100 10.01");
}

#[test]
fn second_dot_ends_a_number() {
    assert_eq!(
        tokens_of("1.2.3"),
        vec![number("1.2"), Token::Dot, number("3"), Token::EOF]
    );
    assert_eq!(
        tokens_of("1..2"),
        vec![number("1"), Token::Dot, Token::Dot, number("2"), Token::EOF]
    );
    assert_eq!(
        tokens_of("1.2."),
        vec![number("1.2"), Token::Dot, Token::EOF]
    );
}

#[test]
fn dot_before_a_number_is_a_token_of_its_own() {
    assert_eq!(tokens_of(".5"), vec![Token::Dot, number("5"), Token::EOF]);
}

#[test]
fn number_ends_where_a_word_begins() {
    assert_eq!(
        tokens_of("42.foo"),
        vec![number("42"), Token::Dot, identifier("foo"), Token::EOF]
    );
    assert_eq!(tokens_of("12abc"), vec![number("12"), identifier("abc"), Token::EOF]);
    assert_eq!(tokens_of("1 2"), vec![number("1"), number("2"), Token::EOF]);
}

#[test]
fn identifiers() {
    assert_eq!(tokens_of("_under_score1"), vec![identifier("_under_score1"), Token::EOF]);
    assert_eq!(tokens_of("_"), vec![identifier("_"), Token::EOF]);
    assert_eq!(tokens_of("a1b2"), vec![identifier("a1b2"), Token::EOF]);
    assert_eq!(
        tokens_of("foo bar"),
        vec![identifier("foo"), identifier("bar"), Token::EOF]
    );
    assert_eq!(
        tokens_of("foo.bar"),
        vec![identifier("foo"), Token::Dot, identifier("bar"), Token::EOF]
    );
}

#[test]
fn reserved_words_are_keywords() {
    assert_eq!(
        tokens_of(
            "and class else false for fun if nil or print return super this true var while"
        ),
        vec![
            Token::And,
            Token::Class,
            Token::Else,
            Token::False,
            Token::For,
            Token::Fun,
            Token::If,
            Token::Nil,
            Token::Or,
            Token::Print,
            Token::Return,
            Token::Super,
            Token::This,
            Token::True,
            Token::Var,
            Token::While,
            Token::EOF,
        ]
    );
}

#[test]
fn keyword_is_matched_as_a_whole_word_and_by_case() {
    assert_eq!(tokens_of("forX"), vec![identifier("forX"), Token::EOF]);
    assert_eq!(tokens_of("for_"), vec![identifier("for_"), Token::EOF]);
    assert_eq!(tokens_of("fo"), vec![identifier("fo"), Token::EOF]);
    assert_eq!(tokens_of("For"), vec![identifier("For"), Token::EOF]);
    assert_eq!(tokens_of("AND"), vec![identifier("AND"), Token::EOF]);
    assert_eq!(tokens_of("print1"), vec![identifier("print1"), Token::EOF]);
    assert_eq!(tokens_of("for("), vec![Token::For, Token::LeftParen, Token::EOF]);
}

#[test]
fn letters_beyond_ascii_make_identifiers() {
    assert_eq!(tokens_of("élan"), vec![identifier("élan"), Token::EOF]);
    assert_eq!(tokens_of("京都"), vec![identifier("京都"), Token::EOF]);
    assert_eq!(tokens_of("x²"), vec![identifier("x²"), Token::EOF]);
}

#[test]
fn digits_beyond_ascii_begin_nothing() {
    let result = scan("²");
    assert_eq!(tokens_of("²"), vec![Token::EOF]);
    assert_eq!(result.diagnostics, vec![unexpected(1, '²')]);
    let result = scan("٣");
    assert_eq!(result.diagnostics, vec![unexpected(1, '٣')]);
}

#[test]
fn a_small_program() {
    let source = "var answer = 6 * 7.0;\nif (answer >= 42) { print \"yes\"; } // done\n";
    assert_eq!(
        lines_of(source),
        vec![
            "VAR var null",
            "IDENTIFIER answer null",
            "EQUAL = null",
            "NUMBER 6 6.0",
            "STAR * null",
            "NUMBER 7.0 7.0",
            "SEMICOLON ; null",
            "IF if null",
            "LEFT_PAREN ( null",
            "IDENTIFIER answer null",
            "GREATER_EQUAL >= null",
            "NUMBER 42 42.0",
            "RIGHT_PAREN ) null",
            "LEFT_BRACE { null",
            "PRINT print null",
            "STRING \"yes\" yes",
            "SEMICOLON ; null",
            "RIGHT_BRACE } null",
            "EOF  null",
        ]
    );
    assert!(scan(source).is_clean());
}

#[test]
fn tokens_and_diagnostics_of_a_malformed_program() {
    let source = "x = 1 @ 2;\ny = \"open";
    let result = scan(source);
    assert_eq!(
        tokens_of(source),
        vec![
            identifier("x"),
            Token::Equal,
            number("1"),
            number("2"),
            Token::SemiColon,
            identifier("y"),
            Token::Equal,
            Token::EOF,
        ]
    );
    assert_eq!(result.diagnostics, vec![unexpected(1, '@'), unterminated(2)]);
    let lines: Vec<String> = result.diagnostics.iter().map(|d| d.to_string()).collect();
    assert_eq!(
        lines,
        vec!["[line 1] Error: Unexpected character: @.", "[line 2] Error: Unterminated string."]
    );
}
