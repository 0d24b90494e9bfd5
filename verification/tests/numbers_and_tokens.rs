use lisp_lexer::builtins::Builtin;
use lisp_lexer::lexer::scan;
use lisp_lexer::lexer::Lexer;
use lisp_lexer::token::LType;
use lisp_lexer::token::LexError;
use lisp_lexer::token::Token;

fn types_of(src: &str) -> Vec<LType> {
    scan(src.to_string())
        .expect("scan should succeed")
        .into_iter()
        .map(|t| t.0)
        .collect()
}

fn scan_err(src: &str) -> LexError {
    scan(src.to_string()).expect_err("scan should fail")
}

#[test]
fn real_literals_keep_their_text() {
    assert_eq!(types_of("5.5"), vec![LType::Real("5.5".to_string())]);
    assert_eq!(types_of("5.0"), vec![LType::Real("5.0".to_string())]);
    assert_eq!(types_of("1.25e2"), vec![LType::Real("1.25e2".to_string())]);
    assert_eq!(types_of("3e-2"), vec![LType::Real("3e-2".to_string())]);
}

#[test]
fn negative_real_keeps_sign_in_text() {
    assert_eq!(types_of("-5.5"), vec![LType::Real("-5.5".to_string())]);
}

#[test]
fn largest_integer_still_an_integer() {
    assert_eq!(
        types_of("9223372036854775807"),
        vec![LType::Integer(i64::MAX)]
    );
}

#[test]
fn integer_overflow_falls_back_to_real() {
    assert_eq!(
        types_of("9223372036854775808"),
        vec![LType::Real("9223372036854775808".to_string())]
    );
}

#[test]
fn leading_zeros_parse_as_integer() {
    assert_eq!(types_of("007"), vec![LType::Integer(7)]);
}

#[test]
fn paren_runs_into_numeric_lexeme() {
    // The numeric stop set does not include '(' — the parenthesis joins
    // the lexeme and spoils the parse.
    assert_eq!(scan_err("123("), LexError::MalformedNumber);
}

#[test]
fn minus_inside_numeric_lexeme_is_malformed() {
    assert_eq!(scan_err("3-5"), LexError::MalformedNumber);
}

#[test]
fn garbage_after_digits_is_malformed() {
    assert_eq!(scan_err("12x34"), LexError::MalformedNumber);
}

#[test]
fn unicode_digit_starts_a_number_and_fails() {
    assert_eq!(scan_err("\u{0663}"), LexError::MalformedNumber);
}

#[test]
fn unicode_identifier_counts_characters() {
    assert_eq!(
        types_of("h\u{e9}llo w\u{f6}rld"),
        vec![
            LType::Ident("h\u{e9}llo".to_string()),
            LType::Ident("w\u{f6}rld".to_string()),
        ]
    );
}

#[test]
fn get_type_names_each_category() {
    assert_eq!(LType::LParen.get_type(), "Opening Parenthese");
    assert_eq!(LType::RParen.get_type(), "Closing Parenthese");
    assert_eq!(LType::LBracket.get_type(), "Opening Chevron");
    assert_eq!(LType::RBracket.get_type(), "Closing Chevron");
    assert_eq!(LType::Plus.get_type(), "Mathematical operator");
    assert_eq!(LType::Minus.get_type(), "Mathematical operator");
    assert_eq!(LType::Ident("x".to_string()).get_type(), "Identifier");
    assert_eq!(LType::Str("s".to_string()).get_type(), "String");
    assert_eq!(LType::Integer(3).get_type(), "Integer");
    assert_eq!(LType::Real("1.5".to_string()).get_type(), "Real");
    assert_eq!(LType::Defun.get_type(), "Keyword");
    assert_eq!(LType::Builtin(Builtin::Len).get_type(), "Keyword");
}

#[test]
fn token_new_wraps_its_classification() {
    assert_eq!(Token::new(LType::Plus), Token(LType::Plus));
    assert_eq!(
        Token::new(LType::Ident("a".to_string())),
        Token(LType::Ident("a".to_string()))
    );
}

#[test]
fn cursor_primitives_walk_the_text() {
    let mut lx = Lexer::new("ab".to_string());
    assert!(!lx.is_eof());
    assert_eq!(lx.peek(), 'a');
    assert_eq!(lx.advance(), 'a');
    assert_eq!(lx.peek(), 'b');
    assert_eq!(lx.advance(), 'b');
    assert!(lx.is_eof());
}

#[test]
fn debug_reports_position_state() {
    let mut lx = Lexer::new("ab".to_string());
    assert_eq!(lx.debug(), "line: 1, start: 0, current: 0, tokens: 0");
    assert!(lx.lex().is_ok());
    assert_eq!(lx.debug(), "line: 1, start: 2, current: 2, tokens: 1");
}

#[test]
fn mixed_program_scans_in_lexical_order() {
    // '>' is not an identifier stop, so the parameter must be written
    // with a space before the closing chevron; "n>" would be one
    // identifier.
    assert_eq!(
        types_of("(defun add2 <n >\n  (+ n 2))"),
        vec![
            LType::LParen,
            LType::Defun,
            LType::Ident("add2".to_string()),
            LType::LBracket,
            LType::Ident("n".to_string()),
            LType::RBracket,
            LType::LParen,
            LType::Plus,
            LType::Ident("n".to_string()),
            LType::Integer(2),
            LType::RParen,
            LType::RParen,
        ]
    );
}
