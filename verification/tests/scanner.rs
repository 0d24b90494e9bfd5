use lisp_lexer::builtins::Builtin;
use lisp_lexer::lexer::scan;
use lisp_lexer::lexer::Lexer;
use lisp_lexer::token::LType;
use lisp_lexer::token::LexError;
use lisp_lexer::token::Token;

fn types_of(src: &str) -> Vec<LType> {
    scan(src.to_string())
        .expect("scan should succeed")
        .into_iter()
        .map(|t| t.0)
        .collect()
}

fn scan_err(src: &str) -> LexError {
    scan(src.to_string()).expect_err("scan should fail")
}

#[test]
fn whitespace_only_yields_no_tokens() {
    let mut lx = Lexer::new("  \n \n   ".to_string());
    assert!(lx.lex().is_ok());
    assert!(lx.output.is_empty());
    assert_eq!(lx.line, 3);
}

#[test]
fn empty_text_yields_no_tokens() {
    let mut lx = Lexer::new(String::new());
    assert!(lx.lex().is_ok());
    assert!(lx.output.is_empty());
    assert_eq!(lx.line, 1);
}

#[test]
fn round_trip_simple_expression() {
    assert_eq!(
        types_of("(+ 1 2)"),
        vec![
            LType::LParen,
            LType::Plus,
            LType::Integer(1),
            LType::Integer(2),
            LType::RParen,
        ]
    );
}

#[test]
fn negative_literal_retracts_minus() {
    assert_eq!(types_of("-5"), vec![LType::Integer(-5)]);
}

#[test]
fn minus_not_adjacent_stays_operator() {
    assert_eq!(
        types_of("3 - 5"),
        vec![LType::Integer(3), LType::Minus, LType::Integer(5)]
    );
}

#[test]
fn double_minus_retracts_only_one() {
    assert_eq!(types_of("--5"), vec![LType::Minus, LType::Integer(-5)]);
}

#[test]
fn string_literal_is_captured_verbatim() {
    assert_eq!(types_of("\"hello\""), vec![LType::Str("hello".to_string())]);
}

#[test]
fn unterminated_string_fails() {
    assert_eq!(scan_err("\"unterminated"), LexError::UnterminatedString);
}

#[test]
fn trailing_dot_is_malformed() {
    assert_eq!(scan_err("3."), LexError::MalformedNumber);
}

#[test]
fn keyword_builtin_identifier_precedence() {
    assert_eq!(types_of("defun"), vec![LType::Defun]);
    assert_eq!(types_of("put"), vec![LType::Builtin(Builtin::Put)]);
    assert_eq!(types_of("foo"), vec![LType::Ident("foo".to_string())]);
}

#[test]
fn scanning_twice_yields_identical_tokens() {
    let src = "(defun f <x> (put x))\n\"s\" -3 4.5";
    let mut a = Lexer::new(src.to_string());
    let mut b = Lexer::new(src.to_string());
    let ra = a.lex();
    let rb = b.lex();
    assert_eq!(ra, rb);
    assert_eq!(a.output, b.output);
    assert_eq!(a.line, b.line);
}

#[test]
fn all_keywords_are_recognised() {
    assert_eq!(
        types_of("defun vec tup if else while let"),
        vec![
            LType::Defun,
            LType::VecKw,
            LType::Tup,
            LType::If,
            LType::Else,
            LType::While,
            LType::Let,
        ]
    );
}

#[test]
fn all_builtins_are_recognised() {
    assert_eq!(
        types_of("put get type len panic push pop"),
        vec![
            LType::Builtin(Builtin::Put),
            LType::Builtin(Builtin::Get),
            LType::Builtin(Builtin::Type),
            LType::Builtin(Builtin::Len),
            LType::Builtin(Builtin::Panic),
            LType::Builtin(Builtin::Push),
            LType::Builtin(Builtin::Pop),
        ]
    );
}

#[test]
fn brackets_and_operators() {
    assert_eq!(
        types_of("<>()"),
        vec![
            LType::LBracket,
            LType::RBracket,
            LType::LParen,
            LType::RParen,
        ]
    );
    assert_eq!(
        types_of("+ * / % -"),
        vec![
            LType::Plus,
            LType::Times,
            LType::Div,
            LType::Modulo,
            LType::Minus,
        ]
    );
}

#[test]
fn multiline_string_counts_lines() {
    let mut lx = Lexer::new("\"a\nb\"".to_string());
    assert!(lx.lex().is_ok());
    assert_eq!(lx.output, vec![Token::new(LType::Str("a\nb".to_string()))]);
    assert_eq!(lx.line, 2);
}

#[test]
fn empty_string_literal() {
    assert_eq!(types_of("\"\""), vec![LType::Str(String::new())]);
}

#[test]
fn quote_stops_an_identifier() {
    assert_eq!(
        types_of("foo\"bar\""),
        vec![
            LType::Ident("foo".to_string()),
            LType::Str("bar".to_string()),
        ]
    );
}

#[test]
fn line_counted_up_to_failure() {
    let mut lx = Lexer::new("\"a\nb".to_string());
    assert_eq!(lx.lex(), Err(LexError::UnterminatedString));
    assert_eq!(lx.line, 2);
    assert!(lx.output.is_empty());
}

#[test]
fn chevron_does_not_stop_an_identifier() {
    let mut lx = lisp_lexer::lexer::Lexer::new("n>".to_string());
    assert!(lx.lex().is_ok());
    assert_eq!(lx.output, vec![Token::new(LType::Ident("n>".to_string()))]);
}
