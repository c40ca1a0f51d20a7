use tr_lexer::error::{TRError, TRErrorKind};
use tr_lexer::grammar::{
    classify_segment, is_basic_type, is_char_const, is_float_point, is_identifier, is_integer,
    is_keyword, is_stack, is_string_const, is_symbol,
};
use tr_lexer::lexer::{TRStatementPosition, TRToken, TRTokenKind};
use tr_lexer::text::{protect_chars, split_segments, strip_comment_chars, trim_chars, PLACEHOLDER};

fn cs(s: &str) -> Vec<char> {
    s.chars().collect()
}

#[test]
fn keywords_and_words() {
    for k in ["copy", "add", "mod", "elif", "while", "return", "import", "use"] {
        assert!(is_keyword(&cs(k)), "{}", k);
    }
    assert!(!is_keyword(&cs("copyx")));
    assert!(!is_keyword(&cs("Copy")));
    assert!(is_stack(&cs("push")) && is_stack(&cs("pop")));
    assert!(!is_stack(&cs("peek")));
    for t in ["int", "float", "char", "struct", "array", "func"] {
        assert!(is_basic_type(&cs(t)));
    }
    assert!(!is_basic_type(&cs("bool")));
}

#[test]
fn identifier_pattern() {
    assert!(is_identifier(&cs("_a1")));
    assert!(is_identifier(&cs("Z")));
    assert!(!is_identifier(&cs("1a")));
    assert!(!is_identifier(&cs("")));
    assert!(!is_identifier(&cs("a-b")));
    assert!(!is_identifier(&cs("é")));
}

#[test]
fn integer_pattern() {
    assert!(is_integer(&cs("0")));
    assert!(is_integer(&cs("7")));
    assert!(is_integer(&cs("-120")));
    assert!(is_integer(&cs("+9")));
    assert!(!is_integer(&cs("007")));
    assert!(is_integer(&cs("-0")));
    assert!(is_integer(&cs("+0")));
    assert!(!is_integer(&cs("+00")));
    assert!(!is_integer(&cs("-01")));
    assert!(!is_integer(&cs("00")));
    assert!(!is_integer(&cs("")));
    assert!(!is_integer(&cs("+")));
    assert!(!is_integer(&cs("-")));
    assert!(!is_integer(&cs("1a")));
    assert!(!is_integer(&cs("1\u{663}")));
}

#[test]
fn float_pattern() {
    assert!(is_float_point(&cs("1.5")));
    assert!(is_float_point(&cs("-30.25")));
    assert!(!is_float_point(&cs("0.5")));
    assert!(!is_float_point(&cs("1.")));
    assert!(!is_float_point(&cs(".5")));
    assert!(!is_float_point(&cs("1.2.3")));
    assert!(!is_float_point(&cs("12")));
}

#[test]
fn literal_and_symbol_patterns() {
    assert!(is_char_const(&cs("'x'")));
    assert!(is_char_const(&cs("''")));
    assert!(!is_char_const(&cs("'")));
    assert!(is_string_const(&cs("\"\"")));
    assert!(!is_string_const(&cs("\"a'")));
    for s in ["$", ".", "*", "@"] {
        assert!(is_symbol(&cs(s)));
    }
    assert!(!is_symbol(&cs("#")));
    assert!(!is_symbol(&cs("..")));
}

#[test]
fn classification_order() {
    assert_eq!(classify_segment(&cs("if")).unwrap().0, TRTokenKind::Keyword);
    assert_eq!(classify_segment(&cs("pop")).unwrap().0, TRTokenKind::Stack);
    assert_eq!(classify_segment(&cs("char")).unwrap().0, TRTokenKind::BasicType);
    assert_eq!(classify_segment(&cs("iff")).unwrap().0, TRTokenKind::Identifier);
    let (k, v) = classify_segment(&cs("\"a\u{7}b\"")).unwrap();
    assert_eq!(k, TRTokenKind::StringConst);
    assert_eq!(v, cs("a b"));
    assert!(classify_segment(&cs("007")).is_none());
}

#[test]
fn preprocessing_steps() {
    assert_eq!(trim_chars(&cs(" \t a b \u{a0}")), cs("a b"));
    assert_eq!(strip_comment_chars(&cs("a b // c // d")), cs("a b"));
    assert_eq!(strip_comment_chars(&cs("a / b")), cs("a / b"));
    let p = protect_chars(&cs("x 'a b' \"c d\" e"));
    let mut want = cs("x 'a b' \"c d\" e");
    want[4] = PLACEHOLDER;
    want[10] = PLACEHOLDER;
    assert_eq!(p, want);
    assert_eq!(protect_chars(&cs("a \"b c")), cs("a \"b c"));
    assert_eq!(split_segments(&cs("  a\tbc  d ")), vec![cs("a"), cs("bc"), cs("d")]);
}

#[test]
fn constructors_and_error_fields() {
    let t = TRToken::float_point("2.5", 4, TRStatementPosition::Argument2);
    assert_eq!(t.value(), "2.5");
    assert_eq!(t.line(), 4);
    assert_eq!(*t.kind(), TRTokenKind::FloatPoint);
    assert_eq!(*t.statement_pos(), TRStatementPosition::Argument2);
    assert_eq!(*TRToken::symbol("$", 1, TRStatementPosition::Return).kind(), TRTokenKind::Symbol);
    assert_eq!(*TRToken::char_const("c", 1, TRStatementPosition::Return).kind(), TRTokenKind::CharConst);
    assert_eq!(*TRToken::string_const("s", 1, TRStatementPosition::Return).kind(), TRTokenKind::StringConst);
    assert_eq!(*TRToken::stack("push", 1, TRStatementPosition::Return).kind(), TRTokenKind::Stack);
    let e = TRError::new(TRErrorKind::UnknownToken, "nope", 9);
    assert_eq!(e.kind(), TRErrorKind::UnknownToken);
    assert_eq!(e.description(), "nope");
    assert_eq!(e.line(), 9);
}
