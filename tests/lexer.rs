use tr_lexer::error::TRErrorKind;
use tr_lexer::lexer::{check_syntax, lexer, tokenize, TRStatementPosition, TRToken, TRTokenKind};

fn lines(text: &[&str]) -> Vec<String> {
    text.iter().map(|l| l.to_string()).collect()
}

fn summary(toks: &[TRToken]) -> Vec<(usize, TRTokenKind, String, TRStatementPosition)> {
    toks.iter()
        .map(|t| (t.line(), *t.kind(), t.value().to_string(), *t.statement_pos()))
        .collect()
}

#[test]
fn six_identifiers_cycle_through_slots() {
    let toks = tokenize(&lines(&["a b c d e f"])).unwrap();
    let pos: Vec<TRStatementPosition> = toks.iter().map(|t| *t.statement_pos()).collect();
    assert_eq!(
        pos,
        vec![
            TRStatementPosition::Return,
            TRStatementPosition::Function,
            TRStatementPosition::Argument1,
            TRStatementPosition::Argument2,
            TRStatementPosition::Return,
            TRStatementPosition::Function,
        ]
    );
    assert!(toks.iter().all(|t| *t.kind() == TRTokenKind::Identifier));
}

#[test]
fn slots_restart_on_each_line() {
    let toks = tokenize(&lines(&["a b c", "d e"])).unwrap();
    let got: Vec<(usize, TRStatementPosition)> =
        toks.iter().map(|t| (t.line(), *t.statement_pos())).collect();
    assert_eq!(
        got,
        vec![
            (1, TRStatementPosition::Return),
            (1, TRStatementPosition::Function),
            (1, TRStatementPosition::Argument1),
            (2, TRStatementPosition::Return),
            (2, TRStatementPosition::Function),
        ]
    );
}

#[test]
fn quoted_spaces_are_kept() {
    let toks = tokenize(&lines(&["push \"hello world\""])).unwrap();
    assert_eq!(
        summary(&toks),
        vec![
            (1, TRTokenKind::Stack, "push".to_string(), TRStatementPosition::Return),
            (1, TRTokenKind::StringConst, "hello world".to_string(), TRStatementPosition::Function),
        ]
    );
}

#[test]
fn quoted_string_in_argument_slot() {
    let toks = lexer(&lines(&["s push \"hello world\""])).unwrap();
    assert_eq!(
        summary(&toks),
        vec![
            (1, TRTokenKind::Identifier, "s".to_string(), TRStatementPosition::Return),
            (1, TRTokenKind::Stack, "push".to_string(), TRStatementPosition::Function),
            (1, TRTokenKind::StringConst, "hello world".to_string(), TRStatementPosition::Argument1),
        ]
    );
}

#[test]
fn quoted_span_runs_to_last_quote() {
    let toks = tokenize(&lines(&["x copy \"a b\" \"c d\""])).unwrap();
    assert_eq!(toks.len(), 3);
    assert_eq!(*toks[2].kind(), TRTokenKind::StringConst);
    assert_eq!(toks[2].value(), "a b\" \"c d");
}

#[test]
fn comment_does_not_change_tokens() {
    let a = lexer(&lines(&["copy a b // comment"]));
    let b = lexer(&lines(&["copy a b"]));
    let ta = tokenize(&lines(&["copy a b // comment"])).unwrap();
    let tb = tokenize(&lines(&["copy a b"])).unwrap();
    assert_eq!(summary(&ta), summary(&tb));
    assert_eq!(ta.len(), 3);
    assert_eq!(a.unwrap_err().kind(), b.unwrap_err().kind());
}

#[test]
fn comment_without_space_and_whole_line_comment() {
    let ta = tokenize(&lines(&["x copy y//z w"])).unwrap();
    let values: Vec<&str> = ta.iter().map(|t| t.value()).collect();
    assert_eq!(values, vec!["x", "copy", "y"]);
    let tb = tokenize(&lines(&["   // only a comment", ""])).unwrap();
    assert!(tb.is_empty());
}

#[test]
fn leading_zero_integer_is_unknown() {
    let err = tokenize(&lines(&["x copy 007"])).unwrap_err();
    assert_eq!(err.kind(), TRErrorKind::UnknownToken);
    assert_eq!(err.description(), "Token not recognized: 007");
    assert_eq!(err.line(), 1);
}

#[test]
fn char_constant_of_one_character_passes() {
    let toks = lexer(&lines(&["x copy 'a'"])).unwrap();
    assert_eq!(*toks[2].kind(), TRTokenKind::CharConst);
    assert_eq!(toks[2].value(), "a");
    assert_eq!(*toks[2].statement_pos(), TRStatementPosition::Argument1);
}

#[test]
fn char_constant_of_two_characters_fails() {
    let err = lexer(&lines(&["x copy 'ab'"])).unwrap_err();
    assert_eq!(err.kind(), TRErrorKind::InvalidCharConstant);
    assert_eq!(err.description(), "The size of char constants must be 1");
    let err = lexer(&lines(&["'ab'"])).unwrap_err();
    assert_eq!(err.kind(), TRErrorKind::InvalidCharConstant);
    let err = lexer(&lines(&["x 'ab'"])).unwrap_err();
    assert_eq!(err.kind(), TRErrorKind::InvalidCharConstant);
    let err = lexer(&lines(&["x copy y 'abc'"])).unwrap_err();
    assert_eq!(err.kind(), TRErrorKind::InvalidCharConstant);
}

#[test]
fn escaped_char_constant_passes() {
    let toks = lexer(&lines(&["x copy '\\n'"])).unwrap();
    assert_eq!(toks[2].value(), "\\n");
    let toks = lexer(&lines(&["x copy ''"])).unwrap();
    assert_eq!(toks[2].value(), "");
}

#[test]
fn char_constant_with_space() {
    let toks = lexer(&lines(&["x copy ' '"])).unwrap();
    assert_eq!(toks[2].value(), " ");
}

#[test]
fn basic_type_alone_is_misplaced() {
    let err = lexer(&lines(&["int"])).unwrap_err();
    assert_eq!(err.kind(), TRErrorKind::InvalidStatementPosition);
    assert_eq!(err.description(), "The type \"int\" cannot be the return of a statement");
}

#[test]
fn integer_alone_is_misplaced() {
    let err = lexer(&lines(&["5"])).unwrap_err();
    assert_eq!(err.kind(), TRErrorKind::InvalidStatementPosition);
    assert_eq!(
        err.description(),
        "The integer constant \"5\" cannot be the return of a statement"
    );
}

#[test]
fn constants_in_function_slot_are_misplaced() {
    let err = lexer(&lines(&["x 1.5"])).unwrap_err();
    assert_eq!(
        err.description(),
        "The float point constant \"1.5\" cannot be the function of a statement"
    );
    let err = lexer(&lines(&["x \"s\""])).unwrap_err();
    assert_eq!(
        err.description(),
        "The string constant \"s\" cannot be the function of a statement"
    );
    let err = lexer(&lines(&["x 'c'"])).unwrap_err();
    assert_eq!(err.description(), "The char constant 'c' cannot be the function of a statement");
}

#[test]
fn keyword_outside_function_slot() {
    let err = lexer(&lines(&["copy"])).unwrap_err();
    assert_eq!(err.kind(), TRErrorKind::InvalidStatementPosition);
    assert_eq!(err.description(), "The keyword \"copy\" must be the functions of a statement");
    let err = lexer(&lines(&["x copy pop"])).unwrap_err();
    assert_eq!(err.description(), "The keyword \"pop\" must be the functions of a statement");
}

#[test]
fn symbol_rules() {
    assert!(lexer(&lines(&["."])).is_ok());
    let err = lexer(&lines(&["x ."])).unwrap_err();
    assert_eq!(err.description(), "The symbol \".\" must be the return of a statement");
    let err = lexer(&lines(&["x *"])).unwrap_err();
    assert_eq!(err.description(), "The symbol \"*\" cannot be the function of a statement");
    assert!(lexer(&lines(&["@ copy $ *"])).is_ok());
}

#[test]
fn full_program_passes() {
    let src = lines(&[
        "x copy 10 // set x",
        "",
        "y add x -2.75",
        "s push \"a b c\"",
        "c type int",
        ". while flag",
    ]);
    let toks = lexer(&src).unwrap();
    assert_eq!(toks.len(), 16);
    assert_eq!(toks[15].line(), 6);
    assert_eq!(*toks[3].kind(), TRTokenKind::Identifier);
    assert_eq!(*toks[6].kind(), TRTokenKind::FloatPoint);
    assert_eq!(toks[6].value(), "-2.75");
    assert_eq!(toks[9].value(), "a b c");
    assert_eq!(*toks[12].kind(), TRTokenKind::BasicType);
    assert_eq!(*toks[13].kind(), TRTokenKind::Symbol);
}

#[test]
fn repeated_runs_agree() {
    let src = lines(&["x copy 'q' // c", "y add \"p q\" 3"]);
    let a = tokenize(&src).unwrap();
    let b = tokenize(&src).unwrap();
    assert_eq!(summary(&a), summary(&b));
}

#[test]
fn unknown_token_stops_everything() {
    let src = lines(&["x copy y", "a ~ b", "z ??"]);
    let err = lexer(&src).unwrap_err();
    assert_eq!(err.kind(), TRErrorKind::UnknownToken);
    assert_eq!(err.line(), 2);
    assert_eq!(err.description(), "Token not recognized: ~");
}

#[test]
fn unknown_token_shows_restored_spaces() {
    let err = tokenize(&lines(&["x \"a b\"c"])).unwrap_err();
    assert_eq!(err.description(), "Token not recognized: \"a b\"c");
}

#[test]
fn unknown_token_wins_over_earlier_position_errors() {
    let err = lexer(&lines(&["int", "x ~"])).unwrap_err();
    assert_eq!(err.kind(), TRErrorKind::UnknownToken);
    assert_eq!(err.line(), 2);
}

#[test]
fn first_position_error_is_reported() {
    let err = lexer(&lines(&["x copy y", "5", "int"])).unwrap_err();
    assert_eq!(err.line(), 2);
    assert_eq!(err.kind(), TRErrorKind::InvalidStatementPosition);
}

#[test]
fn check_syntax_keeps_tokens() {
    let toks = vec![
        TRToken::identifier("x", 3, TRStatementPosition::Return),
        TRToken::keyword("copy", 3, TRStatementPosition::Function),
        TRToken::integer("1", 3, TRStatementPosition::Argument1),
    ];
    let out = check_syntax(toks).unwrap();
    assert_eq!(out.len(), 3);
    assert_eq!(out[2].value(), "1");
    let bad = vec![TRToken::basic_type("int", 7, TRStatementPosition::Return)];
    let err = check_syntax(bad).unwrap_err();
    assert_eq!(err.line(), 7);
}

#[test]
fn unicode_whitespace_separates() {
    let toks = tokenize(&lines(&["x\u{3000}copy\ty"])).unwrap();
    assert_eq!(toks.len(), 3);
    assert_eq!(toks[1].value(), "copy");
}

#[test]
fn tab_inside_quotes_splits() {
    let err = tokenize(&lines(&["x push \"a\tb\""])).unwrap_err();
    assert_eq!(err.description(), "Token not recognized: \"a");
}

#[test]
fn plain_line_is_cut_at_whitespace() {
    let toks = tokenize(&lines(&["  x   add\t3 -4  y "])).unwrap();
    assert_eq!(
        summary(&toks),
        vec![
            (1, TRTokenKind::Identifier, "x".to_string(), TRStatementPosition::Return),
            (1, TRTokenKind::Keyword, "add".to_string(), TRStatementPosition::Function),
            (1, TRTokenKind::Integer, "3".to_string(), TRStatementPosition::Argument1),
            (1, TRTokenKind::Integer, "-4".to_string(), TRStatementPosition::Argument2),
            (1, TRTokenKind::Identifier, "y".to_string(), TRStatementPosition::Return),
        ]
    );
}

#[test]
fn signed_zero_is_an_integer() {
    let toks = lexer(&lines(&["x copy -0 +0"])).unwrap();
    assert_eq!(*toks[2].kind(), TRTokenKind::Integer);
    assert_eq!(toks[2].value(), "-0");
    assert_eq!(*toks[3].kind(), TRTokenKind::Integer);
    let err = tokenize(&lines(&["x copy -00"])).unwrap_err();
    assert_eq!(err.kind(), TRErrorKind::UnknownToken);
}

#[test]
fn comment_on_one_line_of_a_file() {
    let a = tokenize(&lines(&["x copy y", "a add b//c 'q", "z"])).unwrap();
    let b = tokenize(&lines(&["x copy y", "a add b", "z"])).unwrap();
    assert_eq!(summary(&a), summary(&b));
    assert_eq!(*a[6].statement_pos(), TRStatementPosition::Return);
    assert_eq!(a[6].line(), 3);
}
