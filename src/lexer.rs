//! Tokens, the tokenizer and the statement-position checker.
use vstd::prelude::*;
use vstd::string::*;
use crate::error::{ErrorView, TRError, TRErrorKind, TRResult};
use crate::grammar::{classify, classify_segment};
use crate::text::{
    chars_of, preprocess, protect_chars, restore, restore_chars, rows, segments, split_segments,
    string_of, strip_comment_chars, trim_chars,
};

verus! {

#[derive(Debug, Clone, Copy, PartialEq, Eq, Structural)]
pub enum TRTokenKind {
    BasicType,
    Stack,
    Keyword,
    Integer,
    FloatPoint,
    CharConst,
    StringConst,
    Identifier,
    Symbol,
}

#[derive(Debug, Clone, Copy, PartialEq, Eq, Structural)]
pub enum TRStatementPosition {
    Return,
    Function,
    Argument1,
    Argument2,
}

/// What a token holds: its text, its line, its kind and its slot in the statement.
pub struct TokenView {
    pub value: Seq<char>,
    pub line: nat,
    pub kind: TRTokenKind,
    pub statement_pos: TRStatementPosition,
}

#[derive(Debug)]
pub struct TRToken {
    value: String,
    line: usize,
    kind: TRTokenKind,
    statement_pos: TRStatementPosition,
}

impl View for TRToken {
    type V = TokenView;

    closed spec fn view(&self) -> TokenView {
        TokenView {
            value: self.value@,
            line: self.line as nat,
            kind: self.kind,
            statement_pos: self.statement_pos,
        }
    }
}

impl TRToken {
    pub fn value(&self) -> (r: &str)
        ensures
            r@ == self@.value,
    {
        self.value.as_str()
    }

    pub fn line(&self) -> (r: usize)
        ensures
            r as nat == self@.line,
    {
        self.line
    }

    pub fn kind(&self) -> (r: &TRTokenKind)
        ensures
            *r == self@.kind,
    {
        &self.kind
    }

    pub fn statement_pos(&self) -> (r: &TRStatementPosition)
        ensures
            *r == self@.statement_pos,
    {
        &self.statement_pos
    }

    pub fn basic_type(value: &str, line: usize, statement_pos: TRStatementPosition) -> (r: TRToken)
        ensures
            r@ == (TokenView {
                value: value@,
                line: line as nat,
                kind: TRTokenKind::BasicType,
                statement_pos,
            }),
    {
        TRToken {
            kind: TRTokenKind::BasicType,
            value: String::from_str(value),
            line,
            statement_pos,
        }
    }

    pub fn stack(value: &str, line: usize, statement_pos: TRStatementPosition) -> (r: TRToken)
        ensures
            r@ == (TokenView {
                value: value@,
                line: line as nat,
                kind: TRTokenKind::Stack,
                statement_pos,
            }),
    {
        TRToken {
            kind: TRTokenKind::Stack,
            value: String::from_str(value),
            line,
            statement_pos,
        }
    }

    pub fn keyword(value: &str, line: usize, statement_pos: TRStatementPosition) -> (r: TRToken)
        ensures
            r@ == (TokenView {
                value: value@,
                line: line as nat,
                kind: TRTokenKind::Keyword,
                statement_pos,
            }),
    {
        TRToken {
            kind: TRTokenKind::Keyword,
            value: String::from_str(value),
            line,
            statement_pos,
        }
    }

    pub fn integer(value: &str, line: usize, statement_pos: TRStatementPosition) -> (r: TRToken)
        ensures
            r@ == (TokenView {
                value: value@,
                line: line as nat,
                kind: TRTokenKind::Integer,
                statement_pos,
            }),
    {
        TRToken {
            kind: TRTokenKind::Integer,
            value: String::from_str(value),
            line,
            statement_pos,
        }
    }

    pub fn float_point(value: &str, line: usize, statement_pos: TRStatementPosition) -> (r: TRToken)
        ensures
            r@ == (TokenView {
                value: value@,
                line: line as nat,
                kind: TRTokenKind::FloatPoint,
                statement_pos,
            }),
    {
        TRToken {
            kind: TRTokenKind::FloatPoint,
            value: String::from_str(value),
            line,
            statement_pos,
        }
    }

    pub fn char_const(value: &str, line: usize, statement_pos: TRStatementPosition) -> (r: TRToken)
        ensures
            r@ == (TokenView {
                value: value@,
                line: line as nat,
                kind: TRTokenKind::CharConst,
                statement_pos,
            }),
    {
        TRToken {
            kind: TRTokenKind::CharConst,
            value: String::from_str(value),
            line,
            statement_pos,
        }
    }

    pub fn string_const(value: &str, line: usize, statement_pos: TRStatementPosition) -> (r: TRToken)
        ensures
            r@ == (TokenView {
                value: value@,
                line: line as nat,
                kind: TRTokenKind::StringConst,
                statement_pos,
            }),
    {
        TRToken {
            kind: TRTokenKind::StringConst,
            value: String::from_str(value),
            line,
            statement_pos,
        }
    }

    pub fn identifier(value: &str, line: usize, statement_pos: TRStatementPosition) -> (r: TRToken)
        ensures
            r@ == (TokenView {
                value: value@,
                line: line as nat,
                kind: TRTokenKind::Identifier,
                statement_pos,
            }),
    {
        TRToken {
            kind: TRTokenKind::Identifier,
            value: String::from_str(value),
            line,
            statement_pos,
        }
    }

    pub fn symbol(value: &str, line: usize, statement_pos: TRStatementPosition) -> (r: TRToken)
        ensures
            r@ == (TokenView {
                value: value@,
                line: line as nat,
                kind: TRTokenKind::Symbol,
                statement_pos,
            }),
    {
        TRToken {
            kind: TRTokenKind::Symbol,
            value: String::from_str(value),
            line,
            statement_pos,
        }
    }
}

/// The slot of the token at index `k` of its line: the four slots in turn.
pub open spec fn position_at(k: int) -> TRStatementPosition {
    let r = k % 4;
    if r == 0 {
        TRStatementPosition::Return
    } else if r == 1 {
        TRStatementPosition::Function
    } else if r == 2 {
        TRStatementPosition::Argument1
    } else {
        TRStatementPosition::Argument2
    }
}

pub open spec fn next_position(p: TRStatementPosition) -> TRStatementPosition {
    match p {
        TRStatementPosition::Return => TRStatementPosition::Function,
        TRStatementPosition::Function => TRStatementPosition::Argument1,
        TRStatementPosition::Argument1 => TRStatementPosition::Argument2,
        TRStatementPosition::Argument2 => TRStatementPosition::Return,
    }
}

pub proof fn lemma_next_position(k: int)
    requires
        k >= 0,
    ensures
        next_position(position_at(k)) == position_at(k + 1),
{
}

pub open spec fn views(s: Seq<TRToken>) -> Seq<TokenView> {
    s.map_values(|t: TRToken| t@)
}

pub open spec fn line_views(s: Seq<String>) -> Seq<Seq<char>> {
    s.map_values(|l: String| l@)
}

pub open spec fn result_view(r: TRResult<Vec<TRToken>>) -> Result<Seq<TokenView>, ErrorView> {
    match r {
        Ok(v) => Ok(views(v@)),
        Err(e) => Err(e@),
    }
}

/// The tokens of the segments of line `line`, the `k`-th in slot `position_at(k)`;
/// or the first segment that no class accepts.
pub open spec fn classify_segments(segs: Seq<Seq<char>>, line: nat) -> Result<
    Seq<TokenView>,
    Seq<char>,
>
    decreases segs.len(),
{
    if segs.len() == 0 {
        Ok(Seq::empty())
    } else {
        match classify_segments(segs.drop_last(), line) {
            Err(seg) => Err(seg),
            Ok(ts) => match classify(segs.last()) {
                None => Err(segs.last()),
                Some((kind, value)) => Ok(
                    ts.push(
                        TokenView {
                            value,
                            line,
                            kind,
                            statement_pos: position_at(segs.len() - 1),
                        },
                    ),
                ),
            },
        }
    }
}

/// The tokens of one raw line, numbered `line`.
pub open spec fn line_tokens(text: Seq<char>, line: nat) -> Result<Seq<TokenView>, Seq<char>> {
    classify_segments(segments(preprocess(text)), line)
}

pub open spec fn unknown_token(seg: Seq<char>, line: nat) -> ErrorView {
    ErrorView {
        kind: TRErrorKind::UnknownToken,
        description: "Token not recognized: "@ + restore(seg),
        line,
    }
}

/// The tokens of all lines in order, lines numbered from 1; or the error for the
/// first segment that no class accepts.
pub open spec fn tokenize_lines(lines: Seq<Seq<char>>) -> Result<Seq<TokenView>, ErrorView>
    decreases lines.len(),
{
    if lines.len() == 0 {
        Ok(Seq::empty())
    } else {
        match tokenize_lines(lines.drop_last()) {
            Err(e) => Err(e),
            Ok(ts) => match line_tokens(lines.last(), lines.len()) {
                Ok(lt) => Ok(ts + lt),
                Err(seg) => Err(unknown_token(seg, lines.len())),
            },
        }
    }
}

pub open spec fn slot_message(
    subject: Seq<char>,
    quote: Seq<char>,
    value: Seq<char>,
    rule: Seq<char>,
) -> Seq<char> {
    "The "@ + subject + " "@ + quote + value + quote + rule
}

pub open spec fn misplaced(
    subject: Seq<char>,
    quote: Seq<char>,
    value: Seq<char>,
    rule: Seq<char>,
) -> Option<(TRErrorKind, Seq<char>)> {
    Some((TRErrorKind::InvalidStatementPosition, slot_message(subject, quote, value, rule)))
}

/// A constant may stand in an argument slot only.
pub open spec fn constant_rule(
    subject: Seq<char>,
    quote: Seq<char>,
    value: Seq<char>,
    p: TRStatementPosition,
) -> Option<(TRErrorKind, Seq<char>)> {
    match p {
        TRStatementPosition::Return => misplaced(
            subject,
            quote,
            value,
            " cannot be the return of a statement"@,
        ),
        TRStatementPosition::Function => misplaced(
            subject,
            quote,
            value,
            " cannot be the function of a statement"@,
        ),
        _ => None,
    }
}

/// A char constant holds one character, or two of which the first is a backslash.
pub open spec fn bad_char_length(v: Seq<char>) -> bool {
    (v.len() == 2 && v[0] != '\\') || v.len() > 2
}

pub open spec fn is_star_dollar_at(v: Seq<char>) -> bool {
    v == seq!['*'] || v == seq!['$'] || v == seq!['@']
}

/// The error kind and text for a token that stands where its kind may not, if it does.
pub open spec fn violation(t: TokenView) -> Option<(TRErrorKind, Seq<char>)> {
    let v = t.value;
    let p = t.statement_pos;
    match t.kind {
        TRTokenKind::BasicType => if p is Return {
            misplaced("type"@, "\""@, v, " cannot be the return of a statement"@)
        } else {
            None
        },
        TRTokenKind::Stack | TRTokenKind::Keyword => if p is Function {
            None
        } else {
            misplaced("keyword"@, "\""@, v, " must be the functions of a statement"@)
        },
        TRTokenKind::Integer => constant_rule("integer constant"@, "\""@, v, p),
        TRTokenKind::FloatPoint => constant_rule("float point constant"@, "\""@, v, p),
        TRTokenKind::CharConst => if bad_char_length(v) {
            Some((TRErrorKind::InvalidCharConstant, "The size of char constants must be 1"@))
        } else {
            constant_rule("char constant"@, "'"@, v, p)
        },
        TRTokenKind::StringConst => constant_rule("string constant"@, "\""@, v, p),
        TRTokenKind::Identifier => None,
        TRTokenKind::Symbol => if v == seq!['.'] {
            if p is Return {
                None
            } else {
                misplaced("symbol"@, "\""@, v, " must be the return of a statement"@)
            }
        } else if is_star_dollar_at(v) && p is Function {
            misplaced("symbol"@, "\""@, v, " cannot be the function of a statement"@)
        } else {
            None
        },
    }
}

/// The first index at or after `i` of a token that breaks its slot rule.
pub open spec fn first_violation(ts: Seq<TokenView>, i: int) -> Option<int>
    decreases ts.len() - i,
{
    if i < 0 || i >= ts.len() {
        None
    } else if violation(ts[i]) is Some {
        Some(i)
    } else {
        first_violation(ts, i + 1)
    }
}

/// The tokens unchanged, or the error for the first that breaks its slot rule.
pub open spec fn check_tokens(ts: Seq<TokenView>) -> Result<Seq<TokenView>, ErrorView> {
    match first_violation(ts, 0) {
        None => Ok(ts),
        Some(i) => {
            let found = violation(ts[i])->0;
            Err(ErrorView { kind: found.0, description: found.1, line: ts[i].line })
        },
    }
}

/// What lexing a file made of `lines` gives.
pub open spec fn lex(lines: Seq<Seq<char>>) -> Result<Seq<TokenView>, ErrorView> {
    match tokenize_lines(lines) {
        Ok(ts) => check_tokens(ts),
        Err(e) => Err(e),
    }
}

/// Once a prefix of the segments has met one that no class accepts, the rest
/// changes nothing.
pub proof fn lemma_segments_abort(segs: Seq<Seq<char>>, line: nat, m: int)
    requires
        0 <= m <= segs.len(),
        classify_segments(segs.subrange(0, m), line) is Err,
    ensures
        classify_segments(segs, line) == classify_segments(segs.subrange(0, m), line),
    decreases segs.len(),
{
    if m == segs.len() {
        assert(segs.subrange(0, m) =~= segs);
    } else {
        assert(segs.drop_last().subrange(0, m) =~= segs.subrange(0, m));
        lemma_segments_abort(segs.drop_last(), line, m);
    }
}

/// Once a prefix of the lines has failed, the lines after it change nothing.
pub proof fn lemma_tokenize_abort(lines: Seq<Seq<char>>, m: int)
    requires
        0 <= m <= lines.len(),
        tokenize_lines(lines.subrange(0, m)) is Err,
    ensures
        tokenize_lines(lines) == tokenize_lines(lines.subrange(0, m)),
    decreases lines.len(),
{
    if m == lines.len() {
        assert(lines.subrange(0, m) =~= lines);
    } else {
        assert(lines.drop_last().subrange(0, m) =~= lines.subrange(0, m));
        lemma_tokenize_abort(lines.drop_last(), m);
    }
}

pub fn next_statement_pos(pos: &mut TRStatementPosition)
    ensures
        *final(pos) == next_position(*old(pos)),
{
    match pos {
        TRStatementPosition::Return => *pos = TRStatementPosition::Function,
        TRStatementPosition::Function => *pos = TRStatementPosition::Argument1,
        TRStatementPosition::Argument1 => *pos = TRStatementPosition::Argument2,
        TRStatementPosition::Argument2 => *pos = TRStatementPosition::Return,
    }
}

fn make_token(kind: TRTokenKind, value: &str, line: usize, pos: TRStatementPosition) -> (r:
    TRToken)
    ensures
        r@ == (TokenView { value: value@, line: line as nat, kind, statement_pos: pos }),
{
    match kind {
        TRTokenKind::BasicType => TRToken::basic_type(value, line, pos),
        TRTokenKind::Stack => TRToken::stack(value, line, pos),
        TRTokenKind::Keyword => TRToken::keyword(value, line, pos),
        TRTokenKind::Integer => TRToken::integer(value, line, pos),
        TRTokenKind::FloatPoint => TRToken::float_point(value, line, pos),
        TRTokenKind::CharConst => TRToken::char_const(value, line, pos),
        TRTokenKind::StringConst => TRToken::string_const(value, line, pos),
        TRTokenKind::Identifier => TRToken::identifier(value, line, pos),
        TRTokenKind::Symbol => TRToken::symbol(value, line, pos),
    }
}

/// The tokens of one raw line, or the first segment that no class accepts.
pub fn tokenize_line(text: &str, line: usize) -> (r: Result<Vec<TRToken>, Vec<char>>)
    ensures
        match r {
            Ok(v) => line_tokens(text@, line as nat) == Ok::<_, Seq<char>>(views(v@)),
            Err(seg) => line_tokens(text@, line as nat) == Err::<Seq<TokenView>, _>(seg@),
        },
{
    let chars = chars_of(text);
    let trimmed = trim_chars(&chars);
    let stripped = strip_comment_chars(&trimmed);
    let protected = protect_chars(&stripped);
    let segs = split_segments(&protected);
    let ghost all = rows(segs@);
    let mut toks: Vec<TRToken> = Vec::new();
    let mut pos = TRStatementPosition::Return;
    let mut j: usize = 0;
    assert(all.subrange(0, 0) =~= Seq::<Seq<char>>::empty());
    assert(views(toks@) =~= Seq::<TokenView>::empty());
    while j < segs.len()
        invariant
            j <= segs.len(),
            all == rows(segs@),
            all == segments(preprocess(text@)),
            classify_segments(all.subrange(0, j as int), line as nat) == Ok::<_, Seq<char>>(views(toks@)),
            pos == position_at(j as int),
        decreases segs.len() - j,
    {
        let seg = &segs[j];
        proof {
            assert(all.subrange(0, j + 1).drop_last() =~= all.subrange(0, j as int));
            assert(all.subrange(0, j + 1).last() == seg@);
        }
        match classify_segment(seg) {
            None => {
                proof {
                    lemma_segments_abort(all, line as nat, j + 1);
                }
                return Err(seg.clone());
            },
            Some((kind, value)) => {
                let text_value = string_of(&value);
                let tok = make_token(kind, text_value.as_str(), line, pos);
                let ghost before = toks@;
                toks.push(tok);
                assert(views(toks@) =~= views(before).push(tok@));
                proof {
                    lemma_next_position(j as int);
                }
                next_statement_pos(&mut pos);
                j = j + 1;
            },
        }
    }
    assert(all.subrange(0, j as int) =~= all);
    Ok(toks)
}

/// Tokenizes the lines in order, numbering them from 1.
pub fn tokenize(lines: &[String]) -> (r: TRResult<Vec<TRToken>>)
    ensures
        result_view(r) == tokenize_lines(line_views(lines@)),
{
    let ghost all = line_views(lines@);
    let mut toks: Vec<TRToken> = Vec::new();
    let mut i: usize = 0;
    assert(all.subrange(0, 0) =~= Seq::<Seq<char>>::empty());
    assert(views(toks@) =~= Seq::<TokenView>::empty());
    while i < lines.len()
        invariant
            i <= lines.len(),
            all == line_views(lines@),
            tokenize_lines(all.subrange(0, i as int)) == Ok::<_, ErrorView>(views(toks@)),
        decreases lines.len() - i,
    {
        proof {
            assert(all.subrange(0, i + 1).drop_last() =~= all.subrange(0, i as int));
            assert(all.subrange(0, i + 1).last() == lines@[i as int]@);
        }
        match tokenize_line(lines[i].as_str(), i + 1) {
            Ok(mut line_toks) => {
                let ghost before = toks@;
                let ghost added = line_toks@;
                toks.append(&mut line_toks);
                assert(views(toks@) =~= views(before) + views(added));
            },
            Err(seg) => {
                let shown = restore_chars(&seg);
                let text = string_of(&shown);
                let mut description = String::from_str("Token not recognized: ");
                description.append(text.as_str());
                proof {
                    assert(description@ =~= "Token not recognized: "@ + restore(seg@));
                    lemma_tokenize_abort(all, i + 1);
                }
                return Err(TRError::new(TRErrorKind::UnknownToken, description.as_str(), i + 1));
            },
        }
        i = i + 1;
    }
    assert(all.subrange(0, i as int) =~= all);
    Ok(toks)
}

/// The error for a token in a slot that its kind may not take.
fn misplaced_error(subject: &str, quote: &str, value: &str, rule: &str, line: usize) -> (r:
    TRError)
    ensures
        r@ == (ErrorView {
            kind: TRErrorKind::InvalidStatementPosition,
            description: slot_message(subject@, quote@, value@, rule@),
            line: line as nat,
        }),
{
    let mut m = String::from_str("The ");
    m.append(subject);
    m.append(" ");
    m.append(quote);
    m.append(value);
    m.append(quote);
    m.append(rule);
    TRError::new(TRErrorKind::InvalidStatementPosition, m.as_str(), line)
}

fn constant_error(
    subject: &str,
    quote: &str,
    value: &str,
    p: TRStatementPosition,
    line: usize,
) -> (r: Option<TRError>)
    ensures
        match r {
            None => constant_rule(subject@, quote@, value@, p) is None,
            Some(e) => constant_rule(subject@, quote@, value@, p) == Some((e@.kind, e@.description))
                && e@.line == line as nat,
        },
{
    match p {
        TRStatementPosition::Return => Some(
            misplaced_error(subject, quote, value, " cannot be the return of a statement", line),
        ),
        TRStatementPosition::Function => Some(
            misplaced_error(subject, quote, value, " cannot be the function of a statement", line),
        ),
        _ => None,
    }
}

/// The one character of `v`, if it has exactly one.
fn single_char(v: &str) -> (r: Option<char>)
    ensures
        match r {
            Some(c) => v@ == seq![c],
            None => v@.len() != 1,
        },
{
    if v.unicode_len() == 1 {
        let c = v.get_char(0);
        assert(v@ =~= seq![c]);
        Some(c)
    } else {
        None
    }
}

/// The error for a token that breaks its slot rule, if it does.
fn token_error(tok: &TRToken) -> (r: Option<TRError>)
    ensures
        match r {
            None => violation(tok@) is None,
            Some(e) => violation(tok@) == Some((e@.kind, e@.description)) && e@.line == tok@.line,
        },
{
    let v = tok.value();
    let p = *tok.statement_pos();
    let line = tok.line();
    match *tok.kind() {
        TRTokenKind::BasicType => match p {
            TRStatementPosition::Return => Some(
                misplaced_error("type", "\"", v, " cannot be the return of a statement", line),
            ),
            _ => None,
        },
        TRTokenKind::Stack | TRTokenKind::Keyword => match p {
            TRStatementPosition::Function => None,
            _ => Some(
                misplaced_error("keyword", "\"", v, " must be the functions of a statement", line),
            ),
        },
        TRTokenKind::Integer => constant_error("integer constant", "\"", v, p, line),
        TRTokenKind::FloatPoint => constant_error("float point constant", "\"", v, p, line),
        TRTokenKind::CharConst => {
            let n = v.unicode_len();
            if (n == 2 && v.get_char(0) != '\\') || n > 2 {
                Some(
                    TRError::new(
                        TRErrorKind::InvalidCharConstant,
                        "The size of char constants must be 1",
                        line,
                    ),
                )
            } else {
                constant_error("char constant", "'", v, p, line)
            }
        },
        TRTokenKind::StringConst => constant_error("string constant", "\"", v, p, line),
        TRTokenKind::Identifier => None,
        TRTokenKind::Symbol => {
            let single = single_char(v);
            proof {
                if let Some(c) = single {
                    assert(v@[0] == c);
                }
            }
            match single {
            Some('.') => match p {
                TRStatementPosition::Return => None,
                _ => Some(
                    misplaced_error("symbol", "\"", v, " must be the return of a statement", line),
                ),
            },
            Some('*') | Some('$') | Some('@') => match p {
                TRStatementPosition::Function => Some(
                    misplaced_error(
                        "symbol",
                        "\"",
                        v,
                        " cannot be the function of a statement",
                        line,
                    ),
                ),
                _ => None,
            },
            _ => None,
        }
        },
    }
}

/// Checks each token against the slot rule of its kind, in order, and stops at
/// the first that breaks it.
pub fn check_syntax(tokens: Vec<TRToken>) -> (r: TRResult<Vec<TRToken>>)
    ensures
        result_view(r) == check_tokens(views(tokens@)),
{
    let ghost ts = views(tokens@);
    let mut i: usize = 0;
    while i < tokens.len()
        invariant
            i <= tokens.len(),
            ts == views(tokens@),
            first_violation(ts, 0) == first_violation(ts, i as int),
        decreases tokens.len() - i,
    {
        assert(ts[i as int] == tokens@[i as int]@);
        if let Some(e) = token_error(&tokens[i]) {
            return Err(e);
        }
        i = i + 1;
    }
    Ok(tokens)
}

/// Lexes a file given as its lines: tokenizes all of them, then checks the
/// statement slots.
pub fn lexer(lines: &[String]) -> (r: TRResult<Vec<TRToken>>)
    ensures
        result_view(r) == lex(line_views(lines@)),
{
    match tokenize(lines) {
        Ok(tokens) => check_syntax(tokens),
        Err(e) => Err(e),
    }
}

} // verus!
