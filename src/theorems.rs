//! Facts about the lexer as a whole, stated over the spec functions that its
//! contracts use.
use vstd::prelude::*;
use crate::error::{ErrorView, TRErrorKind};
use crate::text::{
    comment_from, is_comment_at, is_quote, is_ws, lemma_comment_from, lemma_protect_no_quotes,
    lemma_segments_open, lemma_segments_trim, lemma_trim, lemma_trim_unique, preprocess, segments,
    strip_comment, trim, trims_to,
};
use crate::grammar::{classify, integer_lexeme, is_digit, lemma_words_are_lowercase, sign_len};
use crate::lexer::{
    TokenView, TRStatementPosition, TRTokenKind, bad_char_length, classify_segments, lex,
    line_tokens, position_at, tokenize_lines, unknown_token, violation,
};

verus! {

/// Within a line, the tokens take the four slots in turn from Return on, one
/// token for each segment, all carrying the line's number.
pub proof fn lemma_slots_cycle(segs: Seq<Seq<char>>, line: nat)
    requires
        classify_segments(segs, line) is Ok,
    ensures
        ({
            let ts = classify_segments(segs, line)->Ok_0;
            &&& ts.len() == segs.len()
            &&& forall|i: int|
                0 <= i < ts.len() ==> (#[trigger] ts[i]).statement_pos == position_at(i)
                    && ts[i].line == line && classify(segs[i]) == Some((ts[i].kind, ts[i].value))
        }),
    decreases segs.len(),
{
    if segs.len() > 0 {
        lemma_slots_cycle(segs.drop_last(), line);
    }
}

/// The slot of a token depends on its index in the line modulo four.
pub proof fn lemma_slot_period(i: int)
    requires
        i >= 0,
    ensures
        position_at(0) == TRStatementPosition::Return,
        position_at(i + 4) == position_at(i),
{
}

/// An optional sign followed by a `0` and more characters is never an Integer.
pub proof fn lemma_integer_no_leading_zero(s: Seq<char>)
    requires
        s.len() > sign_len(s) + 1,
        s[sign_len(s)] == '0',
    ensures
        !integer_lexeme(s),
{
}

/// Digits of which there are two or more and the first is `0` fit no class:
/// such a segment is an unknown token.
pub proof fn lemma_leading_zero_unknown(s: Seq<char>)
    requires
        s.len() >= 2,
        s[0] == '0',
        forall|k: int| 0 <= k < s.len() ==> is_digit(#[trigger] s[k]),
    ensures
        classify(s) is None,
{
    lemma_words_are_lowercase(s);
    assert(sign_len(s) == 0);
}

/// A char constant whose text is too long is refused for its length in every
/// slot; one of a single character is accepted in both argument slots.
pub proof fn lemma_char_length_rule(v: Seq<char>, line: nat, p: TRStatementPosition)
    ensures
        bad_char_length(v) ==> violation(
            TokenView { value: v, line, kind: TRTokenKind::CharConst, statement_pos: p },
        ) == Some((TRErrorKind::InvalidCharConstant, "The size of char constants must be 1"@)),
        !bad_char_length(v) && (p is Argument1 || p is Argument2) ==> violation(
            TokenView { value: v, line, kind: TRTokenKind::CharConst, statement_pos: p },
        ) is None,
        v.len() == 1 || (v.len() == 2 && v[0] == '\\') ==> !bad_char_length(v),
{
}

/// The first line with a segment that fits no class ends the run with that
/// error: no later line is read and no token is returned.
pub proof fn lemma_unknown_token_aborts(lines: Seq<Seq<char>>, k: int)
    requires
        0 <= k < lines.len(),
        tokenize_lines(lines.subrange(0, k)) is Ok,
        line_tokens(lines[k], (k + 1) as nat) is Err,
    ensures
        lex(lines) == Err::<Seq<TokenView>, ErrorView>(
            unknown_token(line_tokens(lines[k], (k + 1) as nat)->Err_0, (k + 1) as nat),
        ),
        lex(lines) == lex(lines.subrange(0, k + 1)),
{
    let head = lines.subrange(0, k + 1);
    assert(head.drop_last() =~= lines.subrange(0, k));
    crate::lexer::lemma_tokenize_abort(lines, k + 1);
}

/// Lexing depends on the text of the lines alone: two runs on the same text
/// give the same tokens, or the same error.
pub proof fn lemma_lex_deterministic(a: Seq<Seq<char>>, b: Seq<Seq<char>>)
    requires
        a == b,
    ensures
        lex(a) == lex(b),
{
}

/// Removing the comment of a line a second time changes nothing.
pub proof fn lemma_strip_comment_idempotent(s: Seq<char>)
    ensures
        strip_comment(strip_comment(s)) == strip_comment(s),
{
    lemma_comment_from(s, 0);
    if let Some(i) = comment_from(s, 0) {
        let h = s.subrange(0, i);
        let (a, b) = lemma_trim(h);
        let r = h.subrange(a, b);
        lemma_comment_from(r, 0);
        if let Some(j) = comment_from(r, 0) {
            assert(r[j] == s[a + j] && r[j + 1] == s[a + j + 1]);
            assert(is_comment_at(s, a + j));
        }
    }
}

/// A comment put after a line that holds no `//` and does not end with `/`
/// leaves the line's tokens as they were, wherever on the line it starts.
pub proof fn lemma_trailing_comment(s: Seq<char>, c: Seq<char>, line: nat)
    requires
        forall|k: int| !#[trigger] is_comment_at(s, k),
        s.len() == 0 || s.last() != '/',
    ensures
        line_tokens(s + seq!['/', '/'] + c, line) == line_tokens(s, line),
{
    let x = s + seq!['/', '/'] + c;
    let n = s.len() as int;
    assert(x[n] == '/' && x[n + 1] == '/');
    assert forall|k: int| 0 <= k < n implies x[k] == s[k] by {}
    assert(!is_ws('/'));
    let (a, b) = lemma_trim(s);
    let ts = s.subrange(a, b);
    lemma_comment_from(ts, 0);
    if let Some(j) = comment_from(ts, 0) {
        assert(ts[j] == s[a + j] && ts[j + 1] == s[a + j + 1]);
        assert(is_comment_at(s, a + j));
    }
    assert(strip_comment(trim(s)) == ts);
    let (xa, xb) = lemma_trim(x);
    assert(!is_ws(x[n]));
    assert(!is_ws(x[n + 1]));
    assert(xa <= n);
    assert(xb >= n + 2);
    let t = x.subrange(xa, xb);
    if a < b {
        assert(!is_ws(x[a]));
        assert(xa == a);
        let i = n - a;
        assert(t[i] == x[n] && t[i + 1] == x[n + 1]);
        assert(is_comment_at(t, i));
        assert forall|k: int| 0 <= k < i implies !#[trigger] is_comment_at(t, k) by {
            assert(t[k] == x[a + k]);
            assert(t[k + 1] == x[a + k + 1]);
            if a + k + 1 < n {
                assert(!is_comment_at(s, a + k));
            } else {
                assert(x[a + k] == s.last());
            }
        }
        lemma_comment_from(t, 0);
        assert(comment_from(t, 0) == Some(i));
        let z = t.subrange(0, i);
        assert(z =~= s.subrange(a, n));
        assert forall|k: int| b - a <= k < z.len() implies is_ws(#[trigger] z[k]) by {
            assert(z[k] == s[a + k]);
        }
        assert(z[0] == s[a]);
        assert(z[b - a - 1] == s[b - 1]);
        assert(trims_to(z, 0, b - a));
        lemma_trim_unique(z, 0, b - a);
        assert(z.subrange(0, b - a) =~= ts);
    } else {
        assert forall|k: int| 0 <= k < n implies is_ws(#[trigger] x[k]) by {
            assert(is_ws(s[k]));
        }
        assert(xa == n);
        assert(t[0] == '/' && t[1] == '/');
        assert(comment_from(t, 0) == Some(0int));
        let e = t.subrange(0, 0);
        assert(e =~= Seq::<char>::empty());
        assert(ts =~= Seq::<char>::empty());
        assert(trim(e) == e);
    }
    assert(strip_comment(trim(x)) == strip_comment(trim(s)));
}

/// Two files whose lines give the same tokens, line by line, lex alike.
pub proof fn lemma_lines_alike(a: Seq<Seq<char>>, b: Seq<Seq<char>>)
    requires
        a.len() == b.len(),
        forall|k: int|
            0 <= k < a.len() ==> line_tokens(#[trigger] a[k], (k + 1) as nat) == line_tokens(
                b[k],
                (k + 1) as nat,
            ),
    ensures
        tokenize_lines(a) == tokenize_lines(b),
        lex(a) == lex(b),
    decreases a.len(),
{
    if a.len() > 0 {
        let a2 = a.drop_last();
        let b2 = b.drop_last();
        assert forall|k: int| 0 <= k < a2.len() implies line_tokens(
            #[trigger] a2[k],
            (k + 1) as nat,
        ) == line_tokens(b2[k], (k + 1) as nat) by {
            assert(a2[k] == a[k] && b2[k] == b[k]);
        }
        lemma_lines_alike(a2, b2);
        assert(line_tokens(a.last(), a.len()) == line_tokens(b.last(), b.len()));
    }
}

/// A file in which line `n` carries a comment after a text that holds no `//`
/// and does not end with `/` lexes as the file with that comment removed: the
/// same tokens, slots and lines, or the same error.
pub proof fn lemma_file_comment(lines: Seq<Seq<char>>, n: int, c: Seq<char>)
    requires
        0 <= n < lines.len(),
        forall|k: int| !#[trigger] is_comment_at(lines[n], k),
        lines[n].len() == 0 || lines[n].last() != '/',
    ensures
        tokenize_lines(lines.update(n, lines[n] + seq!['/', '/'] + c)) == tokenize_lines(lines),
        lex(lines.update(n, lines[n] + seq!['/', '/'] + c)) == lex(lines),
{
    let with = lines.update(n, lines[n] + seq!['/', '/'] + c);
    lemma_trailing_comment(lines[n], c, (n + 1) as nat);
    assert forall|k: int| 0 <= k < with.len() implies line_tokens(
        #[trigger] with[k],
        (k + 1) as nat,
    ) == line_tokens(lines[k], (k + 1) as nat) by {}
    lemma_lines_alike(with, lines);
}

/// A line with no quote character and no comment is cut at its whitespace
/// alone: where all of it is recognized, its tokens are its whitespace-separated
/// pieces in order, each token's value is its piece unchanged (so joining the
/// values with single spaces gives back the line up to the amount of
/// whitespace), and they take the slots Return, Function, Argument1, Argument2
/// in turn, starting over every four.
pub proof fn lemma_plain_line_slots(text: Seq<char>, line: nat)
    requires
        forall|k: int| 0 <= k < text.len() ==> !is_quote(#[trigger] text[k]),
        forall|k: int| !#[trigger] is_comment_at(text, k),
        line_tokens(text, line) is Ok,
    ensures
        ({
            let ts = line_tokens(text, line)->Ok_0;
            let segs = segments(text);
            &&& ts.len() == segs.len()
            &&& forall|i: int|
                0 <= i < ts.len() ==> (#[trigger] ts[i]).statement_pos == position_at(i)
                    && ts[i].line == line && classify(segs[i]) == Some((ts[i].kind, ts[i].value))
                    && ts[i].value == segs[i]
        }),
{
    let (a, b) = lemma_trim(text);
    let t = text.subrange(a, b);
    lemma_comment_from(t, 0);
    if let Some(j) = comment_from(t, 0) {
        assert(t[j] == text[a + j] && t[j + 1] == text[a + j + 1]);
        assert(is_comment_at(text, a + j));
    }
    assert(strip_comment(trim(text)) == t);
    assert forall|k: int| 0 <= k < t.len() implies !is_quote(#[trigger] t[k]) by {
        assert(t[k] == text[a + k]);
    }
    lemma_protect_no_quotes(t, 0);
    assert(t.subrange(0, t.len() as int) =~= t);
    assert(preprocess(text) == trim(text));
    lemma_segments_trim(text);
    lemma_slots_cycle(segments(text), line);
    lemma_segments_open(text, 0);
}

/// Keeps the tokens of line `n`.
pub open spec fn on_line(n: nat) -> spec_fn(TokenView) -> bool {
    |t: TokenView| t.line == n
}

/// The tokens of `ts` that carry line number `n`, in order.
pub open spec fn tokens_of_line(ts: Seq<TokenView>, n: nat) -> Seq<TokenView> {
    ts.filter(on_line(n))
}

proof fn lemma_filter_uniform(ts: Seq<TokenView>, n: nat)
    ensures
        (forall|i: int| 0 <= i < ts.len() ==> (#[trigger] ts[i]).line == n) ==> tokens_of_line(
            ts,
            n,
        ) == ts,
        (forall|i: int| 0 <= i < ts.len() ==> (#[trigger] ts[i]).line != n) ==> tokens_of_line(
            ts,
            n,
        ) == Seq::<TokenView>::empty(),
    decreases ts.len(),
{
    reveal(Seq::filter);
    if ts.len() > 0 {
        lemma_filter_uniform(ts.drop_last(), n);
        assert forall|i: int| 0 <= i < ts.len() - 1 implies ts.drop_last()[i] == ts[i] by {}
        if forall|i: int| 0 <= i < ts.len() ==> (#[trigger] ts[i]).line == n {
            assert(ts.drop_last().push(ts.last()) =~= ts);
        }
    }
}

proof fn lemma_line_numbers(text: Seq<char>, n: nat)
    requires
        line_tokens(text, n) is Ok,
    ensures
        forall|i: int|
            0 <= i < line_tokens(text, n)->Ok_0.len() ==> (#[trigger] line_tokens(
                text,
                n,
            )->Ok_0[i]).line == n,
{
    lemma_slots_cycle(segments(preprocess(text)), n);
}

proof fn lemma_group_split(ts0: Seq<TokenView>, lt: Seq<TokenView>, n: nat, len: nat)
    requires
        forall|i: int| 0 <= i < ts0.len() ==> (#[trigger] ts0[i]).line < len,
        forall|i: int| 0 <= i < lt.len() ==> (#[trigger] lt[i]).line == len,
    ensures
        n < len ==> tokens_of_line(ts0 + lt, n) == tokens_of_line(ts0, n),
        n == len ==> tokens_of_line(ts0 + lt, n) == lt,
{
    Seq::filter_distributes_over_add(ts0, lt, on_line(n));
    lemma_filter_uniform(lt, n);
    lemma_filter_uniform(ts0, n);
    assert(tokens_of_line(ts0, n) + Seq::<TokenView>::empty() =~= tokens_of_line(ts0, n));
    assert(Seq::<TokenView>::empty() + lt =~= lt);
}

proof fn lemma_tokenize_step(lines: Seq<Seq<char>>)
    requires
        lines.len() > 0,
        tokenize_lines(lines) is Ok,
    ensures
        tokenize_lines(lines.drop_last()) is Ok,
        line_tokens(lines.last(), lines.len()) is Ok,
        tokenize_lines(lines)->Ok_0 == tokenize_lines(lines.drop_last())->Ok_0 + line_tokens(
            lines.last(),
            lines.len(),
        )->Ok_0,
{
}

/// Every token of a file carries the number of one of its lines.
proof fn lemma_file_line_bound(lines: Seq<Seq<char>>)
    requires
        tokenize_lines(lines) is Ok,
    ensures
        forall|i: int|
            0 <= i < tokenize_lines(lines)->Ok_0.len() ==> 1 <= (#[trigger] tokenize_lines(
                lines,
            )->Ok_0[i]).line <= lines.len(),
    decreases lines.len(),
{
    if lines.len() > 0 {
        let len = lines.len();
        lemma_tokenize_step(lines);
        lemma_file_line_bound(lines.drop_last());
        let ts0 = tokenize_lines(lines.drop_last())->Ok_0;
        let lt = line_tokens(lines.last(), len)->Ok_0;
        let ts = tokenize_lines(lines)->Ok_0;
        lemma_line_numbers(lines.last(), len);
        assert forall|i: int| 0 <= i < ts.len() implies 1 <= (#[trigger] ts[i]).line <= len by {
            if i >= ts0.len() {
                assert(ts[i] == lt[i - ts0.len()]);
            } else {
                assert(ts[i] == ts0[i]);
            }
        }
    }
}

/// The tokens of a file that carry line number `n` are those of line `n` alone.
pub proof fn lemma_file_line(lines: Seq<Seq<char>>, n: int)
    requires
        tokenize_lines(lines) is Ok,
        1 <= n <= lines.len(),
    ensures
        line_tokens(lines[n - 1], n as nat) is Ok,
        tokens_of_line(tokenize_lines(lines)->Ok_0, n as nat) == line_tokens(
            lines[n - 1],
            n as nat,
        )->Ok_0,
    decreases lines.len(),
{
    let len = lines.len();
    let head = lines.drop_last();
    lemma_tokenize_step(lines);
    lemma_file_line_bound(head);
    let ts0 = tokenize_lines(head)->Ok_0;
    let lt = line_tokens(lines.last(), len)->Ok_0;
    lemma_line_numbers(lines.last(), len);
    assert forall|i: int| 0 <= i < ts0.len() implies (#[trigger] ts0[i]).line < len by {}
    lemma_group_split(ts0, lt, n as nat, len);
    if n < len {
        lemma_file_line(head, n);
        assert(lines[n - 1] == head[n - 1]);
    }
}

/// Over a whole file: the tokens that carry line number `n` are exactly those
/// of line `n` on its own, and the `k`-th of them takes slot `position_at(k)`,
/// so every line starts over at Return whatever slot the line before ended on.
pub proof fn lemma_file_slots(lines: Seq<Seq<char>>)
    requires
        tokenize_lines(lines) is Ok,
    ensures
        ({
            let ts = tokenize_lines(lines)->Ok_0;
            forall|n: int, k: int|
                1 <= n <= lines.len() && 0 <= k < tokens_of_line(ts, n as nat).len() ==> (
                #[trigger] tokens_of_line(ts, n as nat)[k]).statement_pos == position_at(k)
        }),
{
    let ts = tokenize_lines(lines)->Ok_0;
    assert forall|n: int, k: int|
        1 <= n <= lines.len() && 0 <= k < tokens_of_line(ts, n as nat).len() implies (
        #[trigger] tokens_of_line(ts, n as nat)[k]).statement_pos == position_at(k) by {
        lemma_file_line(lines, n);
        lemma_slots_cycle(segments(preprocess(lines[n - 1])), n as nat);
    }
}

} // verus!
