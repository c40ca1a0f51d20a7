//! Line preprocessing: trimming, comment removal, protection of spaces inside
//! quoted literals, and splitting into whitespace-separated segments.
use vstd::prelude::*;

verus! {

/// Stands for a space inside a quoted literal while a line is split.
pub const PLACEHOLDER: char = '\x07';

/// Unicode `White_Space`: the characters that separate segments and that trimming removes.
pub open spec fn is_ws(c: char) -> bool {
    let u = c as u32;
    (0x9 <= u && u <= 0xd) || u == 0x20 || u == 0x85 || u == 0xa0 || u == 0x1680 || (0x2000 <= u
        && u <= 0x200a) || u == 0x2028 || u == 0x2029 || u == 0x202f || u == 0x205f || u == 0x3000
}

pub open spec fn trim_start(s: Seq<char>) -> Seq<char>
    decreases s.len(),
{
    if s.len() > 0 && is_ws(s[0]) {
        trim_start(s.drop_first())
    } else {
        s
    }
}

pub open spec fn trim_end(s: Seq<char>) -> Seq<char>
    decreases s.len(),
{
    if s.len() > 0 && is_ws(s.last()) {
        trim_end(s.drop_last())
    } else {
        s
    }
}

/// `s` without its leading and trailing whitespace.
pub open spec fn trim(s: Seq<char>) -> Seq<char> {
    trim_end(trim_start(s))
}

/// The first index at or after `i` where `//` starts, if any.
pub open spec fn comment_from(s: Seq<char>, i: int) -> Option<int>
    decreases s.len() - i,
{
    if i < 0 || i + 1 >= s.len() {
        None
    } else if s[i] == '/' && s[i + 1] == '/' {
        Some(i)
    } else {
        comment_from(s, i + 1)
    }
}

/// Everything from the first `//` on is removed, and what is left trimmed;
/// a line without `//` is unchanged.
pub open spec fn strip_comment(s: Seq<char>) -> Seq<char> {
    match comment_from(s, 0) {
        Some(i) => trim(s.subrange(0, i)),
        None => s,
    }
}

/// A `//` starts at index `k`.
pub open spec fn is_comment_at(s: Seq<char>, k: int) -> bool {
    0 <= k && k + 1 < s.len() && s[k] == '/' && s[k + 1] == '/'
}

pub proof fn lemma_comment_from(s: Seq<char>, j: int)
    requires
        0 <= j,
    ensures
        match comment_from(s, j) {
            None => forall|k: int| j <= k ==> !#[trigger] is_comment_at(s, k),
            Some(i) => j <= i && is_comment_at(s, i) && forall|k: int|
                j <= k < i ==> !#[trigger] is_comment_at(s, k),
        },
    decreases s.len() - j,
{
    if j + 1 < s.len() && !(s[j] == '/' && s[j + 1] == '/') {
        lemma_comment_from(s, j + 1);
    }
}

pub proof fn lemma_trim_start(x: Seq<char>) -> (a: int)
    ensures
        0 <= a <= x.len(),
        trim_start(x) == x.subrange(a, x.len() as int),
        forall|k: int| 0 <= k < a ==> is_ws(#[trigger] x[k]),
        a < x.len() ==> !is_ws(x[a]),
    decreases x.len(),
{
    if x.len() > 0 && is_ws(x[0]) {
        let a0 = lemma_trim_start(x.drop_first());
        assert(x.drop_first().subrange(a0, x.len() - 1) =~= x.subrange(a0 + 1, x.len() as int));
        assert forall|k: int| 0 <= k < a0 + 1 implies is_ws(#[trigger] x[k]) by {
            if k > 0 {
                assert(x[k] == x.drop_first()[k - 1]);
            }
        }
        a0 + 1
    } else {
        assert(x.subrange(0, x.len() as int) =~= x);
        0
    }
}

pub proof fn lemma_trim_end(y: Seq<char>) -> (b: int)
    ensures
        0 <= b <= y.len(),
        trim_end(y) == y.subrange(0, b),
        forall|k: int| b <= k < y.len() ==> is_ws(#[trigger] y[k]),
        b > 0 ==> !is_ws(y[b - 1]),
    decreases y.len(),
{
    if y.len() > 0 && is_ws(y.last()) {
        let b0 = lemma_trim_end(y.drop_last());
        assert(y.drop_last().subrange(0, b0) =~= y.subrange(0, b0));
        assert forall|k: int| b0 <= k < y.len() implies is_ws(#[trigger] y[k]) by {
            if k < y.len() - 1 {
                assert(y[k] == y.drop_last()[k]);
            }
        }
        b0
    } else {
        assert(y.subrange(0, y.len() as int) =~= y);
        y.len() as int
    }
}

/// `x[a..b]` is what trimming leaves: whitespace only outside it, none at its ends.
pub open spec fn trims_to(x: Seq<char>, a: int, b: int) -> bool {
    &&& 0 <= a <= b <= x.len()
    &&& forall|k: int| 0 <= k < a ==> is_ws(#[trigger] x[k])
    &&& forall|k: int| b <= k < x.len() ==> is_ws(#[trigger] x[k])
    &&& a < b ==> !is_ws(x[a]) && !is_ws(x[b - 1])
}

pub proof fn lemma_trim(x: Seq<char>) -> (ab: (int, int))
    ensures
        trims_to(x, ab.0, ab.1),
        trim(x) == x.subrange(ab.0, ab.1),
{
    let a = lemma_trim_start(x);
    let y = x.subrange(a, x.len() as int);
    let b0 = lemma_trim_end(y);
    assert(y.subrange(0, b0) =~= x.subrange(a, a + b0));
    assert forall|k: int| a + b0 <= k < x.len() implies is_ws(#[trigger] x[k]) by {
        assert(x[k] == y[k - a]);
    }
    if b0 > 0 {
        assert(x[a + b0 - 1] == y[b0 - 1]);
    }
    (a, a + b0)
}

/// Trimming leaves exactly the piece that `trims_to` describes.
pub proof fn lemma_trim_unique(x: Seq<char>, a: int, b: int)
    requires
        trims_to(x, a, b),
    ensures
        trim(x) == x.subrange(a, b),
{
    let (a2, b2) = lemma_trim(x);
    if a < b {
        assert(!is_ws(x[a]));
        assert(!is_ws(x[b - 1]));
        assert(a2 < b2);
        assert(!is_ws(x[a2]));
        assert(!is_ws(x[b2 - 1]));
        assert(a2 == a);
        assert(b2 == b);
    } else if a2 < b2 {
        assert(!is_ws(x[a2]));
    }
    assert(x.subrange(a2, b2) =~= x.subrange(a, b));
}

pub open spec fn is_quote(c: char) -> bool {
    c == '"' || c == '\''
}

/// The greatest index below `n` that holds `c`, or -1.
pub open spec fn last_index(s: Seq<char>, c: char, n: int) -> int
    decreases n,
{
    if n <= 0 {
        -1
    } else if s[n - 1] == c {
        n - 1
    } else {
        last_index(s, c, n - 1)
    }
}

pub proof fn lemma_last_index_bound(s: Seq<char>, c: char, n: int)
    ensures
        -1 <= last_index(s, c, n) < if n > 0 { n } else { 0 },
        last_index(s, c, n) >= 0 ==> s[last_index(s, c, n)] == c,
    decreases n,
{
    if n > 0 && s[n - 1] != c {
        lemma_last_index_bound(s, c, n - 1);
    }
}

/// Each space replaced by the placeholder.
pub open spec fn mask(s: Seq<char>) -> Seq<char> {
    s.map_values(|c: char| if c == ' ' { PLACEHOLDER } else { c })
}

/// The placeholder turned back into a space.
pub open spec fn restore(s: Seq<char>) -> Seq<char> {
    s.map_values(|c: char| if c == PLACEHOLDER { ' ' } else { c })
}

/// From index `i` on: a quote that has a later copy of itself opens a span that
/// runs to the last copy on the line, and the spaces inside are masked; the scan
/// then goes on after the span.
pub open spec fn protect_from(s: Seq<char>, i: int) -> Seq<char>
    decreases s.len() - i,
{
    if i < 0 || i >= s.len() {
        Seq::empty()
    } else {
        let e = last_index(s, s[i], s.len() as int);
        if is_quote(s[i]) && e > i {
            proof {
                lemma_last_index_bound(s, s[i], s.len() as int);
            }
            mask(s.subrange(i, e + 1)) + protect_from(s, e + 1)
        } else {
            seq![s[i]] + protect_from(s, i + 1)
        }
    }
}

pub open spec fn protect(s: Seq<char>) -> Seq<char> {
    protect_from(s, 0)
}

/// A raw line as the classifier sees it.
pub open spec fn preprocess(s: Seq<char>) -> Seq<char> {
    protect(strip_comment(trim(s)))
}

/// The end of the run of non-whitespace characters that starts at `i`.
pub open spec fn run_end(s: Seq<char>, i: int) -> int
    decreases s.len() - i,
{
    if i < 0 || i >= s.len() || is_ws(s[i]) {
        i
    } else {
        run_end(s, i + 1)
    }
}

pub proof fn lemma_run_end(s: Seq<char>, i: int)
    requires
        0 <= i <= s.len(),
    ensures
        i <= run_end(s, i) <= s.len(),
        run_end(s, i) < s.len() ==> is_ws(s[run_end(s, i)]),
        forall|k: int| i <= k < run_end(s, i) ==> !is_ws(#[trigger] s[k]),
    decreases s.len() - i,
{
    if i < s.len() && !is_ws(s[i]) {
        lemma_run_end(s, i + 1);
    }
}

/// The maximal runs of non-whitespace characters at or after `i`, in order.
pub open spec fn segments_from(s: Seq<char>, i: int) -> Seq<Seq<char>>
    decreases s.len() - i,
{
    if i < 0 || i >= s.len() {
        Seq::empty()
    } else if is_ws(s[i]) {
        segments_from(s, i + 1)
    } else {
        proof {
            lemma_run_end(s, i + 1);
        }
        let e = run_end(s, i + 1);
        seq![s.subrange(i, e)] + segments_from(s, e)
    }
}

/// The segments of a line: split on runs of whitespace, empty pieces dropped.
pub open spec fn segments(s: Seq<char>) -> Seq<Seq<char>> {
    segments_from(s, 0)
}

/// Without quote characters there is nothing to protect.
pub proof fn lemma_protect_no_quotes(s: Seq<char>, i: int)
    requires
        0 <= i <= s.len(),
        forall|k: int| 0 <= k < s.len() ==> !is_quote(#[trigger] s[k]),
    ensures
        protect_from(s, i) == s.subrange(i, s.len() as int),
    decreases s.len() - i,
{
    if i < s.len() {
        lemma_protect_no_quotes(s, i + 1);
        assert(seq![s[i]] + s.subrange(i + 1, s.len() as int) =~= s.subrange(i, s.len() as int));
    }
}

/// Whitespace from `i` up to `j` adds no segment.
pub proof fn lemma_segments_skip_ws(s: Seq<char>, i: int, j: int)
    requires
        0 <= i <= j <= s.len(),
        forall|k: int| i <= k < j ==> is_ws(#[trigger] s[k]),
    ensures
        segments_from(s, i) == segments_from(s, j),
    decreases j - i,
{
    if i < j {
        lemma_segments_skip_ws(s, i + 1, j);
    }
}

pub proof fn lemma_run_end_sub(s: Seq<char>, a: int, b: int, k: int)
    requires
        0 <= a <= b <= s.len(),
        forall|m: int| b <= m < s.len() ==> is_ws(#[trigger] s[m]),
        0 <= k <= b - a,
    ensures
        run_end(s, a + k) == a + run_end(s.subrange(a, b), k),
    decreases b - a - k,
{
    let t = s.subrange(a, b);
    if k < b - a {
        assert(t[k] == s[a + k]);
        if !is_ws(t[k]) {
            lemma_run_end_sub(s, a, b, k + 1);
        }
    }
}

/// The segments of a piece of a line that has only whitespace after it are
/// those of the line from the same place.
pub proof fn lemma_segments_sub(s: Seq<char>, a: int, b: int, k: int)
    requires
        0 <= a <= b <= s.len(),
        forall|m: int| b <= m < s.len() ==> is_ws(#[trigger] s[m]),
        0 <= k <= b - a,
    ensures
        segments_from(s.subrange(a, b), k) == segments_from(s, a + k),
    decreases b - a - k,
{
    let t = s.subrange(a, b);
    if k == b - a {
        lemma_segments_skip_ws(s, b, s.len() as int);
    } else {
        assert(t[k] == s[a + k]);
        if is_ws(t[k]) {
            lemma_segments_sub(s, a, b, k + 1);
        } else {
            lemma_run_end(t, k + 1);
            lemma_run_end_sub(s, a, b, k + 1);
            let e = run_end(t, k + 1);
            assert(t.subrange(k, e) =~= s.subrange(a + k, a + e));
            lemma_segments_sub(s, a, b, e);
        }
    }
}

/// Each segment is non-empty, and where the line has no quote character none
/// opens with one.
pub proof fn lemma_segments_open(s: Seq<char>, i: int)
    requires
        0 <= i <= s.len(),
        forall|k: int| 0 <= k < s.len() ==> !is_quote(#[trigger] s[k]),
    ensures
        forall|j: int|
            0 <= j < segments_from(s, i).len() ==> (#[trigger] segments_from(s, i)[j]).len() > 0
                && !is_quote(segments_from(s, i)[j][0]),
    decreases s.len() - i,
{
    if i < s.len() {
        if is_ws(s[i]) {
            lemma_segments_open(s, i + 1);
            assert(segments_from(s, i) == segments_from(s, i + 1));
        } else {
            lemma_run_end(s, i + 1);
            let e = run_end(s, i + 1);
            lemma_segments_open(s, e);
            let rest = segments_from(s, e);
            let head = s.subrange(i, e);
            assert(segments_from(s, i) == seq![head] + rest);
            assert(head[0] == s[i]);
            assert(!is_quote(s[i]));
            assert forall|j: int| 0 <= j < segments_from(s, i).len() implies (#[trigger] segments_from(
                s,
                i,
            )[j]).len() > 0 && !is_quote(segments_from(s, i)[j][0]) by {
                if j > 0 {
                    assert(segments_from(s, i)[j] == rest[j - 1]);
                } else {
                    assert(segments_from(s, i)[j] == head);
                }
            }
        }
    }
}

/// Trimming a line changes none of its segments.
pub proof fn lemma_segments_trim(s: Seq<char>)
    ensures
        segments(trim(s)) == segments(s),
{
    let (a, b) = lemma_trim(s);
    lemma_segments_sub(s, a, b, 0);
    lemma_segments_skip_ws(s, 0, a);
}

/// Relies on String::push: appends one character at the end.
#[verifier::external_body]
fn push_char(s: &mut String, c: char)
    ensures
        final(s)@ == old(s)@.push(c),
{
    s.push(c)
}

/// The characters of a string, in order.
pub fn chars_of(s: &str) -> (r: Vec<char>)
    ensures
        r@ == s@,
{
    let mut r: Vec<char> = Vec::new();
    for c in it: s.chars()
        invariant
            r@ == it.seq().subrange(0, it.index() as int),
    {
        r.push(c);
    }
    r
}

/// The string made of the given characters.
pub fn string_of(v: &Vec<char>) -> (r: String)
    ensures
        r@ == v@,
{
    let mut r = String::new();
    let mut i: usize = 0;
    while i < v.len()
        invariant
            i <= v.len(),
            r@ == v@.subrange(0, i as int),
        decreases v.len() - i,
    {
        push_char(&mut r, v[i]);
        i = i + 1;
        assert(r@ =~= v@.subrange(0, i as int));
    }
    assert(r@ =~= v@);
    r
}

pub fn is_whitespace(c: char) -> (r: bool)
    ensures
        r == is_ws(c),
{
    let u = c as u32;
    (0x9 <= u && u <= 0xd) || u == 0x20 || u == 0x85 || u == 0xa0 || u == 0x1680 || (0x2000 <= u
        && u <= 0x200a) || u == 0x2028 || u == 0x2029 || u == 0x202f || u == 0x205f || u == 0x3000
}

/// The characters of `s` from `lo` up to `hi`.
pub fn copy_range(s: &Vec<char>, lo: usize, hi: usize) -> (r: Vec<char>)
    requires
        lo <= hi <= s.len(),
    ensures
        r@ == s@.subrange(lo as int, hi as int),
{
    let mut r: Vec<char> = Vec::new();
    let mut k = lo;
    while k < hi
        invariant
            lo <= k <= hi <= s.len(),
            r@ == s@.subrange(lo as int, k as int),
        decreases hi - k,
    {
        r.push(s[k]);
        k = k + 1;
        assert(r@ =~= s@.subrange(lo as int, k as int));
    }
    r
}

/// Each placeholder turned back into a space.
pub fn restore_chars(s: &Vec<char>) -> (r: Vec<char>)
    ensures
        r@ == restore(s@),
{
    let mut r: Vec<char> = Vec::new();
    let mut k: usize = 0;
    while k < s.len()
        invariant
            k <= s.len(),
            r@ == restore(s@.subrange(0, k as int)),
        decreases s.len() - k,
    {
        let c = s[k];
        r.push(if c == PLACEHOLDER { ' ' } else { c });
        k = k + 1;
        assert(r@ =~= restore(s@.subrange(0, k as int)));
    }
    assert(s@.subrange(0, k as int) =~= s@);
    r
}

/// `s` without leading and trailing whitespace.
pub fn trim_chars(s: &Vec<char>) -> (r: Vec<char>)
    ensures
        r@ == trim(s@),
{
    let n = s.len();
    let mut lo: usize = 0;
    assert(s@.subrange(0, n as int) =~= s@);
    while lo < n && is_whitespace(s[lo])
        invariant
            lo <= n == s.len(),
            trim_start(s@) == trim_start(s@.subrange(lo as int, n as int)),
        decreases n - lo,
    {
        assert(s@.subrange(lo as int, n as int).drop_first() =~= s@.subrange(
            lo as int + 1,
            n as int,
        ));
        lo = lo + 1;
    }
    assert(trim_start(s@) == s@.subrange(lo as int, n as int));
    let mut hi: usize = n;
    while hi > lo && is_whitespace(s[hi - 1])
        invariant
            lo <= hi <= n == s.len(),
            trim(s@) == trim_end(s@.subrange(lo as int, hi as int)),
        decreases hi,
    {
        assert(s@.subrange(lo as int, hi as int).drop_last() =~= s@.subrange(
            lo as int,
            hi as int - 1,
        ));
        hi = hi - 1;
    }
    copy_range(s, lo, hi)
}

/// The line with its comment removed.
pub fn strip_comment_chars(s: &Vec<char>) -> (r: Vec<char>)
    ensures
        r@ == strip_comment(s@),
{
    let n = s.len();
    let mut i: usize = 0;
    while n > 0 && i < n - 1
        invariant
            i <= n == s.len(),
            comment_from(s@, 0) == comment_from(s@, i as int),
        decreases n - i,
    {
        if s[i] == '/' && s[i + 1] == '/' {
            let head = copy_range(s, 0, i);
            return trim_chars(&head);
        }
        i = i + 1;
    }
    copy_range(s, 0, n)
}

/// The greatest index that holds `c`, if any.
fn last_index_of(s: &Vec<char>, c: char) -> (r: Option<usize>)
    ensures
        match r {
            Some(k) => k as int == last_index(s@, c, s.len() as int),
            None => last_index(s@, c, s.len() as int) == -1,
        },
{
    let mut k = s.len();
    while k > 0
        invariant
            k <= s.len(),
            last_index(s@, c, s.len() as int) == last_index(s@, c, k as int),
        decreases k,
    {
        if s[k - 1] == c {
            return Some(k - 1);
        }
        k = k - 1;
    }
    None
}

/// Spaces inside quoted spans replaced by the placeholder.
pub fn protect_chars(s: &Vec<char>) -> (r: Vec<char>)
    ensures
        r@ == protect(s@),
{
    let n = s.len();
    let mut out: Vec<char> = Vec::new();
    let mut i: usize = 0;
    while i < n
        invariant
            i <= n == s.len(),
            protect(s@) == out@ + protect_from(s@, i as int),
        decreases n - i,
    {
        let c = s[i];
        let mut span_end: usize = i;
        if c == '"' || c == '\'' {
            if let Some(e) = last_index_of(s, c) {
                span_end = e;
            }
        }
        proof {
            lemma_last_index_bound(s@, c, n as int);
        }
        if span_end > i {
            let ghost before = out@;
            let mut k = i;
            while k <= span_end
                invariant
                    i <= k <= span_end + 1,
                    span_end < n == s.len(),
                    out@ == before + mask(s@.subrange(i as int, k as int)),
                decreases span_end + 1 - k,
            {
                let d = s[k];
                out.push(if d == ' ' { PLACEHOLDER } else { d });
                k = k + 1;
                assert(mask(s@.subrange(i as int, k as int)) =~= mask(
                    s@.subrange(i as int, k as int - 1),
                ).push(if d == ' ' { PLACEHOLDER } else { d }));
            }
            assert(protect_from(s@, i as int) == mask(s@.subrange(i as int, span_end + 1))
                + protect_from(s@, span_end + 1));
            assert(protect(s@) == out@ + protect_from(s@, k as int)) by {
                assert(out@ + protect_from(s@, k as int) =~= before + (mask(
                    s@.subrange(i as int, k as int),
                ) + protect_from(s@, k as int)));
            }
            i = k;
        } else {
            out.push(c);
            assert(protect_from(s@, i as int) == seq![c] + protect_from(s@, i + 1));
            assert(out@ + protect_from(s@, i + 1) =~= (out@.drop_last() + seq![c])
                + protect_from(s@, i + 1));
            i = i + 1;
        }
    }
    assert(out@ + protect_from(s@, i as int) =~= out@);
    out
}

/// The contents of each vector.
pub open spec fn rows(v: Seq<Vec<char>>) -> Seq<Seq<char>> {
    v.map_values(|x: Vec<char>| x@)
}

/// The segments of a line, in order.
pub fn split_segments(s: &Vec<char>) -> (r: Vec<Vec<char>>)
    ensures
        rows(r@) == segments(s@),
{
    let n = s.len();
    let mut out: Vec<Vec<char>> = Vec::new();
    let mut i: usize = 0;
    while i < n
        invariant
            i <= n == s.len(),
            segments(s@) == rows(out@) + segments_from(s@, i as int),
        decreases n - i,
    {
        if is_whitespace(s[i]) {
            i = i + 1;
        } else {
            let mut e = i + 1;
            proof {
                lemma_run_end(s@, i + 1);
            }
            while e < n && !is_whitespace(s[e])
                invariant
                    i < e <= n == s.len(),
                    run_end(s@, i as int + 1) == run_end(s@, e as int),
                decreases n - e,
            {
                e = e + 1;
            }
            let seg = copy_range(s, i, e);
            let ghost before = rows(out@);
            let ghost seg_view = seg@;
            out.push(seg);
            assert(rows(out@) =~= before.push(seg_view));
            assert(before + segments_from(s@, i as int) =~= rows(out@) + segments_from(
                s@,
                e as int,
            ));
            i = e;
        }
    }
    assert(rows(out@) + segments_from(s@, i as int) =~= rows(out@));
    out
}

} // verus!
