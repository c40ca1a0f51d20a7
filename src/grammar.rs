//! The recognizers of the token classes, and the classification of a segment.
use vstd::prelude::*;
use vstd::string::*;
use crate::lexer::TRTokenKind;
use crate::text::{copy_range, restore, restore_chars};

verus! {

/// The operation keywords.
pub open spec fn keyword_lexeme(s: Seq<char>) -> bool {
    s == "copy"@ ||
    s == "add"@ ||
    s == "type"@ ||
    s == "size"@ ||
    s == "sum"@ ||
    s == "minus"@ ||
    s == "mult"@ ||
    s == "div"@ ||
    s == "mod"@ ||
    s == "land"@ ||
    s == "lor"@ ||
    s == "eq"@ ||
    s == "diff"@ ||
    s == "grt"@ ||
    s == "lst"@ ||
    s == "not"@ ||
    s == "and"@ ||
    s == "or"@ ||
    s == "xor"@ ||
    s == "end"@ ||
    s == "if"@ ||
    s == "elif"@ ||
    s == "else"@ ||
    s == "while"@ ||
    s == "arg"@ ||
    s == "ret"@ ||
    s == "return"@ ||
    s == "import"@ ||
    s == "use"@
}

/// The stack operations.
pub open spec fn stack_lexeme(s: Seq<char>) -> bool {
    s == "push"@ || s == "pop"@
}

/// The basic type names.
pub open spec fn basic_type_lexeme(s: Seq<char>) -> bool {
    s == "int"@ ||
    s == "float"@ ||
    s == "char"@ ||
    s == "struct"@ ||
    s == "array"@ ||
    s == "func"@
}

pub open spec fn is_digit(c: char) -> bool {
    '0' <= c && c <= '9'
}

pub open spec fn is_ident_start(c: char) -> bool {
    c == '_' || ('a' <= c && c <= 'z') || ('A' <= c && c <= 'Z')
}

pub open spec fn is_ident_char(c: char) -> bool {
    is_ident_start(c) || is_digit(c)
}

/// `[_a-zA-Z][_a-zA-Z0-9]*`
pub open spec fn identifier_lexeme(s: Seq<char>) -> bool {
    &&& s.len() >= 1
    &&& is_ident_start(s[0])
    &&& forall|k: int| 1 <= k < s.len() ==> is_ident_char(#[trigger] s[k])
}

/// 1 where `s` opens with a `+` or `-`, else 0.
pub open spec fn sign_len(s: Seq<char>) -> int {
    if s.len() > 0 && (s[0] == '+' || s[0] == '-') {
        1
    } else {
        0
    }
}

/// An optional sign, then either a lone `0` or a digit from 1 to 9 and any
/// further digits.
pub open spec fn integer_lexeme(s: Seq<char>) -> bool {
    let b = sign_len(s);
    (s.len() == b + 1 && s[b] == '0') || {
        &&& s.len() > b
        &&& '1' <= s[b] && s[b] <= '9'
        &&& forall|k: int| b < k < s.len() ==> is_digit(#[trigger] s[k])
    }
}

/// An optional sign, a digit from 1 to 9, any further digits, a `.`, and one or more digits.
pub open spec fn float_lexeme(s: Seq<char>) -> bool {
    let b = sign_len(s);
    exists|d: int|
        #![trigger s[d]]
        {
            &&& b < d && d + 1 < s.len()
            &&& s[d] == '.'
            &&& '1' <= s[b] && s[b] <= '9'
            &&& forall|k: int| b < k < d ==> is_digit(#[trigger] s[k])
            &&& forall|k: int| d < k < s.len() ==> is_digit(#[trigger] s[k])
        }
}

/// Framed by a single quote at both ends.
pub open spec fn char_lexeme(s: Seq<char>) -> bool {
    s.len() >= 2 && s[0] == '\'' && s.last() == '\''
}

/// Framed by a double quote at both ends.
pub open spec fn string_lexeme(s: Seq<char>) -> bool {
    s.len() >= 2 && s[0] == '"' && s.last() == '"'
}

/// One of `$`, `.`, `*`, `@`.
pub open spec fn symbol_lexeme(s: Seq<char>) -> bool {
    s.len() == 1 && (s[0] == '$' || s[0] == '.' || s[0] == '*' || s[0] == '@')
}

/// What a quoted literal holds: the frame taken off, placeholders back to spaces.
pub open spec fn literal_value(s: Seq<char>) -> Seq<char> {
    restore(s.subrange(1, s.len() - 1))
}

/// The kind and value of a segment: the first class that accepts it, in a fixed order.
pub open spec fn classify(s: Seq<char>) -> Option<(TRTokenKind, Seq<char>)> {
    if keyword_lexeme(s) {
        Some((TRTokenKind::Keyword, s))
    } else if stack_lexeme(s) {
        Some((TRTokenKind::Stack, s))
    } else if basic_type_lexeme(s) {
        Some((TRTokenKind::BasicType, s))
    } else if identifier_lexeme(s) {
        Some((TRTokenKind::Identifier, s))
    } else if integer_lexeme(s) {
        Some((TRTokenKind::Integer, s))
    } else if float_lexeme(s) {
        Some((TRTokenKind::FloatPoint, s))
    } else if char_lexeme(s) {
        Some((TRTokenKind::CharConst, literal_value(s)))
    } else if string_lexeme(s) {
        Some((TRTokenKind::StringConst, literal_value(s)))
    } else if symbol_lexeme(s) {
        Some((TRTokenKind::Symbol, s))
    } else {
        None
    }
}

/// Every keyword, stack operation and basic type name starts with a lower-case letter.
pub proof fn lemma_words_are_lowercase(s: Seq<char>)
    ensures
        keyword_lexeme(s) || stack_lexeme(s) || basic_type_lexeme(s) ==> s.len() > 0 && 'a'
            <= s[0] && s[0] <= 'z',
{
        reveal_strlit("copy");
        reveal_strlit("add");
        reveal_strlit("type");
        reveal_strlit("size");
        reveal_strlit("sum");
        reveal_strlit("minus");
        reveal_strlit("mult");
        reveal_strlit("div");
        reveal_strlit("mod");
        reveal_strlit("land");
        reveal_strlit("lor");
        reveal_strlit("eq");
        reveal_strlit("diff");
        reveal_strlit("grt");
        reveal_strlit("lst");
        reveal_strlit("not");
        reveal_strlit("and");
        reveal_strlit("or");
        reveal_strlit("xor");
        reveal_strlit("end");
        reveal_strlit("if");
        reveal_strlit("elif");
        reveal_strlit("else");
        reveal_strlit("while");
        reveal_strlit("arg");
        reveal_strlit("ret");
        reveal_strlit("return");
        reveal_strlit("import");
        reveal_strlit("use");
        reveal_strlit("push");
        reveal_strlit("pop");
        reveal_strlit("int");
        reveal_strlit("float");
        reveal_strlit("char");
        reveal_strlit("struct");
        reveal_strlit("array");
        reveal_strlit("func");
}

/// Whether `s` holds exactly the characters of `lit`.
pub fn eq_lit(s: &Vec<char>, lit: &str) -> (r: bool)
    ensures
        r == (s@ == lit@),
{
    let n = lit.unicode_len();
    if s.len() != n {
        return false;
    }
    let mut i: usize = 0;
    while i < n
        invariant
            i <= n == s.len() == lit@.len(),
            s@.subrange(0, i as int) == lit@.subrange(0, i as int),
        decreases n - i,
    {
        if s[i] != lit.get_char(i) {
            return false;
        }
        i = i + 1;
        assert(s@.subrange(0, i as int) =~= s@.subrange(0, i - 1).push(s@[i - 1]));
        assert(lit@.subrange(0, i as int) =~= lit@.subrange(0, i - 1).push(lit@[i - 1]));
    }
    assert(s@ =~= s@.subrange(0, n as int));
    assert(lit@ =~= lit@.subrange(0, n as int));
    true
}

pub fn is_keyword(s: &Vec<char>) -> (r: bool)
    ensures
        r == keyword_lexeme(s@),
{
    eq_lit(s, "copy") ||
    eq_lit(s, "add") ||
    eq_lit(s, "type") ||
    eq_lit(s, "size") ||
    eq_lit(s, "sum") ||
    eq_lit(s, "minus") ||
    eq_lit(s, "mult") ||
    eq_lit(s, "div") ||
    eq_lit(s, "mod") ||
    eq_lit(s, "land") ||
    eq_lit(s, "lor") ||
    eq_lit(s, "eq") ||
    eq_lit(s, "diff") ||
    eq_lit(s, "grt") ||
    eq_lit(s, "lst") ||
    eq_lit(s, "not") ||
    eq_lit(s, "and") ||
    eq_lit(s, "or") ||
    eq_lit(s, "xor") ||
    eq_lit(s, "end") ||
    eq_lit(s, "if") ||
    eq_lit(s, "elif") ||
    eq_lit(s, "else") ||
    eq_lit(s, "while") ||
    eq_lit(s, "arg") ||
    eq_lit(s, "ret") ||
    eq_lit(s, "return") ||
    eq_lit(s, "import") ||
    eq_lit(s, "use")
}

pub fn is_stack(s: &Vec<char>) -> (r: bool)
    ensures
        r == stack_lexeme(s@),
{
    eq_lit(s, "push") || eq_lit(s, "pop")
}

pub fn is_basic_type(s: &Vec<char>) -> (r: bool)
    ensures
        r == basic_type_lexeme(s@),
{
    eq_lit(s, "int") ||
    eq_lit(s, "float") ||
    eq_lit(s, "char") ||
    eq_lit(s, "struct") ||
    eq_lit(s, "array") ||
    eq_lit(s, "func")
}

fn digit(c: char) -> (r: bool)
    ensures
        r == is_digit(c),
{
    '0' <= c && c <= '9'
}

fn ident_start(c: char) -> (r: bool)
    ensures
        r == is_ident_start(c),
{
    c == '_' || ('a' <= c && c <= 'z') || ('A' <= c && c <= 'Z')
}

pub fn is_identifier(s: &Vec<char>) -> (r: bool)
    ensures
        r == identifier_lexeme(s@),
{
    if s.len() == 0 || !ident_start(s[0]) {
        return false;
    }
    let mut k: usize = 1;
    while k < s.len()
        invariant
            1 <= k <= s.len(),
            forall|j: int| 1 <= j < k ==> is_ident_char(#[trigger] s@[j]),
        decreases s.len() - k,
    {
        if !(ident_start(s[k]) || digit(s[k])) {
            return false;
        }
        k = k + 1;
    }
    true
}

fn sign_width(s: &Vec<char>) -> (r: usize)
    ensures
        r as int == sign_len(s@),
{
    if s.len() > 0 && (s[0] == '+' || s[0] == '-') {
        1
    } else {
        0
    }
}

/// Whether every character from `from` on is a digit.
fn digits_from(s: &Vec<char>, from: usize) -> (r: bool)
    ensures
        r == (forall|k: int| from <= k < s.len() ==> is_digit(#[trigger] s@[k])),
{
    let mut k = from;
    while k < s.len()
        invariant
            from <= k,
            forall|j: int| from <= j < k ==> is_digit(#[trigger] s@[j]),
        decreases s.len() - k,
    {
        if !digit(s[k]) {
            return false;
        }
        k = k + 1;
    }
    true
}

pub fn is_integer(s: &Vec<char>) -> (r: bool)
    ensures
        r == integer_lexeme(s@),
{
    let b = sign_width(s);
    if s.len() == b + 1 && s[b] == '0' {
        return true;
    }
    if s.len() <= b || !('1' <= s[b] && s[b] <= '9') {
        return false;
    }
    digits_from(s, b + 1)
}

pub fn is_float_point(s: &Vec<char>) -> (r: bool)
    ensures
        r == float_lexeme(s@),
{
    let b = sign_width(s);
    if s.len() <= b || !('1' <= s[b] && s[b] <= '9') {
        return false;
    }
    let mut d = b + 1;
    while d < s.len() && digit(s[d])
        invariant
            b < d <= s.len(),
            forall|k: int| b < k < d ==> is_digit(#[trigger] s@[k]),
        decreases s.len() - d,
    {
        d = d + 1;
    }
    if d < s.len() && d + 1 < s.len() && s[d] == '.' && digits_from(s, d + 1) {
        return true;
    }
    assert forall|e: int|
        b < e && e + 1 < s.len() && s@[e] == '.' implies !(forall|k: int|
        b < k < e ==> is_digit(#[trigger] s@[k])) || !(forall|k: int|
        e < k < s.len() ==> is_digit(#[trigger] s@[k])) by {
        if e < d {
            assert(is_digit(s@[e]));
        } else if e > d {
            assert(!is_digit(s@[d as int]));
        }
    }
    false
}

pub fn is_char_const(s: &Vec<char>) -> (r: bool)
    ensures
        r == char_lexeme(s@),
{
    s.len() >= 2 && s[0] == '\'' && s[s.len() - 1] == '\''
}

pub fn is_string_const(s: &Vec<char>) -> (r: bool)
    ensures
        r == string_lexeme(s@),
{
    s.len() >= 2 && s[0] == '"' && s[s.len() - 1] == '"'
}

pub fn is_symbol(s: &Vec<char>) -> (r: bool)
    ensures
        r == symbol_lexeme(s@),
{
    s.len() == 1 && (s[0] == '$' || s[0] == '.' || s[0] == '*' || s[0] == '@')
}

/// The characters inside a quoted literal, with placeholders turned back into spaces.
pub fn literal_chars(s: &Vec<char>) -> (r: Vec<char>)
    requires
        s.len() >= 2,
    ensures
        r@ == literal_value(s@),
{
    let inner = copy_range(s, 1, s.len() - 1);
    restore_chars(&inner)
}

/// The kind and value of a segment, or `None` where no class accepts it.
pub fn classify_segment(s: &Vec<char>) -> (r: Option<(TRTokenKind, Vec<char>)>)
    ensures
        match r {
            Some((k, v)) => classify(s@) == Some((k, v@)),
            None => classify(s@) is None,
        },
{
    if is_keyword(s) {
        Some((TRTokenKind::Keyword, s.clone()))
    } else if is_stack(s) {
        Some((TRTokenKind::Stack, s.clone()))
    } else if is_basic_type(s) {
        Some((TRTokenKind::BasicType, s.clone()))
    } else if is_identifier(s) {
        Some((TRTokenKind::Identifier, s.clone()))
    } else if is_integer(s) {
        Some((TRTokenKind::Integer, s.clone()))
    } else if is_float_point(s) {
        Some((TRTokenKind::FloatPoint, s.clone()))
    } else if is_char_const(s) {
        Some((TRTokenKind::CharConst, literal_chars(s)))
    } else if is_string_const(s) {
        Some((TRTokenKind::StringConst, literal_chars(s)))
    } else if is_symbol(s) {
        Some((TRTokenKind::Symbol, s.clone()))
    } else {
        None
    }
}

} // verus!
