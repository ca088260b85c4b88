//! Token-level grammar: whitespace and comments, identifiers, quoted
//! strings, numbers, booleans and fixed keywords.
//!
//! Every recogniser works on the input as a slice of characters and a start
//! position, and returns the position just after what it matched. The spec
//! functions of this module state exactly which text each one accepts.
use vstd::prelude::*;

verus! {

pub open spec fn is_alpha(c: char) -> bool {
    ('a' <= c && c <= 'z') || ('A' <= c && c <= 'Z')
}

pub open spec fn is_digit(c: char) -> bool {
    '0' <= c && c <= '9'
}

pub open spec fn is_alnum(c: char) -> bool {
    is_alpha(c) || is_digit(c)
}

/// Characters that may follow the first letter of an identifier.
pub open spec fn is_ident_char(c: char) -> bool {
    is_alnum(c) || c == '.' || c == '_'
}

pub open spec fn is_space(c: char) -> bool {
    c == ' ' || c == '\t' || c == '\r' || c == '\n'
}

/// Blanks allowed inside a line: space and tab.
pub open spec fn is_blank(c: char) -> bool {
    c == ' ' || c == '\t'
}

pub open spec fn is_number_char(c: char) -> bool {
    is_digit(c) || c == '-'
}

/// `t` occurs in `s` at position `p`.
pub open spec fn has_at(s: Seq<char>, p: int, t: Seq<char>) -> bool {
    0 <= p && p + t.len() <= s.len() && s.subrange(p, p + t.len()) == t
}

pub open spec fn tag_end(s: Seq<char>, p: int, t: Seq<char>) -> Option<int> {
    if has_at(s, p, t) {
        Some(p + t.len())
    } else {
        None
    }
}

pub fn tag(s: &Vec<char>, p: usize, t: &str) -> (r: Option<usize>)
    requires
        p <= s@.len(),
    ensures
        r matches Some(e) ==> e <= s@.len(),
        opt_int(r) == tag_end(s@, p as int, t@),
{
    let n = t.unicode_len();
    if n > s.len() - p {
        return None;
    }
    let mut i: usize = 0;
    while i < n
        invariant
            n == t@.len(),
            p + n <= s.len(),
            i <= n,
            forall|j: int| 0 <= j < i ==> s@[p + j] == t@[j],
        decreases n - i,
    {
        if s[p + i] != t.get_char(i) {
            assert(s@.subrange(p as int, p + n)[i as int] != t@[i as int]);
            return None;
        }
        i = i + 1;
    }
    assert(s@.subrange(p as int, p + n) =~= t@);
    Some(p + n)
}

/// The end position of a parse result, as a mathematical integer.
pub open spec fn opt_int(r: Option<usize>) -> Option<int> {
    match r {
        Some(e) => Some(e as int),
        None => None,
    }
}


/// The character classes that the grammar scans maximal runs of.
pub enum CharClass {
    Alnum,
    Ident,
    Number,
    Blank,
    NotNewline,
    NotSemicolon,
}

pub open spec fn in_class(k: CharClass, c: char) -> bool {
    match k {
        CharClass::Alnum => is_alnum(c),
        CharClass::Ident => is_ident_char(c),
        CharClass::Number => is_number_char(c),
        CharClass::Blank => is_blank(c),
        CharClass::NotNewline => c != '\r' && c != '\n',
        CharClass::NotSemicolon => c != ';',
    }
}

/// End of the longest run of characters of class `k` that starts at `p`.
pub open spec fn run_end(s: Seq<char>, p: int, k: CharClass) -> int
    decreases s.len() - p,
{
    if 0 <= p < s.len() && in_class(k, s[p]) {
        run_end(s, p + 1, k)
    } else {
        p
    }
}

fn class_has(k: &CharClass, c: char) -> (r: bool)
    ensures
        r == in_class(*k, c),
{
    match k {
        CharClass::Alnum => ('a' <= c && c <= 'z') || ('A' <= c && c <= 'Z') || ('0' <= c && c
            <= '9'),
        CharClass::Ident => ('a' <= c && c <= 'z') || ('A' <= c && c <= 'Z') || ('0' <= c && c
            <= '9') || c == '.' || c == '_',
        CharClass::Number => ('0' <= c && c <= '9') || c == '-',
        CharClass::Blank => c == ' ' || c == '\t',
        CharClass::NotNewline => c != '\r' && c != '\n',
        CharClass::NotSemicolon => c != ';',
    }
}

pub fn run(s: &Vec<char>, p: usize, k: CharClass) -> (r: usize)
    requires
        p <= s@.len(),
    ensures
        p <= r <= s@.len(),
        r == run_end(s@, p as int, k),
{
    let mut i = p;
    while i < s.len() && class_has(&k, s[i])
        invariant
            p <= i <= s@.len(),
            run_end(s@, i as int, k) == run_end(s@, p as int, k),
        decreases s@.len() - i,
    {
        i = i + 1;
    }
    i
}

/// Position of the first `*/` at or after `p`.
pub open spec fn comment_close(s: Seq<char>, p: int) -> Option<int>
    decreases s.len() - p,
{
    if p < 0 || p + 1 >= s.len() {
        None
    } else if s[p] == '*' && s[p + 1] == '/' {
        Some(p)
    } else {
        comment_close(s, p + 1)
    }
}

/// End of one whitespace item at `p`: a line comment, a block comment or a
/// whitespace character.
pub open spec fn ws_item_end(s: Seq<char>, p: int) -> Option<int> {
    if 0 <= p && p + 1 < s.len() && s[p] == '/' && s[p + 1] == '/' {
        Some(run_end(s, p + 2, CharClass::NotNewline))
    } else if 0 <= p && p + 1 < s.len() && s[p] == '/' && s[p + 1] == '*' {
        match comment_close(s, p + 2) {
            Some(q) => Some(q + 2),
            None => None,
        }
    } else if 0 <= p < s.len() && is_space(s[p]) {
        Some(p + 1)
    } else {
        None
    }
}

/// End of the longest sequence of whitespace and comments at `p`.
pub open spec fn ws_end(s: Seq<char>, p: int) -> int
    decreases s.len() - p,
{
    match ws_item_end(s, p) {
        Some(e) => if p < e <= s.len() {
            ws_end(s, e)
        } else {
            p
        },
        None => p,
    }
}

fn comment_close_at(s: &Vec<char>, p: usize) -> (r: Option<usize>)
    requires
        p <= s@.len(),
    ensures
        opt_int(r) == comment_close(s@, p as int),
        r matches Some(q) ==> p <= q && q + 2 <= s@.len(),
{
    let mut i = p;
    while s.len() - i >= 2
        invariant
            p <= i <= s@.len(),
            comment_close(s@, i as int) == comment_close(s@, p as int),
        decreases s@.len() - i,
    {
        if s[i] == '*' && s[i + 1] == '/' {
            return Some(i);
        }
        i = i + 1;
    }
    None
}

fn ws_item(s: &Vec<char>, p: usize) -> (r: Option<usize>)
    requires
        p <= s@.len(),
    ensures
        opt_int(r) == ws_item_end(s@, p as int),
        r matches Some(e) ==> e <= s@.len(),
{
    if s.len() - p >= 2 && s[p] == '/' && s[p + 1] == '/' {
        Some(run(s, p + 2, CharClass::NotNewline))
    } else if s.len() - p >= 2 && s[p] == '/' && s[p + 1] == '*' {
        match comment_close_at(s, p + 2) {
            Some(q) => Some(q + 2),
            None => None,
        }
    } else if p < s.len() && (s[p] == ' ' || s[p] == '\t' || s[p] == '\r' || s[p] == '\n') {
        Some(p + 1)
    } else {
        None
    }
}

/// Skips whitespace and comments.
pub fn ws(s: &Vec<char>, p: usize) -> (r: usize)
    requires
        p <= s@.len(),
    ensures
        p <= r <= s@.len(),
        r == ws_end(s@, p as int),
{
    let mut i = p;
    loop
        invariant
            p <= i <= s@.len(),
            ws_end(s@, i as int) == ws_end(s@, p as int),
        decreases s@.len() - i,
    {
        match ws_item(s, i) {
            Some(e) => {
                if i < e {
                    i = e;
                } else {
                    return i;
                }
            },
            None => {
                return i;
            },
        }
    }
}

/// A keyword or punctuation `t` with whitespace skipped on both sides.
pub open spec fn wtag_end(s: Seq<char>, p: int, t: Seq<char>) -> Option<int> {
    match tag_end(s, ws_end(s, p), t) {
        Some(e) => Some(ws_end(s, e)),
        None => None,
    }
}

pub fn wtag(s: &Vec<char>, p: usize, t: &str) -> (r: Option<usize>)
    requires
        p <= s@.len(),
    ensures
        r matches Some(e) ==> p <= e <= s@.len(),
        opt_int(r) == wtag_end(s@, p as int, t@),
{
    let q = ws(s, p);
    match tag(s, q, t) {
        Some(e) => Some(ws(s, e)),
        None => None,
    }
}

/// An identifier: a letter, then letters, digits, `.` and `_`.
pub open spec fn ident_end(s: Seq<char>, p: int) -> Option<int> {
    if 0 <= p < s.len() && is_alpha(s[p]) {
        Some(run_end(s, p + 1, CharClass::Ident))
    } else {
        None
    }
}

pub fn identifier(s: &Vec<char>, p: usize) -> (r: Option<usize>)
    requires
        p <= s@.len(),
    ensures
        r matches Some(e) ==> p < e <= s@.len(),
        opt_int(r) == ident_end(s@, p as int),
{
    if p < s.len() && (('a' <= s[p] && s[p] <= 'z') || ('A' <= s[p] && s[p] <= 'Z')) {
        Some(run(s, p + 1, CharClass::Ident))
    } else {
        None
    }
}

/// One or more ASCII letters and digits.
pub open spec fn alnum_end(s: Seq<char>, p: int) -> Option<int> {
    let e = run_end(s, p, CharClass::Alnum);
    if e > p {
        Some(e)
    } else {
        None
    }
}

pub fn alnum1(s: &Vec<char>, p: usize) -> (r: Option<usize>)
    requires
        p <= s@.len(),
    ensures
        r matches Some(e) ==> p < e <= s@.len(),
        opt_int(r) == alnum_end(s@, p as int),
{
    let e = run(s, p, CharClass::Alnum);
    if e > p {
        Some(e)
    } else {
        None
    }
}

/// Characters that may follow a backslash inside a quoted string.
pub open spec fn is_escapable(c: char) -> bool {
    c == '"' || c == '\n' || c == '\r'
}

/// End of the body of a quoted string that starts at `i`: the position of
/// the closing quote, or the end of the input; `None` on a bad escape.
pub open spec fn str_body_end(s: Seq<char>, i: int) -> Option<int>
    decreases s.len() - i,
{
    if i < 0 || i >= s.len() || s[i] == '"' {
        Some(i)
    } else if s[i] == '\\' {
        if i + 1 < s.len() && is_escapable(s[i + 1]) {
            str_body_end(s, i + 2)
        } else {
            None
        }
    } else {
        str_body_end(s, i + 1)
    }
}

/// A double-quoted string with a non-empty body; the end is after the
/// closing quote.
pub open spec fn str_end(s: Seq<char>, p: int) -> Option<int> {
    if 0 <= p < s.len() && s[p] == '"' {
        match str_body_end(s, p + 1) {
            Some(b) => if p + 1 < b < s.len() && s[b] == '"' {
                Some(b + 1)
            } else {
                None
            },
            None => None,
        }
    } else {
        None
    }
}

pub fn quoted(s: &Vec<char>, p: usize) -> (r: Option<usize>)
    requires
        p <= s@.len(),
    ensures
        r matches Some(e) ==> p + 2 < e <= s@.len(),
        opt_int(r) == str_end(s@, p as int),
{
    if !(p < s.len() && s[p] == '"') {
        return None;
    }
    let mut i = p + 1;
    while i < s.len() && s[i] != '"'
        invariant
            p < i <= s@.len(),
            str_body_end(s@, i as int) == str_body_end(s@, p + 1),
        decreases s@.len() - i,
    {
        if s[i] == '\\' {
            if i + 1 < s.len() && (s[i + 1] == '"' || s[i + 1] == '\n' || s[i + 1] == '\r') {
                i = i + 2;
            } else {
                return None;
            }
        } else {
            i = i + 1;
        }
    }
    if p + 1 < i && i < s.len() {
        Some(i + 1)
    } else {
        None
    }
}

pub open spec fn all_digits(d: Seq<char>) -> bool {
    d.len() > 0 && forall|i: int| 0 <= i < d.len() ==> is_digit(#[trigger] d[i])
}

pub open spec fn digits_value(d: Seq<char>) -> int
    decreases d.len(),
{
    if d.len() == 0 {
        0
    } else {
        digits_value(d.drop_last()) * 10 + (d.last() as int - '0' as int)
    }
}

/// The integer that decimal text `t` denotes, with an optional leading `-`.
pub open spec fn int_of(t: Seq<char>) -> Option<int> {
    if all_digits(t) {
        Some(digits_value(t))
    } else if t.len() > 1 && t[0] == '-' && all_digits(t.drop_first()) {
        Some(-digits_value(t.drop_first()))
    } else {
        None
    }
}

/// A number: the longest run of digits and `-`, which must denote an `i32`.
pub open spec fn number_spec(s: Seq<char>, p: int) -> Option<(int, int)> {
    let e = run_end(s, p, CharClass::Number);
    if e > p {
        match int_of(s.subrange(p, e)) {
            Some(v) => if i32::MIN <= v <= i32::MAX {
                Some((v, e))
            } else {
                None
            },
            None => None,
        }
    } else {
        None
    }
}

pub open spec fn num_result(r: Option<(i32, usize)>) -> Option<(int, int)> {
    match r {
        Some((v, e)) => Some((v as int, e as int)),
        None => None,
    }
}

pub fn number(s: &Vec<char>, p: usize) -> (r: Option<(i32, usize)>)
    requires
        p <= s@.len(),
    ensures
        r matches Some((v, e)) ==> p < e <= s@.len(),
        num_result(r) == number_spec(s@, p as int),
{
    let e = run(s, p, CharClass::Number);
    if e == p {
        return None;
    }
    let ghost t = s@.subrange(p as int, e as int);
    let neg = s[p] == '-';
    let start: usize = if neg { p + 1 } else { p };
    if start == e {
        return None;
    }
    let ghost d = s@.subrange(start as int, e as int);
    assert(neg ==> d =~= t.drop_first());
    assert(!neg ==> d =~= t);
    let mut v: u64 = 0;
    let mut i = start;
    while i < e
        invariant
            start <= i <= e <= s@.len(),
            p < e,
            e == run_end(s@, p as int, CharClass::Number),
            t == s@.subrange(p as int, e as int),
            neg == (s@[p as int] == '-'),
            neg ==> d == t.drop_first(),
            !neg ==> d == t,
            d == s@.subrange(start as int, e as int),
            forall|j: int| start <= j < i ==> is_digit(#[trigger] s@[j]),
            v <= 2147483648 ==> v == digits_value(s@.subrange(start as int, i as int)),
            v > 2147483648 ==> digits_value(s@.subrange(start as int, i as int)) > 2147483648,
            v <= 2147483649,
        decreases e - i,
    {
        let c = s[i];
        if !('0' <= c && c <= '9') {
            assert(d[i - start] == c);
            assert(t[0] == s@[p as int]);
            assert(!all_digits(d));
            return None;
        }
        let ghost pre = s@.subrange(start as int, i as int);
        assert(s@.subrange(start as int, i + 1).drop_last() =~= pre);
        if v <= 2147483648 {
            v = v * 10 + (c as u64 - '0' as u64);
            if v > 2147483648 {
                v = 2147483649;
            }
        }
        i = i + 1;
    }
    assert(s@.subrange(start as int, i as int) =~= d);
    assert(all_digits(d));
    assert(t[0] == s@[p as int]);
    assert(neg ==> !is_digit(t[0]));
    if neg {
        if v > 2147483648 {
            None
        } else {
            Some(((0 - v as i64) as i32, e))
        }
    } else {
        if v > 2147483647 {
            None
        } else {
            Some((v as i32, e))
        }
    }
}

pub open spec fn bool_end(s: Seq<char>, p: int) -> Option<int> {
    match tag_end(s, p, "true"@) {
        Some(e) => Some(e),
        None => tag_end(s, p, "false"@),
    }
}

/// `true` or `false`.
pub fn boolean(s: &Vec<char>, p: usize) -> (r: Option<(bool, usize)>)
    requires
        p <= s@.len(),
    ensures
        r matches Some((b, e)) ==> p < e <= s@.len() && b == (tag_end(s@, p as int, "true"@) is Some),
        opt_int(
            match r {
                Some((b, e)) => Some(e),
                None => None,
            },
        ) == bool_end(s@, p as int),
{
    proof {
        reveal_strlit("true");
        reveal_strlit("false");
    }
    match tag(s, p, "true") {
        Some(e) => Some((true, e)),
        None => match tag(s, p, "false") {
            Some(e) => Some((false, e)),
            None => None,
        },
    }
}


pub proof fn lemma_run_end(s: Seq<char>, p: int, k: CharClass)
    requires
        0 <= p <= s.len(),
    ensures
        p <= run_end(s, p, k) <= s.len(),
    decreases s.len() - p,
{
    if p < s.len() && in_class(k, s[p]) {
        lemma_run_end(s, p + 1, k);
    }
}

pub proof fn lemma_ws_end(s: Seq<char>, p: int)
    requires
        0 <= p <= s.len(),
    ensures
        p <= ws_end(s, p) <= s.len(),
    decreases s.len() - p,
{
    if let Some(e) = ws_item_end(s, p) {
        if p < e <= s.len() {
            lemma_ws_end(s, e);
        }
    }
}

pub proof fn lemma_wtag_end(s: Seq<char>, p: int, t: Seq<char>)
    requires
        0 <= p <= s.len(),
    ensures
        wtag_end(s, p, t) matches Some(e) ==> p <= e <= s.len(),
{
    lemma_ws_end(s, p);
    if let Some(e) = tag_end(s, ws_end(s, p), t) {
        lemma_ws_end(s, e);
    }
}

pub proof fn lemma_wident_end(s: Seq<char>, p: int)
    requires
        0 <= p <= s.len(),
    ensures
        wident_end(s, p) matches Some(e) ==> p < e <= s.len(),
{
    lemma_ws_end(s, p);
    let q = ws_end(s, p);
    if let Some(e) = ident_end(s, q) {
        lemma_run_end(s, q + 1, CharClass::Ident);
        lemma_ws_end(s, e);
    }
}

pub proof fn lemma_walnum_end(s: Seq<char>, p: int)
    requires
        0 <= p <= s.len(),
    ensures
        walnum_end(s, p) matches Some(e) ==> p < e <= s.len(),
{
    lemma_ws_end(s, p);
    let q = ws_end(s, p);
    lemma_run_end(s, q, CharClass::Alnum);
    if let Some(e) = alnum_end(s, q) {
        lemma_ws_end(s, e);
    }
}

/// `ws_end`, then `f`, then `ws_end` again: the token `f` with whitespace
/// skipped on both sides.
pub open spec fn wrap_ws(s: Seq<char>, p: int, r: Option<int>) -> Option<int> {
    match r {
        Some(e) => Some(ws_end(s, e)),
        None => None,
    }
}

pub open spec fn wident_end(s: Seq<char>, p: int) -> Option<int> {
    wrap_ws(s, p, ident_end(s, ws_end(s, p)))
}

pub open spec fn walnum_end(s: Seq<char>, p: int) -> Option<int> {
    wrap_ws(s, p, alnum_end(s, ws_end(s, p)))
}

pub open spec fn wstr_end(s: Seq<char>, p: int) -> Option<int> {
    wrap_ws(s, p, str_end(s, ws_end(s, p)))
}

pub open spec fn num_end(s: Seq<char>, p: int) -> Option<int> {
    match number_spec(s, p) {
        Some((v, e)) => Some(e),
        None => None,
    }
}

pub open spec fn wnum_end(s: Seq<char>, p: int) -> Option<int> {
    wrap_ws(s, p, num_end(s, ws_end(s, p)))
}

/// The span of a token matched with whitespace around it: its first
/// position, its end, and the position after the whitespace that follows.
pub open spec fn span_ok(s: Seq<char>, p: int, r: Option<(usize, usize, usize)>, tok: Option<int>) -> bool {
    match r {
        Some((a, b, e)) => a == ws_end(s, p) && tok == Some(b as int) && e == ws_end(s, b as int)
            && p <= a < b <= e <= s.len(),
        None => tok is None,
    }
}

pub fn wident(s: &Vec<char>, p: usize) -> (r: Option<(usize, usize, usize)>)
    requires
        p <= s@.len(),
    ensures
        span_ok(s@, p as int, r, ident_end(s@, ws_end(s@, p as int))),
{
    let a = ws(s, p);
    match identifier(s, a) {
        Some(b) => Some((a, b, ws(s, b))),
        None => None,
    }
}

pub fn walnum(s: &Vec<char>, p: usize) -> (r: Option<(usize, usize, usize)>)
    requires
        p <= s@.len(),
    ensures
        span_ok(s@, p as int, r, alnum_end(s@, ws_end(s@, p as int))),
{
    let a = ws(s, p);
    match alnum1(s, a) {
        Some(b) => Some((a, b, ws(s, b))),
        None => None,
    }
}

/// A quoted string with whitespace around it; the span returned is that of
/// the text between the quotes.
pub fn wstr(s: &Vec<char>, p: usize) -> (r: Option<(usize, usize, usize)>)
    requires
        p <= s@.len(),
    ensures
        match r {
            Some((a, b, e)) => {
                &&& a == ws_end(s@, p as int) + 1
                &&& str_end(s@, a - 1) == Some(b + 1)
                &&& e == ws_end(s@, b + 1)
                &&& p < a < b < e <= s@.len()
            },
            None => str_end(s@, ws_end(s@, p as int)) is None,
        },
        opt_int(
            match r {
                Some((a, b, e)) => Some(e),
                None => None,
            },
        ) == wstr_end(s@, p as int),
{
    let a = ws(s, p);
    match quoted(s, a) {
        Some(b) => Some((a + 1, b - 1, ws(s, b))),
        None => None,
    }
}

pub fn wnumber(s: &Vec<char>, p: usize) -> (r: Option<(i32, usize)>)
    requires
        p <= s@.len(),
    ensures
        r matches Some((v, e)) ==> p < e <= s@.len(),
        opt_int(
            match r {
                Some((v, e)) => Some(e),
                None => None,
            },
        ) == wnum_end(s@, p as int),
        r matches Some((v, e)) ==> number_spec(s@, ws_end(s@, p as int)) matches Some((w, _)) && w
            == v,
{
    let a = ws(s, p);
    match number(s, a) {
        Some((v, b)) => Some((v, ws(s, b))),
        None => None,
    }
}

} // verus!
