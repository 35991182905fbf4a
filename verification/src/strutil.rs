//! Verified helpers for scanning and building strings: first-occurrence
//! search, equality, ASCII case-insensitive comparison against an upper-case
//! pattern, and decimal rendering of numbers.

use vstd::prelude::*;

verus! {

/// Index of the first occurrence of `c` in `s` at or after `from`, if any.
pub open spec fn find_from(s: Seq<char>, from: int, c: char) -> Option<int>
    decreases s.len() - from,
{
    if from < 0 || from >= s.len() {
        None
    } else if s[from] == c {
        Some(from)
    } else {
        find_from(s, from + 1, c)
    }
}

/// What `find_from` returns: the smallest index at or after `from` holding
/// `c`, or `None` when there is none.
pub proof fn lemma_find_from(s: Seq<char>, from: int, c: char)
    requires
        0 <= from <= s.len(),
    ensures
        match find_from(s, from, c) {
            Some(i) => from <= i < s.len() && s[i] == c && (forall|j: int|
                from <= j < i ==> s[j] != c),
            None => forall|j: int| from <= j < s.len() ==> s[j] != c,
        },
    decreases s.len() - from,
{
    if from < s.len() && s[from] != c {
        lemma_find_from(s, from + 1, c);
    }
}

/// When `c` does not occur in `[from, k)` and either `k` is the end of `s`
/// or `s[k] == c`, the search from `from` ends exactly at `k`.
pub proof fn lemma_find_from_exact(s: Seq<char>, from: int, k: int, c: char)
    requires
        0 <= from <= k <= s.len(),
        forall|j: int| from <= j < k ==> s[j] != c,
        k < s.len() ==> s[k] == c,
    ensures
        find_from(s, from, c) == if k == s.len() {
            None::<int>
        } else {
            Some(k)
        },
    decreases k - from,
{
    if from < k {
        lemma_find_from_exact(s, from + 1, k, c);
    }
}

/// First occurrence of `c` in `s` at or after character index `from`.
pub fn find_char(s: &str, from: usize, c: char) -> (r: Option<usize>)
    requires
        from <= s@.len(),
    ensures
        match r {
            Some(i) => from <= i < s@.len() && find_from(s@, from as int, c) == Some(i as int),
            None => find_from(s@, from as int, c) is None,
        },
{
    let len = s.unicode_len();
    let mut i = from;
    while i < len
        invariant
            from <= i <= len,
            len == s@.len(),
            find_from(s@, from as int, c) == find_from(s@, i as int, c),
        decreases len - i,
    {
        if s.get_char(i) == c {
            return Some(i);
        }
        i = i + 1;
    }
    None
}

/// Index of the first occurrence of `c1` or `c2` in `s` at or after `from`.
pub open spec fn find2_from(s: Seq<char>, from: int, c1: char, c2: char) -> Option<int>
    decreases s.len() - from,
{
    if from < 0 || from >= s.len() {
        None
    } else if s[from] == c1 || s[from] == c2 {
        Some(from)
    } else {
        find2_from(s, from + 1, c1, c2)
    }
}

/// What `find2_from` returns: the smallest index at or after `from` holding
/// `c1` or `c2`, or `None` when there is none.
pub proof fn lemma_find2_from(s: Seq<char>, from: int, c1: char, c2: char)
    requires
        0 <= from <= s.len(),
    ensures
        match find2_from(s, from, c1, c2) {
            Some(i) => from <= i < s.len() && (s[i] == c1 || s[i] == c2) && (forall|j: int|
                from <= j < i ==> s[j] != c1 && s[j] != c2),
            None => forall|j: int| from <= j < s.len() ==> s[j] != c1 && s[j] != c2,
        },
    decreases s.len() - from,
{
    if from < s.len() && s[from] != c1 && s[from] != c2 {
        lemma_find2_from(s, from + 1, c1, c2);
    }
}

/// First occurrence of `c1` or `c2` in `s` at or after character index `from`.
pub fn find_char2(s: &str, from: usize, c1: char, c2: char) -> (r: Option<usize>)
    requires
        from <= s@.len(),
    ensures
        match r {
            Some(i) => from <= i < s@.len() && find2_from(s@, from as int, c1, c2) == Some(
                i as int,
            ),
            None => find2_from(s@, from as int, c1, c2) is None,
        },
{
    let len = s.unicode_len();
    let mut i = from;
    while i < len
        invariant
            from <= i <= len,
            len == s@.len(),
            find2_from(s@, from as int, c1, c2) == find2_from(s@, i as int, c1, c2),
        decreases len - i,
    {
        let ch = s.get_char(i);
        if ch == c1 || ch == c2 {
            return Some(i);
        }
        i = i + 1;
    }
    None
}

/// A request-line token separator: ASCII space, tab, carriage return or
/// line feed.
pub open spec fn is_http_ws(c: char) -> bool {
    c == ' ' || c == '\t' || c == '\r' || c == '\n'
}

/// Whether `c` is a request-line token separator.
pub fn is_ws_char(c: char) -> (r: bool)
    ensures
        r == is_http_ws(c),
{
    c == ' ' || c == '\t' || c == '\r' || c == '\n'
}

/// Index of the first whitespace character in `s` at or after `from`, if
/// any.
pub open spec fn find_ws_from(s: Seq<char>, from: int) -> Option<int>
    decreases s.len() - from,
{
    if from < 0 || from >= s.len() {
        None
    } else if is_http_ws(s[from]) {
        Some(from)
    } else {
        find_ws_from(s, from + 1)
    }
}

/// What `find_ws_from` returns: the smallest index at or after `from`
/// holding whitespace, or `None` when there is none.
pub proof fn lemma_find_ws_from(s: Seq<char>, from: int)
    requires
        0 <= from <= s.len(),
    ensures
        match find_ws_from(s, from) {
            Some(i) => from <= i < s.len() && is_http_ws(s[i]) && (forall|j: int|
                from <= j < i ==> !is_http_ws(s[j])),
            None => forall|j: int| from <= j < s.len() ==> !is_http_ws(s[j]),
        },
    decreases s.len() - from,
{
    if from < s.len() && !is_http_ws(s[from]) {
        lemma_find_ws_from(s, from + 1);
    }
}

/// When no whitespace occurs in `[from, k)` and either `k` is the end of
/// `s` or `s[k]` is whitespace, the search from `from` ends exactly at `k`.
pub proof fn lemma_find_ws_from_exact(s: Seq<char>, from: int, k: int)
    requires
        0 <= from <= k <= s.len(),
        forall|j: int| from <= j < k ==> !is_http_ws(s[j]),
        k < s.len() ==> is_http_ws(s[k]),
    ensures
        find_ws_from(s, from) == if k == s.len() {
            None::<int>
        } else {
            Some(k)
        },
    decreases k - from,
{
    if from < k {
        lemma_find_ws_from_exact(s, from + 1, k);
    }
}

/// First whitespace character in `s` at or after character index `from`.
pub fn find_ws_char(s: &str, from: usize) -> (r: Option<usize>)
    requires
        from <= s@.len(),
    ensures
        match r {
            Some(i) => from <= i < s@.len() && find_ws_from(s@, from as int) == Some(i as int),
            None => find_ws_from(s@, from as int) is None,
        },
{
    let len = s.unicode_len();
    let mut i = from;
    while i < len
        invariant
            from <= i <= len,
            len == s@.len(),
            find_ws_from(s@, from as int) == find_ws_from(s@, i as int),
        decreases len - i,
    {
        if is_ws_char(s.get_char(i)) {
            return Some(i);
        }
        i = i + 1;
    }
    None
}

/// Character-for-character string equality.
pub fn str_eq(a: &str, b: &str) -> (r: bool)
    ensures
        r == (a@ == b@),
{
    let alen = a.unicode_len();
    let blen = b.unicode_len();
    if alen != blen {
        return false;
    }
    let mut i: usize = 0;
    while i < alen
        invariant
            i <= alen,
            alen == a@.len(),
            blen == b@.len(),
            alen == blen,
            forall|j: int| 0 <= j < i ==> a@[j] == b@[j],
        decreases alen - i,
    {
        if a.get_char(i) != b.get_char(i) {
            return false;
        }
        i = i + 1;
    }
    proof {
        assert(a@ =~= b@);
    }
    true
}

/// `a` equals the upper-case ASCII letter `b` up to case: it is `b` itself
/// or, when `a` is a lower-case ASCII letter, the letter 32 below it.
pub open spec fn char_eq_upper(a: char, b: char) -> bool {
    a == b || (97 <= a as int <= 122 && a as int == b as int + 32)
}

fn char_matches_upper(a: char, b: char) -> (r: bool)
    ensures
        r == char_eq_upper(a, b),
{
    let ai = a as u32;
    let bi = b as u32;
    a == b || (97 <= ai && ai <= 122 && ai == bi + 32)
}

/// `tok` equals the all-upper-case ASCII pattern `upper`, ignoring ASCII case.
pub open spec fn eq_ignore_ascii_case(tok: Seq<char>, upper: Seq<char>) -> bool {
    tok.len() == upper.len() && forall|i: int|
        0 <= i < tok.len() ==> char_eq_upper(tok[i], upper[i])
}

/// Compares `tok` against the all-upper-case ASCII pattern `upper`,
/// ignoring ASCII case in `tok`.
pub fn token_matches_upper(tok: &str, upper: &str) -> (r: bool)
    ensures
        r == eq_ignore_ascii_case(tok@, upper@),
{
    let tlen = tok.unicode_len();
    let ulen = upper.unicode_len();
    if tlen != ulen {
        return false;
    }
    let mut i: usize = 0;
    while i < tlen
        invariant
            i <= tlen,
            tlen == tok@.len(),
            ulen == upper@.len(),
            tlen == ulen,
            forall|j: int| 0 <= j < i ==> char_eq_upper(tok@[j], upper@[j]),
        decreases tlen - i,
    {
        if !char_matches_upper(tok.get_char(i), upper.get_char(i)) {
            return false;
        }
        i = i + 1;
    }
    true
}

/// The decimal digit character for `n` in `0 ..= 9`.
pub open spec fn dec_digit(n: int) -> char {
    if n == 0 {
        '0'
    } else if n == 1 {
        '1'
    } else if n == 2 {
        '2'
    } else if n == 3 {
        '3'
    } else if n == 4 {
        '4'
    } else if n == 5 {
        '5'
    } else if n == 6 {
        '6'
    } else if n == 7 {
        '7'
    } else if n == 8 {
        '8'
    } else {
        '9'
    }
}

/// The decimal rendering of a non-negative number, without leading zeros
/// (a single `'0'` for zero).
pub open spec fn dec_digits(n: int) -> Seq<char>
    decreases n,
{
    if n < 10 {
        seq![dec_digit(n)]
    } else {
        dec_digits(n / 10).push(dec_digit(n % 10))
    }
}

fn digit_str(d: usize) -> (s: &'static str)
    requires
        d < 10,
    ensures
        s@ == seq![dec_digit(d as int)],
{
    proof {
        reveal_strlit("0");
        reveal_strlit("1");
        reveal_strlit("2");
        reveal_strlit("3");
        reveal_strlit("4");
        reveal_strlit("5");
        reveal_strlit("6");
        reveal_strlit("7");
        reveal_strlit("8");
        reveal_strlit("9");
    }
    let r = if d == 0 {
        "0"
    } else if d == 1 {
        "1"
    } else if d == 2 {
        "2"
    } else if d == 3 {
        "3"
    } else if d == 4 {
        "4"
    } else if d == 5 {
        "5"
    } else if d == 6 {
        "6"
    } else if d == 7 {
        "7"
    } else if d == 8 {
        "8"
    } else {
        "9"
    };
    proof {
        assert(r@ =~= seq![dec_digit(d as int)]);
    }
    r
}

/// Renders `n` in decimal.
pub fn to_decimal_string(n: usize) -> (s: String)
    ensures
        s@ == dec_digits(n as int),
    decreases n,
{
    if n < 10 {
        digit_str(n).to_owned()
    } else {
        let mut s = to_decimal_string(n / 10);
        s.append(digit_str(n % 10));
        proof {
            assert(s@ =~= dec_digits(n as int));
        }
        s
    }
}

} // verus!
