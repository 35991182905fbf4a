//! The structured HTTP request: method, path, query parameters, and the
//! parser that builds one from the raw request text.

use vstd::prelude::*;

use crate::strutil::{
    eq_ignore_ascii_case, find2_from, find_char, find_char2, find_from, find_ws_char, find_ws_from,
    is_http_ws, is_ws_char, lemma_find_ws_from, str_eq, token_matches_upper,
};

verus! {

/// The HTTP method of a request line. Wire tokens are compared
/// case-insensitively, so `get` and `GET` parse to the same value.
#[derive(Debug, Copy, Clone, PartialEq, Eq, Structural)]
pub enum HttpMethod {
    GET,
    POST,
    PUT,
    UPDATE,
    DELETE,
    PATCH,
}

/// The request line was malformed: it held fewer than two
/// whitespace-delimited tokens, or its method token is not a known
/// [`HttpMethod`].
#[derive(Debug, Clone, Copy, PartialEq, Eq, Structural)]
pub struct RequestParseError;

/// The method a wire token denotes, compared ignoring ASCII case, or `None`
/// for an unknown token.
pub open spec fn spec_method_of(tok: Seq<char>) -> Option<HttpMethod> {
    if eq_ignore_ascii_case(tok, "GET"@) {
        Some(HttpMethod::GET)
    } else if eq_ignore_ascii_case(tok, "POST"@) {
        Some(HttpMethod::POST)
    } else if eq_ignore_ascii_case(tok, "PUT"@) {
        Some(HttpMethod::PUT)
    } else if eq_ignore_ascii_case(tok, "UPDATE"@) {
        Some(HttpMethod::UPDATE)
    } else if eq_ignore_ascii_case(tok, "DELETE"@) {
        Some(HttpMethod::DELETE)
    } else if eq_ignore_ascii_case(tok, "PATCH"@) {
        Some(HttpMethod::PATCH)
    } else {
        None
    }
}

impl HttpMethod {
    /// Parses a wire token, ignoring ASCII case; unknown tokens are rejected.
    pub fn try_from_str(s: &str) -> (r: Result<HttpMethod, RequestParseError>)
        ensures
            r == match spec_method_of(s@) {
                Some(m) => Ok::<HttpMethod, RequestParseError>(m),
                None => Err::<HttpMethod, RequestParseError>(RequestParseError),
            },
    {
        if token_matches_upper(s, "GET") {
            Ok(HttpMethod::GET)
        } else if token_matches_upper(s, "POST") {
            Ok(HttpMethod::POST)
        } else if token_matches_upper(s, "PUT") {
            Ok(HttpMethod::PUT)
        } else if token_matches_upper(s, "UPDATE") {
            Ok(HttpMethod::UPDATE)
        } else if token_matches_upper(s, "DELETE") {
            Ok(HttpMethod::DELETE)
        } else if token_matches_upper(s, "PATCH") {
            Ok(HttpMethod::PATCH)
        } else {
            Err(RequestParseError)
        }
    }

    /// Whether the wire token `s` denotes this method, ignoring ASCII case.
    pub fn eq_str(&self, s: &str) -> (r: bool)
        ensures
            r == (spec_method_of(s@) == Some(*self)),
    {
        match HttpMethod::try_from_str(s) {
            Ok(m) => m == *self,
            Err(_) => false,
        }
    }
}

impl RequestParseError {
    /// The error's display text.
    pub fn message(&self) -> (r: String)
        ensures
            r@ == "RequestParseError"@,
    {
        "RequestParseError".to_owned()
    }
}

/// The view of one optional query value.
pub open spec fn opt_view(v: Option<String>) -> Option<Seq<char>> {
    match v {
        Some(s) => Some(s@),
        None => None,
    }
}

/// The mapping an association list of query entries denotes; an earlier
/// entry wins over a later one with the same key.
pub open spec fn query_map(q: Seq<(String, Option<String>)>) -> Map<Seq<char>, Option<Seq<char>>>
    decreases q.len(),
{
    if q.len() == 0 {
        Map::empty()
    } else {
        query_map(q.drop_first()).insert(q[0].0@, opt_view(q[0].1))
    }
}

/// A key is in the mapping exactly when some entry holds it.
pub proof fn lemma_query_map_dom(q: Seq<(String, Option<String>)>, k: Seq<char>)
    ensures
        query_map(q).contains_key(k) == exists|i: int| 0 <= i < q.len() && q[i].0@ == k,
    decreases q.len(),
{
    if q.len() > 0 {
        lemma_query_map_dom(q.drop_first(), k);
        if q[0].0@ != k && query_map(q.drop_first()).contains_key(k) {
            let i = choose|i: int| 0 <= i < q.drop_first().len() && q.drop_first()[i].0@ == k;
            assert(q[i + 1].0@ == k);
        }
        if exists|i: int| 0 <= i < q.len() && q[i].0@ == k {
            let i = choose|i: int| 0 <= i < q.len() && q[i].0@ == k;
            if q[0].0@ != k {
                assert(q.drop_first()[i - 1].0@ == k);
            }
        }
    }
}

/// Appending an entry with a fresh key adds exactly that key to the mapping.
pub proof fn lemma_query_map_push(q: Seq<(String, Option<String>)>, e: (String, Option<String>))
    requires
        forall|i: int| 0 <= i < q.len() ==> q[i].0@ != e.0@,
    ensures
        query_map(q.push(e)) == query_map(q).insert(e.0@, opt_view(e.1)),
    decreases q.len(),
{
    if q.len() == 0 {
        assert(q.push(e).drop_first() =~= Seq::<(String, Option<String>)>::empty());
        assert(q.push(e)[0] == e);
        assert(q =~= Seq::<(String, Option<String>)>::empty());
        assert(query_map(Seq::<(String, Option<String>)>::empty()) =~= Map::<
            Seq<char>,
            Option<Seq<char>>,
        >::empty());
        assert(query_map(q.push(e)) =~= query_map(q).insert(e.0@, opt_view(e.1)));
    } else {
        assert(q.push(e).drop_first() =~= q.drop_first().push(e));
        assert(q.push(e)[0] == q[0]);
        lemma_query_map_push(q.drop_first(), e);
        assert(query_map(q.push(e)) == query_map(q.drop_first().push(e)).insert(
            q[0].0@,
            opt_view(q[0].1),
        ));
        assert(query_map(q.push(e)) == query_map(q.drop_first()).insert(
            e.0@,
            opt_view(e.1),
        ).insert(q[0].0@, opt_view(q[0].1)));
        assert(query_map(q.push(e)) =~= query_map(q).insert(e.0@, opt_view(e.1)));
    }
}

/// The first entry holding a key gives that key's value in the mapping.
pub proof fn lemma_query_map_first_match(q: Seq<(String, Option<String>)>, i: int)
    requires
        0 <= i < q.len(),
        forall|j: int| 0 <= j < i ==> q[j].0@ != q[i].0@,
    ensures
        query_map(q).contains_key(q[i].0@),
        query_map(q)[q[i].0@] == opt_view(q[i].1),
    decreases q.len(),
{
    if i > 0 {
        assert(q.drop_first()[i - 1] == q[i]);
        assert(forall|j: int| 0 <= j < i - 1 ==> q.drop_first()[j] == q[j + 1]);
        lemma_query_map_first_match(q.drop_first(), i - 1);
    }
}

/// One query fragment added to the mapping: the key is the part before the
/// first `=` (the whole fragment when there is none), the value the part
/// after it. Fragments with an empty key are skipped, and a key already
/// present keeps its first value.
pub open spec fn add_query_fragment(
    acc: Map<Seq<char>, Option<Seq<char>>>,
    frag: Seq<char>,
) -> Map<Seq<char>, Option<Seq<char>>> {
    let key_end = match find_from(frag, 0, '=') {
        Some(i) => i,
        None => frag.len() as int,
    };
    let key = frag.subrange(0, key_end);
    let val = if key_end < frag.len() {
        Some(frag.subrange(key_end + 1, frag.len() as int))
    } else {
        None::<Seq<char>>
    };
    if key.len() == 0 || acc.contains_key(key) {
        acc
    } else {
        acc.insert(key, val)
    }
}

/// The query mapping built from the `?`-or-`&`-separated fragments of
/// `path` starting at `from`, on top of `acc`.
pub open spec fn spec_queries_from(
    path: Seq<char>,
    from: int,
    acc: Map<Seq<char>, Option<Seq<char>>>,
) -> Map<Seq<char>, Option<Seq<char>>>
    decreases path.len() - from,
    via spec_queries_from_decreases
{
    if from < 0 || from > path.len() {
        acc
    } else {
        let e = match find2_from(path, from, '?', '&') {
            Some(i) => i,
            None => path.len() as int,
        };
        let acc2 = add_query_fragment(acc, path.subrange(from, e));
        if e < path.len() {
            spec_queries_from(path, e + 1, acc2)
        } else {
            acc2
        }
    }
}

#[via_fn]
proof fn spec_queries_from_decreases(
    path: Seq<char>,
    from: int,
    acc: Map<Seq<char>, Option<Seq<char>>>,
) {
    if 0 <= from <= path.len() {
        crate::strutil::lemma_find2_from(path, from, '?', '&');
    }
}

/// The query mapping a path token encodes: everything after the first `?`
/// or `&` is split into fragments; the first occurrence of a key wins.
pub open spec fn spec_queries(path: Seq<char>) -> Map<Seq<char>, Option<Seq<char>>> {
    match find2_from(path, 0, '?', '&') {
        None => Map::empty(),
        Some(i) => spec_queries_from(path, i + 1, Map::empty()),
    }
}

fn queries_contain_key(q: &Vec<(String, Option<String>)>, key: &str) -> (r: bool)
    ensures
        r == query_map(q@).contains_key(key@),
{
    proof {
        lemma_query_map_dom(q@, key@);
    }
    let mut idx: usize = 0;
    while idx < q.len()
        invariant
            idx <= q@.len(),
            forall|j: int| 0 <= j < idx ==> q@[j].0@ != key@,
            query_map(q@).contains_key(key@) == exists|i: int|
                0 <= i < q@.len() && q@[i].0@ == key@,
        decreases q@.len() - idx,
    {
        if str_eq(q[idx].0.as_str(), key) {
            return true;
        }
        idx = idx + 1;
    }
    false
}

proof fn lemma_queries_from_step(path: Seq<char>, from: int, acc: Map<Seq<char>, Option<Seq<char>>>)
    requires
        0 <= from,
        from <= path.len(),
    ensures
        spec_queries_from(path, from, acc) == ({
            let e = match find2_from(path, from, '?', '&') {
                Some(i) => i,
                None => path.len() as int,
            };
            let acc2 = add_query_fragment(acc, path.subrange(from, e));
            if e < path.len() {
                spec_queries_from(path, e + 1, acc2)
            } else {
                acc2
            }
        }),
{
    crate::strutil::lemma_find2_from(path, from, '?', '&');
}

proof fn lemma_queries_from_at_end(path: Seq<char>, acc: Map<Seq<char>, Option<Seq<char>>>)
    ensures
        spec_queries_from(path, path.len() as int, acc) == acc,
{
    let empty = Seq::<char>::empty();
    assert(path.subrange(path.len() as int, path.len() as int) =~= empty);
    assert(find_from(empty, 0, '=') is None);
    assert(empty.subrange(0, 0) =~= empty);
    assert(add_query_fragment(acc, empty) == acc);
}

#[verifier::rlimit(60)]
fn parse_queries(path: &str) -> (q: Vec<(String, Option<String>)>)
    ensures
        query_map(q@) == spec_queries(path@),
        forall|a: int, b: int| 0 <= a < b < q@.len() ==> q@[a].0@ != q@[b].0@,
{
    let mut q: Vec<(String, Option<String>)> = Vec::new();
    proof {
        assert(query_map(q@) =~= Map::<Seq<char>, Option<Seq<char>>>::empty());
    }
    let len = path.unicode_len();
    let mut cur: usize = match find_char2(path, 0, '?', '&') {
        None => {
            return q;
        },
        Some(i) => i + 1,
    };
    while cur < len
        invariant
            cur <= len,
            len == path@.len(),
            spec_queries(path@) == spec_queries_from(path@, cur as int, query_map(q@)),
            forall|a: int, b: int| 0 <= a < b < q@.len() ==> q@[a].0@ != q@[b].0@,
        decreases len - cur,
    {
        let ghost m0 = query_map(q@);
        let e = match find_char2(path, cur, '?', '&') {
            Some(e2) => e2,
            None => len,
        };
        let frag = path.substring_char(cur, e);
        let flen = frag.unicode_len();
        let (key_str, val) = match find_char(frag, 0, '=') {
            Some(p) => (
                frag.substring_char(0, p),
                Some(frag.substring_char(p + 1, flen).to_owned()),
            ),
            None => (frag, None),
        };
        proof {
            assert(frag@.subrange(0, frag@.len() as int) =~= frag@);
        }
        if !key_str.is_empty() && !queries_contain_key(&q, key_str) {
            proof {
                lemma_query_map_dom(q@, key_str@);
            }
            let entry = (key_str.to_owned(), val);
            proof {
                lemma_query_map_push(q@, entry);
            }
            q.push(entry);
        }
        proof {
            assert(query_map(q@) == add_query_fragment(m0, path@.subrange(cur as int, e as int)));
            lemma_queries_from_step(path@, cur as int, m0);
            if e < len {
                assert(spec_queries_from(path@, cur as int, m0) == spec_queries_from(
                    path@,
                    e as int + 1,
                    query_map(q@),
                ));
            } else {
                assert(spec_queries_from(path@, cur as int, m0) == query_map(q@));
                lemma_queries_from_at_end(path@, query_map(q@));
            }
        }
        if e < len {
            cur = e + 1;
        } else {
            cur = len;
        }
    }
    proof {
        lemma_queries_from_at_end(path@, query_map(q@));
    }
    q
}

/// The mapping an association list of path-parameter bindings denotes; an
/// earlier entry wins over a later one with the same key.
pub open spec fn param_map(q: Seq<(String, String)>) -> Map<Seq<char>, Seq<char>>
    decreases q.len(),
{
    if q.len() == 0 {
        Map::empty()
    } else {
        param_map(q.drop_first()).insert(q[0].0@, q[0].1@)
    }
}

/// A key is in the parameter mapping exactly when some entry holds it.
pub proof fn lemma_param_map_dom(q: Seq<(String, String)>, k: Seq<char>)
    ensures
        param_map(q).contains_key(k) == exists|i: int| 0 <= i < q.len() && q[i].0@ == k,
    decreases q.len(),
{
    if q.len() > 0 {
        lemma_param_map_dom(q.drop_first(), k);
        if q[0].0@ != k && param_map(q.drop_first()).contains_key(k) {
            let i = choose|i: int| 0 <= i < q.drop_first().len() && q.drop_first()[i].0@ == k;
            assert(q[i + 1].0@ == k);
        }
        if exists|i: int| 0 <= i < q.len() && q[i].0@ == k {
            let i = choose|i: int| 0 <= i < q.len() && q[i].0@ == k;
            if q[0].0@ != k {
                assert(q.drop_first()[i - 1].0@ == k);
            }
        }
    }
}

/// Appending a binding with a fresh key adds exactly that key.
pub proof fn lemma_param_map_push(q: Seq<(String, String)>, e: (String, String))
    requires
        forall|i: int| 0 <= i < q.len() ==> q[i].0@ != e.0@,
    ensures
        param_map(q.push(e)) == param_map(q).insert(e.0@, e.1@),
    decreases q.len(),
{
    if q.len() == 0 {
        assert(q.push(e).drop_first() =~= Seq::<(String, String)>::empty());
        assert(q.push(e)[0] == e);
        assert(q =~= Seq::<(String, String)>::empty());
        assert(param_map(Seq::<(String, String)>::empty()) =~= Map::<Seq<char>, Seq<char>>::empty());
        assert(param_map(q.push(e)) =~= param_map(q).insert(e.0@, e.1@));
    } else {
        assert(q.push(e).drop_first() =~= q.drop_first().push(e));
        assert(q.push(e)[0] == q[0]);
        lemma_param_map_push(q.drop_first(), e);
        assert(param_map(q.push(e)) == param_map(q.drop_first().push(e)).insert(
            q[0].0@,
            q[0].1@,
        ));
        assert(param_map(q.push(e)) == param_map(q.drop_first()).insert(e.0@, e.1@).insert(
            q[0].0@,
            q[0].1@,
        ));
        assert(param_map(q.push(e)) =~= param_map(q).insert(e.0@, e.1@));
    }
}

/// The first binding holding a key gives that key's value.
pub proof fn lemma_param_map_first_match(q: Seq<(String, String)>, i: int)
    requires
        0 <= i < q.len(),
        forall|j: int| 0 <= j < i ==> q[j].0@ != q[i].0@,
    ensures
        param_map(q).contains_key(q[i].0@),
        param_map(q)[q[i].0@] == q[i].1@,
    decreases q.len(),
{
    if i > 0 {
        assert(q.drop_first()[i - 1] == q[i]);
        assert(forall|j: int| 0 <= j < i - 1 ==> q.drop_first()[j] == q[j + 1]);
        lemma_param_map_first_match(q.drop_first(), i - 1);
    }
}

/// A parsed HTTP request.
///
/// `raw_content` and `path` are kept exactly as received; `queries` holds
/// the query parameters decoded from the path token, and `params` the
/// path-parameter bindings, which stay empty until a matched route binds
/// them. The fields are public so that contracts can speak of them
/// directly; a request is meant to be built by the parser and then mutated
/// only by route binding.
#[derive(Debug)]
pub struct Request {
    /// The raw request text exactly as received.
    pub raw_content: String,
    /// The path token exactly as sent, query string included.
    pub path: String,
    /// The parsed request method.
    pub method: HttpMethod,
    /// Query key/optional-value pairs, first occurrence of each key only.
    pub queries: Vec<(String, Option<String>)>,
    /// Path-parameter bindings; empty before route matching.
    pub params: Vec<(String, String)>,
}

impl Request {
    /// The mapping the query entries denote.
    pub open spec fn queries_map(&self) -> Map<Seq<char>, Option<Seq<char>>> {
        query_map(self.queries@)
    }

    /// The mapping the path-parameter bindings denote.
    pub open spec fn params_map(&self) -> Map<Seq<char>, Seq<char>> {
        param_map(self.params@)
    }

    /// The raw request text exactly as received.
    pub fn raw_content(&self) -> (r: &str)
        ensures
            r@ == self.raw_content@,
    {
        self.raw_content.as_str()
    }

    /// The path token exactly as sent, query string included.
    pub fn path(&self) -> (r: &String)
        ensures
            r@ == self.path@,
    {
        &self.path
    }

    /// The path token exactly as sent, query string included.
    pub fn path_as_str(&self) -> (r: &str)
        ensures
            r@ == self.path@,
    {
        self.path.as_str()
    }

    /// The method the request was sent with.
    pub fn method(&self) -> (r: HttpMethod)
        ensures
            r == self.method,
    {
        self.method
    }

    /// The decoded query parameters, in order of first occurrence.
    pub fn queries(&self) -> (r: &Vec<(String, Option<String>)>)
        ensures
            r@ == self.queries@,
    {
        &self.queries
    }

    /// The path-parameter bindings made by route matching.
    pub fn params(&self) -> (r: &Vec<(String, String)>)
        ensures
            r@ == self.params@,
    {
        &self.params
    }

    /// Looks a query key up: `None` when the key is absent, `Some(None)`
    /// for a key sent without a value, `Some(Some(v))` for `key=v`.
    pub fn query_value(&self, key: &str) -> (r: Option<Option<String>>)
        ensures
            match r {
                Some(v) => self.queries_map().contains_key(key@) && self.queries_map()[key@]
                    == opt_view(v),
                None => !self.queries_map().contains_key(key@),
            },
    {
        let mut idx: usize = 0;
        while idx < self.queries.len()
            invariant
                idx <= self.queries@.len(),
                forall|j: int| 0 <= j < idx ==> self.queries@[j].0@ != key@,
            decreases self.queries@.len() - idx,
        {
            if str_eq(self.queries[idx].0.as_str(), key) {
                proof {
                    lemma_query_map_first_match(self.queries@, idx as int);
                }
                let v = match &self.queries[idx].1 {
                    Some(s) => Some(s.clone()),
                    None => None,
                };
                return Some(v);
            }
            idx = idx + 1;
        }
        proof {
            lemma_query_map_dom(self.queries@, key@);
        }
        None
    }

    /// Looks a path-parameter binding up by placeholder name.
    pub fn param_value(&self, key: &str) -> (r: Option<String>)
        ensures
            match r {
                Some(v) => self.params_map().contains_key(key@) && self.params_map()[key@] == v@,
                None => !self.params_map().contains_key(key@),
            },
    {
        let mut idx: usize = 0;
        while idx < self.params.len()
            invariant
                idx <= self.params@.len(),
                forall|j: int| 0 <= j < idx ==> self.params@[j].0@ != key@,
            decreases self.params@.len() - idx,
        {
            if str_eq(self.params[idx].0.as_str(), key) {
                proof {
                    lemma_param_map_first_match(self.params@, idx as int);
                }
                return Some(self.params[idx].1.clone());
            }
            idx = idx + 1;
        }
        proof {
            lemma_param_map_dom(self.params@, key@);
        }
        None
    }
}

/// The index after the run of whitespace starting at `from` (the length of
/// `s` when whitespace reaches the end).
pub open spec fn spec_skip_whitespace(s: Seq<char>, from: int) -> int
    decreases s.len() - from,
{
    if from < 0 || from >= s.len() {
        s.len() as int
    } else if is_http_ws(s[from]) {
        spec_skip_whitespace(s, from + 1)
    } else {
        from
    }
}

fn skip_whitespace(s: &str, from: usize) -> (r: usize)
    requires
        from <= s@.len(),
    ensures
        r as int == spec_skip_whitespace(s@, from as int),
        from <= r <= s@.len(),
{
    let len = s.unicode_len();
    let mut i = from;
    while i < len
        invariant
            from <= i <= len,
            len == s@.len(),
            spec_skip_whitespace(s@, from as int) == spec_skip_whitespace(s@, i as int),
        decreases len - i,
    {
        if !is_ws_char(s.get_char(i)) {
            return i;
        }
        i = i + 1;
    }
    i
}

/// The parsed request line: the method and the path token, split on
/// whitespace (space, tab, CR, LF). `None` when the text holds no
/// whitespace, its method token is unknown, or no path token follows the
/// whitespace run after the method.
pub open spec fn spec_parse_request_line(content: Seq<char>) -> Option<(HttpMethod, Seq<char>)> {
    match find_ws_from(content, 0) {
        None => None,
        Some(i) => {
            let j = spec_skip_whitespace(content, i);
            let k = match find_ws_from(content, j) {
                Some(k2) => k2,
                None => content.len() as int,
            };
            match spec_method_of(content.subrange(0, i)) {
                None => None,
                Some(m) => if j >= k {
                    None
                } else {
                    Some((m, content.subrange(j, k)))
                },
            }
        },
    }
}

/// A token matched case-insensitively against an all-upper-case-letter
/// pattern holds no whitespace.
proof fn lemma_ci_match_no_whitespace(tok: Seq<char>, upper: Seq<char>)
    requires
        eq_ignore_ascii_case(tok, upper),
        forall|i: int| 0 <= i < upper.len() ==> 65 <= #[trigger] upper[i] as int <= 90,
    ensures
        forall|j: int| 0 <= j < tok.len() ==> !is_http_ws(tok[j]),
{
    assert(' ' as int == 32);
    assert('\t' as int == 9);
    assert('\r' as int == 13);
    assert('\n' as int == 10);
    assert forall|j: int| 0 <= j < tok.len() implies !is_http_ws(tok[j]) by {
        assert(crate::strutil::char_eq_upper(tok[j], upper[j]));
    }
}

/// A token that parses as a method holds no whitespace.
pub proof fn lemma_method_token_no_whitespace(tok: Seq<char>)
    requires
        spec_method_of(tok) is Some,
    ensures
        forall|j: int| 0 <= j < tok.len() ==> !is_http_ws(tok[j]),
{
    reveal_strlit("GET");
    reveal_strlit("POST");
    reveal_strlit("PUT");
    reveal_strlit("UPDATE");
    reveal_strlit("DELETE");
    reveal_strlit("PATCH");
    if eq_ignore_ascii_case(tok, "GET"@) {
        lemma_ci_match_no_whitespace(tok, "GET"@);
    } else if eq_ignore_ascii_case(tok, "POST"@) {
        lemma_ci_match_no_whitespace(tok, "POST"@);
    } else if eq_ignore_ascii_case(tok, "PUT"@) {
        lemma_ci_match_no_whitespace(tok, "PUT"@);
    } else if eq_ignore_ascii_case(tok, "UPDATE"@) {
        lemma_ci_match_no_whitespace(tok, "UPDATE"@);
    } else if eq_ignore_ascii_case(tok, "DELETE"@) {
        lemma_ci_match_no_whitespace(tok, "DELETE"@);
    } else {
        lemma_ci_match_no_whitespace(tok, "PATCH"@);
    }
}

/// When `[from, k)` is all whitespace and `k` is the end of `s` or a
/// non-whitespace character, the whitespace run from `from` ends exactly
/// at `k`.
proof fn lemma_skip_whitespace_exact(s: Seq<char>, from: int, k: int)
    requires
        0 <= from <= k <= s.len(),
        forall|j: int| from <= j < k ==> is_http_ws(s[j]),
        k < s.len() ==> !is_http_ws(s[k]),
    ensures
        spec_skip_whitespace(s, from) == k,
    decreases k - from,
{
    if from < k {
        lemma_skip_whitespace_exact(s, from + 1, k);
    }
}

/// A well-formed request line parses to exactly its method and path: for
/// text of the form `method ws path rest` — a recognized method token, a
/// non-empty run of whitespace, a non-empty path token without whitespace,
/// and a remainder that is empty or starts with whitespace — the parser
/// recovers exactly that method and that path token.
pub proof fn lemma_parse_recovers_request_line(
    method_tok: Seq<char>,
    ws: Seq<char>,
    path_tok: Seq<char>,
    rest: Seq<char>,
    m: HttpMethod,
)
    requires
        spec_method_of(method_tok) == Some(m),
        ws.len() > 0,
        forall|j: int| 0 <= j < ws.len() ==> is_http_ws(ws[j]),
        path_tok.len() > 0,
        forall|j: int| 0 <= j < path_tok.len() ==> !is_http_ws(path_tok[j]),
        rest.len() == 0 || is_http_ws(rest[0]),
    ensures
        spec_parse_request_line(method_tok + ws + path_tok + rest) == Some((m, path_tok)),
{
    let content = method_tok + ws + path_tok + rest;
    let i = method_tok.len() as int;
    let j = i + ws.len() as int;
    let k = j + path_tok.len() as int;
    lemma_method_token_no_whitespace(method_tok);
    assert(forall|t: int| 0 <= t < i ==> content[t] == method_tok[t]);
    assert(forall|t: int| i <= t < j ==> content[t] == ws[t - i]);
    assert(forall|t: int| j <= t < k ==> content[t] == path_tok[t - j]);
    assert(is_http_ws(content[i]));
    crate::strutil::lemma_find_ws_from_exact(content, 0, i);
    assert(content.subrange(0, i) =~= method_tok);
    assert(j < content.len());
    assert(content[j] == path_tok[0]);
    lemma_skip_whitespace_exact(content, i, j);
    if k < content.len() {
        assert(content[k] == rest[0]);
    }
    crate::strutil::lemma_find_ws_from_exact(content, j, k);
    assert(content.subrange(j, k) =~= path_tok);
}

/// Text lacking two whitespace-delimited tokens does not parse: when no
/// non-whitespace character follows a whitespace character anywhere in the
/// text, the request line is rejected.
pub proof fn lemma_parse_fails_without_second_token(content: Seq<char>)
    requires
        forall|j: int, k: int|
            0 <= j < k < content.len() ==> !(is_http_ws(content[j]) && !is_http_ws(content[k])),
    ensures
        spec_parse_request_line(content) is None,
{
    lemma_find_ws_from(content, 0);
    match find_ws_from(content, 0) {
        None => {},
        Some(i) => {
            assert(forall|t: int| i <= t < content.len() ==> is_http_ws(content[t]));
            lemma_skip_whitespace_exact(content, i, content.len() as int);
            assert(find_ws_from(content, content.len() as int) is None);
        },
    }
}

/// Parses the raw request text: the method token (up to the first
/// whitespace character, matched case-insensitively) and the path token
/// (after the whitespace run, up to the next whitespace or the end). The
/// query parameters are decoded from the path token, one entry per key;
/// the raw text is kept verbatim.
pub fn parse_request_from_http_request_body(content: String) -> (r: Result<
    Request,
    RequestParseError,
>)
    ensures
        match r {
            Ok(req) => {
                &&& spec_parse_request_line(content@) == Some((req.method, req.path@))
                &&& req.raw_content@ == content@
                &&& req.queries_map() == spec_queries(req.path@)
                &&& (forall|a: int, b: int|
                    0 <= a < b < req.queries@.len() ==> req.queries@[a].0@ != req.queries@[b].0@)
                &&& req.params@ == Seq::<(String, String)>::empty()
            },
            Err(_) => spec_parse_request_line(content@) is None,
        },
{
    let s = content.as_str();
    let i = match find_ws_char(s, 0) {
        None => {
            return Err(RequestParseError);
        },
        Some(i) => i,
    };
    let method_tok = s.substring_char(0, i);
    let method = match HttpMethod::try_from_str(method_tok) {
        Ok(m) => m,
        Err(e) => {
            return Err(e);
        },
    };
    let j = skip_whitespace(s, i);
    let k = match find_ws_char(s, j) {
        Some(k2) => k2,
        None => s.unicode_len(),
    };
    if j >= k {
        return Err(RequestParseError);
    }
    let path = s.substring_char(j, k).to_owned();
    let queries = parse_queries(path.as_str());
    Ok(Request { raw_content: content, path, method, queries, params: Vec::new() })
}

} // verus!
