//! Route templates and matching: `/`-delimited literal and `{name}`
//! placeholder segments, and the binding of placeholder values onto a
//! request after a match.

use vstd::prelude::*;

use crate::request::{lemma_param_map_dom, lemma_param_map_push, param_map, Request};
use crate::strutil::{find_char, find_from, lemma_find_from, lemma_find_from_exact, str_eq};

verus! {

/// The path up to (not including) its first `?`.
pub open spec fn before_query(path: Seq<char>) -> Seq<char> {
    match find_from(path, 0, '?') {
        Some(i) => path.subrange(0, i),
        None => path,
    }
}

/// The `/`-separated segments of `s` from `from` on; empty segments made by
/// leading, trailing or doubled slashes are dropped.
pub open spec fn segments_from(s: Seq<char>, from: int) -> Seq<Seq<char>>
    decreases s.len() - from,
    via segments_from_decreases
{
    if from < 0 || from >= s.len() {
        Seq::empty()
    } else if s[from] == '/' {
        segments_from(s, from + 1)
    } else {
        let e = match find_from(s, from, '/') {
            Some(i) => i,
            None => s.len() as int,
        };
        seq![s.subrange(from, e)] + segments_from(s, e)
    }
}

#[via_fn]
proof fn segments_from_decreases(s: Seq<char>, from: int) {
    if 0 <= from < s.len() && s[from] != '/' {
        lemma_find_from(s, from, '/');
    }
}

/// The `/`-separated non-empty segments of `s`.
pub open spec fn segments(s: Seq<char>) -> Seq<Seq<char>> {
    segments_from(s, 0)
}

/// A template segment that consumes any one request segment: one that
/// starts with `{`.
pub open spec fn is_placeholder(seg: Seq<char>) -> bool {
    seg.len() > 0 && seg[0] == '{'
}

/// Lock-step segment comparison: the counts are equal, and each template
/// segment is a placeholder or equal to the request segment at its index.
pub open spec fn segs_match(req: Seq<Seq<char>>, tmpl: Seq<Seq<char>>) -> bool {
    req.len() == tmpl.len() && forall|i: int|
        0 <= i < tmpl.len() ==> is_placeholder(tmpl[i]) || req[i] == tmpl[i]
}

/// The route-matching relation: either the stored path (query string
/// included) is textually identical to the template, or the segments of the
/// query-stripped path match the template's segments in lock step.
pub open spec fn spec_matches_route(path: Seq<char>, route: Seq<char>) -> bool {
    path == route || segs_match(segments(before_query(path)), segments(route))
}

fn split_segments(s: &str) -> (v: Vec<String>)
    ensures
        v.deep_view() == segments(s@),
{
    let len = s.unicode_len();
    let mut v: Vec<String> = Vec::new();
    let mut cur: usize = 0;
    proof {
        assert(v.deep_view() + segments_from(s@, 0) =~= segments(s@));
    }
    while cur < len
        invariant
            cur <= len,
            len == s@.len(),
            v.deep_view() + segments_from(s@, cur as int) == segments(s@),
        decreases len - cur,
    {
        if s.get_char(cur) == '/' {
            proof {
                assert(segments_from(s@, cur as int) == segments_from(s@, cur as int + 1));
            }
            cur = cur + 1;
        } else {
            let e = match find_char(s, cur, '/') {
                Some(i) => i,
                None => len,
            };
            proof {
                lemma_find_from(s@, cur as int, '/');
            }
            let seg = s.substring_char(cur, e).to_owned();
            let ghost dv0 = v.deep_view();
            proof {
                assert(segments_from(s@, cur as int) == seq![s@.subrange(cur as int, e as int)]
                    + segments_from(s@, e as int));
            }
            v.push(seg);
            proof {
                assert(v.deep_view() =~= dv0.push(seg@));
                assert(dv0.push(seg@) + segments_from(s@, e as int) =~= dv0 + (seq![seg@]
                    + segments_from(s@, e as int)));
            }
            cur = e;
        }
    }
    proof {
        assert(v.deep_view() + segments_from(s@, cur as int) =~= v.deep_view());
    }
    v
}

fn seg_is_placeholder(seg: &str) -> (r: bool)
    ensures
        r == is_placeholder(seg@),
{
    if seg.is_empty() {
        false
    } else {
        seg.get_char(0) == '{'
    }
}

fn segs_match_exec(req: &Vec<String>, tmpl: &Vec<String>) -> (r: bool)
    ensures
        r == segs_match(req.deep_view(), tmpl.deep_view()),
{
    if req.len() != tmpl.len() {
        return false;
    }
    let mut i: usize = 0;
    while i < tmpl.len()
        invariant
            i <= tmpl@.len(),
            req@.len() == tmpl@.len(),
            forall|j: int|
                0 <= j < i ==> is_placeholder(tmpl.deep_view()[j]) || req.deep_view()[j]
                    == tmpl.deep_view()[j],
        decreases tmpl@.len() - i,
    {
        if !seg_is_placeholder(tmpl[i].as_str()) {
            if !str_eq(req[i].as_str(), tmpl[i].as_str()) {
                proof {
                    assert(!(is_placeholder(tmpl.deep_view()[i as int]) || req.deep_view()[
                        i as int] == tmpl.deep_view()[i as int]));
                }
                return false;
            }
        }
        i = i + 1;
    }
    true
}

/// Whether the request's stored path matches the route template: either
/// textually identical, or segment for segment with `{...}` template
/// segments matching anything. The query string of the path is ignored for
/// segment matching, and leading, trailing or doubled slashes on either
/// side are immaterial.
pub fn request_matches_route(request: &Request, route: &str) -> (b: bool)
    ensures
        b == spec_matches_route(request.path@, route@),
{
    if str_eq(request.path.as_str(), route) {
        return true;
    }
    let path_str = request.path.as_str();
    let stripped = match find_char(path_str, 0, '?') {
        Some(i) => path_str.substring_char(0, i),
        None => path_str,
    };
    let req_segs = split_segments(stripped);
    let route_segs = split_segments(route);
    segs_match_exec(&req_segs, &route_segs)
}

/// The name a placeholder segment binds: the text after the `{`, without
/// the closing `}` when one ends the segment.
pub open spec fn placeholder_name(seg: Seq<char>) -> Seq<char>
    recommends
        is_placeholder(seg),
{
    let inner = seg.subrange(1, seg.len() as int);
    if inner.len() > 0 && inner[inner.len() - 1] == '}' {
        inner.drop_last()
    } else {
        inner
    }
}

fn placeholder_name_str<'a>(seg: &'a str) -> (r: &'a str)
    requires
        is_placeholder(seg@),
    ensures
        r@ == placeholder_name(seg@),
{
    let len = seg.unicode_len();
    let r = if len > 1 && seg.get_char(len - 1) == '}' {
        seg.substring_char(1, len - 1)
    } else {
        seg.substring_char(1, len)
    };
    proof {
        let inner = seg@.subrange(1, seg@.len() as int);
        if inner.len() > 0 && inner[inner.len() - 1] == '}' {
            assert(r@ =~= inner.drop_last());
        } else {
            assert(r@ =~= inner);
        }
    }
    r
}

/// The bindings a template's placeholders make against the request
/// segments, walking both lists in lock step from index `i`; the first
/// occurrence of a name wins. Indices past either list bind nothing.
pub open spec fn spec_bind_from(
    req: Seq<Seq<char>>,
    tmpl: Seq<Seq<char>>,
    i: int,
    acc: Map<Seq<char>, Seq<char>>,
) -> Map<Seq<char>, Seq<char>>
    decreases tmpl.len() - i,
{
    if i < 0 || i >= tmpl.len() || i >= req.len() {
        acc
    } else {
        let acc2 = if is_placeholder(tmpl[i]) && !acc.contains_key(placeholder_name(tmpl[i])) {
            acc.insert(placeholder_name(tmpl[i]), req[i])
        } else {
            acc
        };
        spec_bind_from(req, tmpl, i + 1, acc2)
    }
}

/// The parameter bindings the route template makes against the request
/// path: the value of each `{name}` template segment is the request path
/// segment at the same index.
pub open spec fn spec_bind_params(path: Seq<char>, route: Seq<char>) -> Map<Seq<char>, Seq<char>> {
    spec_bind_from(segments(before_query(path)), segments(route), 0, Map::empty())
}

/// Appending a character other than `c` does not change where `c` is first
/// found.
proof fn lemma_find_from_push_other(s: Seq<char>, x: char, c: char, from: int)
    requires
        x != c,
        0 <= from,
    ensures
        find_from(s.push(x), from, c) == find_from(s, from, c),
    decreases s.len() + 1 - from,
{
    if from < s.len() {
        assert(s.push(x)[from] == s[from]);
        if s[from] != c {
            lemma_find_from_push_other(s, x, c, from + 1);
        }
    } else if from == s.len() {
        assert(s.push(x)[from] == x);
        assert(find_from(s.push(x), from + 1, c) is None);
    }
}

/// Appending `c` itself: the first occurrence stays where it was, or is the
/// appended position when there was none.
proof fn lemma_find_from_push_same(s: Seq<char>, c: char, from: int)
    requires
        0 <= from <= s.len(),
    ensures
        find_from(s.push(c), from, c) == match find_from(s, from, c) {
            Some(i) => Some(i),
            None => Some(s.len() as int),
        },
    decreases s.len() - from,
{
    if from < s.len() {
        assert(s.push(c)[from] == s[from]);
        if s[from] != c {
            lemma_find_from_push_same(s, c, from + 1);
        }
    } else {
        assert(s.push(c)[from] == c);
    }
}

/// A trailing slash changes nothing about a path's segments.
pub proof fn lemma_segments_trailing_slash(s: Seq<char>, from: int)
    requires
        0 <= from,
    ensures
        segments_from(s.push('/'), from) == segments_from(s, from),
    decreases s.len() + 1 - from,
{
    let t = s.push('/');
    if from < s.len() {
        assert(t[from] == s[from]);
        if s[from] == '/' {
            lemma_segments_trailing_slash(s, from + 1);
        } else {
            lemma_find_from(s, from, '/');
            lemma_find_from_push_same(s, '/', from);
            match find_from(s, from, '/') {
                Some(i) => {
                    assert(t.subrange(from, i) =~= s.subrange(from, i));
                    lemma_segments_trailing_slash(s, i);
                },
                None => {
                    let e = s.len() as int;
                    assert(t.subrange(from, e) =~= s.subrange(from, e));
                    assert(t[e] == '/');
                    assert(segments_from(t, e) == segments_from(t, e + 1));
                    assert(segments_from(t, e + 1) =~= Seq::<Seq<char>>::empty());
                    assert(segments_from(s, e) =~= Seq::<Seq<char>>::empty());
                },
            }
        }
    } else if from == s.len() {
        assert(t[from] == '/');
        assert(segments_from(t, from) == segments_from(t, from + 1));
        assert(segments_from(t, from + 1) =~= Seq::<Seq<char>>::empty());
    }
}

/// A trailing slash on the request path is tolerated: it changes nothing
/// about which templates the path matches segment for segment (the
/// query-stripped segments are the same with and without it).
pub proof fn lemma_trailing_slash_tolerated(path: Seq<char>, route: Seq<char>)
    ensures
        segs_match(segments(before_query(path.push('/'))), segments(route)) == segs_match(
            segments(before_query(path)),
            segments(route),
        ),
{
    lemma_find_from_push_other(path, '/', '?', 0);
    match find_from(path, 0, '?') {
        Some(i) => {
            lemma_find_from(path, 0, '?');
            assert(before_query(path.push('/')) =~= before_query(path));
        },
        None => {
            assert(before_query(path.push('/')) == path.push('/'));
            lemma_segments_trailing_slash(path, 0);
        },
    }
}

/// The query string plays no part in matching: appending `?query` to a
/// query-free path changes nothing about which templates its segments
/// match.
pub proof fn lemma_query_string_ignored(path: Seq<char>, query: Seq<char>, route: Seq<char>)
    requires
        !path.contains('?'),
    ensures
        segs_match(segments(before_query(path + seq!['?'] + query)), segments(route))
            == segs_match(segments(path), segments(route)),
{
    let full = path + seq!['?'] + query;
    assert(forall|t: int| 0 <= t < path.len() ==> full[t] == path[t]);
    assert(full[path.len() as int] == '?');
    lemma_find_from_exact(full, 0, path.len() as int, '?');
    assert(before_query(full) =~= path);
    lemma_find_from_exact(path, 0, path.len() as int, '?');
    assert(before_query(path) == path);
}

/// Binding never overwrites: a key already in the accumulator keeps its
/// value through the rest of the walk.
proof fn lemma_bind_from_keeps(
    req: Seq<Seq<char>>,
    tmpl: Seq<Seq<char>>,
    k: int,
    acc: Map<Seq<char>, Seq<char>>,
    n: Seq<char>,
)
    requires
        acc.contains_key(n),
    ensures
        spec_bind_from(req, tmpl, k, acc).contains_key(n),
        spec_bind_from(req, tmpl, k, acc)[n] == acc[n],
    decreases tmpl.len() - k,
{
    if 0 <= k < tmpl.len() && k < req.len() {
        let acc2 = if is_placeholder(tmpl[k]) && !acc.contains_key(placeholder_name(tmpl[k])) {
            acc.insert(placeholder_name(tmpl[k]), req[k])
        } else {
            acc
        };
        lemma_bind_from_keeps(req, tmpl, k + 1, acc2, n);
    }
}

proof fn lemma_bind_from_binds(
    req: Seq<Seq<char>>,
    tmpl: Seq<Seq<char>>,
    k: int,
    acc: Map<Seq<char>, Seq<char>>,
    i: int,
)
    requires
        0 <= k <= i < tmpl.len(),
        i < req.len(),
        is_placeholder(tmpl[i]),
        !acc.contains_key(placeholder_name(tmpl[i])),
        forall|j: int|
            k <= j < i && is_placeholder(tmpl[j]) ==> placeholder_name(tmpl[j])
                != placeholder_name(tmpl[i]),
    ensures
        spec_bind_from(req, tmpl, k, acc).contains_key(placeholder_name(tmpl[i])),
        spec_bind_from(req, tmpl, k, acc)[placeholder_name(tmpl[i])] == req[i],
    decreases i - k,
{
    let n = placeholder_name(tmpl[i]);
    let acc2 = if is_placeholder(tmpl[k]) && !acc.contains_key(placeholder_name(tmpl[k])) {
        acc.insert(placeholder_name(tmpl[k]), req[k])
    } else {
        acc
    };
    if k == i {
        lemma_bind_from_keeps(req, tmpl, k + 1, acc2, n);
    } else {
        lemma_bind_from_binds(req, tmpl, k + 1, acc2, i);
    }
}

/// What route matching binds: the first placeholder segment bearing a
/// given name binds that name to the request path segment at the same
/// index.
pub proof fn lemma_bind_params_binds_placeholder(path: Seq<char>, route: Seq<char>, i: int)
    requires
        0 <= i < segments(route).len(),
        i < segments(before_query(path)).len(),
        is_placeholder(segments(route)[i]),
        forall|j: int|
            0 <= j < i && is_placeholder(segments(route)[j]) ==> placeholder_name(
                segments(route)[j],
            ) != placeholder_name(segments(route)[i]),
    ensures
        spec_bind_params(path, route).contains_key(placeholder_name(segments(route)[i])),
        spec_bind_params(path, route)[placeholder_name(segments(route)[i])] == segments(
            before_query(path),
        )[i],
{
    lemma_bind_from_binds(
        segments(before_query(path)),
        segments(route),
        0,
        Map::empty(),
        i,
    );
}

fn params_contain_key(v: &Vec<(String, String)>, key: &str) -> (r: bool)
    ensures
        r == param_map(v@).contains_key(key@),
{
    proof {
        lemma_param_map_dom(v@, key@);
    }
    let mut idx: usize = 0;
    while idx < v.len()
        invariant
            idx <= v@.len(),
            forall|j: int| 0 <= j < idx ==> v@[j].0@ != key@,
            param_map(v@).contains_key(key@) == exists|i: int|
                0 <= i < v@.len() && v@[i].0@ == key@,
        decreases v@.len() - idx,
    {
        if str_eq(v[idx].0.as_str(), key) {
            return true;
        }
        idx = idx + 1;
    }
    false
}

/// Rebuilds the request's parameter bindings from the route template:
/// every `{name}` template segment binds the request path segment at its
/// index. All other request fields are left untouched. Intended for the
/// route selected as the first match; it is total and never panics on a
/// non-matching template (placeholders past either segment list simply
/// bind nothing).
pub fn set_request_params_according_to_match(request: &mut Request, route: &str)
    ensures
        final(request).params_map() == spec_bind_params(old(request).path@, route@),
        ({
            let ps = final(request).params@;
            forall|a: int, b: int| 0 <= a < b < ps.len() ==> ps[a].0@ != ps[b].0@
        }),
        final(request).raw_content@ == old(request).raw_content@,
        final(request).path@ == old(request).path@,
        final(request).method == old(request).method,
        final(request).queries@ == old(request).queries@,
{
    let path_str = request.path.as_str();
    let stripped = match find_char(path_str, 0, '?') {
        Some(i) => path_str.substring_char(0, i),
        None => path_str,
    };
    let req_segs = split_segments(stripped);
    let route_segs = split_segments(route);
    let ghost rsegs = req_segs.deep_view();
    let ghost tsegs = route_segs.deep_view();
    let n = if req_segs.len() < route_segs.len() {
        req_segs.len()
    } else {
        route_segs.len()
    };
    let mut params: Vec<(String, String)> = Vec::new();
    proof {
        assert(param_map(params@) =~= Map::<Seq<char>, Seq<char>>::empty());
    }
    let mut i: usize = 0;
    while i < n
        invariant
            i <= n,
            n <= req_segs@.len(),
            n <= route_segs@.len(),
            n == if req_segs@.len() < route_segs@.len() {
                req_segs@.len()
            } else {
                route_segs@.len()
            },
            rsegs == req_segs.deep_view(),
            tsegs == route_segs.deep_view(),
            spec_bind_from(rsegs, tsegs, 0, Map::<Seq<char>, Seq<char>>::empty())
                == spec_bind_from(rsegs, tsegs, i as int, param_map(params@)),
            forall|a: int, b: int| 0 <= a < b < params@.len() ==> params@[a].0@ != params@[b].0@,
        decreases n - i,
    {
        let ghost m0 = param_map(params@);
        if seg_is_placeholder(route_segs[i].as_str()) {
            let name = placeholder_name_str(route_segs[i].as_str());
            if !params_contain_key(&params, name) {
                let entry = (name.to_owned(), req_segs[i].clone());
                proof {
                    lemma_param_map_dom(params@, name@);
                    lemma_param_map_push(params@, entry);
                }
                params.push(entry);
            }
        }
        proof {
            assert(param_map(params@) == if is_placeholder(tsegs[i as int]) && !m0.contains_key(
                placeholder_name(tsegs[i as int]),
            ) {
                m0.insert(placeholder_name(tsegs[i as int]), rsegs[i as int])
            } else {
                m0
            });
            assert(spec_bind_from(rsegs, tsegs, i as int, m0) == spec_bind_from(
                rsegs,
                tsegs,
                i as int + 1,
                param_map(params@),
            ));
        }
        i = i + 1;
    }
    proof {
        assert(spec_bind_from(rsegs, tsegs, n as int, param_map(params@)) == param_map(params@));
    }
    request.params = params;
}

} // verus!
