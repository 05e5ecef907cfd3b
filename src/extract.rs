//! Reading the remote endpoints out of a socket listing.
//!
//! The listing has a header line, then one line per socket. A connected
//! socket shows `local->remote`; the remote endpoint runs from just after the
//! first `->` of its line up to the first whitespace or `:`. Unbracketed IPv6
//! literals therefore end at their first `:` and are dropped.

use vstd::prelude::*;

use crate::text::{chars_of, is_space, push_unique, space_char, string_of, sub_chars};

verus! {

/// A `->` marker starts at `p`.
pub open spec fn arrow_at(s: Seq<char>, p: int) -> bool {
    0 <= p && p + 1 < s.len() && s[p] == '-' && s[p + 1] == '>'
}

/// The index at which the line holding position `p` starts.
pub open spec fn line_start(s: Seq<char>, p: int) -> int
    decreases p,
{
    if p <= 0 {
        0
    } else if s[p - 1] == '\n' {
        p
    } else {
        line_start(s, p - 1)
    }
}

proof fn lemma_line_start_bound(s: Seq<char>, p: int)
    requires
        0 <= p,
    ensures
        0 <= line_start(s, p) <= p,
    decreases p,
{
    if p > 0 && s[p - 1] != '\n' {
        lemma_line_start_bound(s, p - 1);
    }
}

/// A character that ends an endpoint.
pub open spec fn ends_token(c: char) -> bool {
    space_char(c) || c == ':'
}

/// The first index from `i` on that holds a character ending an endpoint,
/// or the length of `s` where there is none.
pub open spec fn token_end(s: Seq<char>, i: int) -> int
    decreases s.len() - i,
{
    if 0 <= i < s.len() {
        if ends_token(s[i]) {
            i
        } else {
            token_end(s, i + 1)
        }
    } else {
        s.len() as int
    }
}

/// The text that follows the marker at `p`, up to the end of the endpoint.
pub open spec fn candidate(s: Seq<char>, p: int) -> Seq<char> {
    s.subrange(p + 2, token_end(s, p + 2))
}

/// A candidate that is kept: non-empty, with a `.` or a `:`.
pub open spec fn acceptable(c: Seq<char>) -> bool {
    c.len() > 0 && (c.contains('.') || c.contains(':'))
}

/// A candidate with its surrounding brackets removed, if it has both.
pub open spec fn unbracket(c: Seq<char>) -> Seq<char> {
    if c.len() >= 2 && c[0] == '[' && c[c.len() - 1] == ']' {
        c.subrange(1, c.len() - 1)
    } else {
        c
    }
}

/// The marker at `p` is the first of its line, that line is not the header,
/// and what follows it is an acceptable candidate.
pub open spec fn reported_at(s: Seq<char>, p: int) -> bool {
    &&& arrow_at(s, p)
    &&& line_start(s, p) > 0
    &&& forall|q: int| line_start(s, p) <= q < p ==> !arrow_at(s, q)
    &&& acceptable(candidate(s, p))
}

/// The endpoints reported at markers before position `limit`.
pub open spec fn endpoints_before(s: Seq<char>, limit: int) -> Set<Seq<char>> {
    Set::new(|e: Seq<char>| exists|p: int| p < limit && reported_at(s, p) && unbracket(candidate(s, p)) == e)
}

/// The remote endpoints of a whole listing.
pub open spec fn endpoint_set(s: Seq<char>) -> Set<Seq<char>> {
    endpoints_before(s, s.len() as int)
}

/// The endpoints reported at markers before position `limit`, in order,
/// repeats included.
pub open spec fn reports_before(s: Seq<char>, limit: int) -> Seq<Seq<char>>
    decreases limit,
{
    if limit <= 0 {
        Seq::empty()
    } else if reported_at(s, limit - 1) {
        reports_before(s, limit - 1).push(unbracket(candidate(s, limit - 1)))
    } else {
        reports_before(s, limit - 1)
    }
}

/// `q` with every element after its first occurrence removed.
pub open spec fn first_occurrences(q: Seq<Seq<char>>) -> Seq<Seq<char>>
    decreases q.len(),
{
    if q.len() == 0 {
        Seq::empty()
    } else {
        let prev = first_occurrences(q.drop_last());
        if prev.contains(q.last()) {
            prev
        } else {
            prev.push(q.last())
        }
    }
}

/// The endpoints of a listing, each once, in the order of first appearance.
pub open spec fn extracted(s: Seq<char>) -> Seq<Seq<char>> {
    first_occurrences(reports_before(s, s.len() as int))
}

/// An endpoint as the extractor can return it: non-empty, with a `.` or a `:`.
pub open spec fn endpoint_shape(e: Seq<char>) -> bool {
    e.len() > 0 && (e.contains('.') || e.contains(':'))
}

/// Every endpoint of every listing is non-empty and holds a `.` or a `:`.
pub proof fn lemma_endpoint_shape(s: Seq<char>, e: Seq<char>)
    requires
        endpoint_set(s).contains(e),
    ensures
        endpoint_shape(e),
{
    let p = choose|p: int| p < s.len() && reported_at(s, p) && unbracket(candidate(s, p)) == e;
    lemma_unbracket_keeps_shape(candidate(s, p));
}

proof fn lemma_unbracket_keeps_shape(c: Seq<char>)
    requires
        acceptable(c),
    ensures
        endpoint_shape(unbracket(c)),
{
    if c.len() >= 2 && c[0] == '[' && c[c.len() - 1] == ']' {
        let u = unbracket(c);
        let k = choose|k: int| 0 <= k < c.len() && (c[k] == '.' || c[k] == ':');
        assert(1 <= k < c.len() - 1);
        assert(u[k - 1] == c[k]);
    }
}

proof fn lemma_token_end_run(s: Seq<char>, i: int)
    requires
        0 <= i <= s.len(),
    ensures
        i <= token_end(s, i) <= s.len(),
        forall|k: int| i <= k < token_end(s, i) ==> !ends_token(#[trigger] s[k]),
    decreases s.len() - i,
{
    if i < s.len() && !ends_token(s[i]) {
        lemma_token_end_run(s, i + 1);
    }
}

/// Every endpoint of every listing is free of whitespace.
pub proof fn lemma_endpoint_has_no_space(s: Seq<char>, e: Seq<char>)
    requires
        endpoint_set(s).contains(e),
    ensures
        forall|k: int| 0 <= k < e.len() ==> !space_char(#[trigger] e[k]),
{
    let p = choose|p: int| p < s.len() && reported_at(s, p) && unbracket(candidate(s, p)) == e;
    lemma_token_end_run(s, p + 2);
    let c = candidate(s, p);
    assert forall|k: int| 0 <= k < e.len() implies !space_char(#[trigger] e[k]) by {
        if c.len() >= 2 && c[0] == '[' && c[c.len() - 1] == ']' {
            assert(e[k] == c[k + 1]);
            assert(c[k + 1] == s[p + 2 + k + 1]);
        } else {
            assert(e[k] == s[p + 2 + k]);
        }
    }
}

/// The end of the endpoint that starts at `start`.
fn find_token_end(s: &Vec<char>, start: usize) -> (e: usize)
    requires
        start <= s.len(),
    ensures
        e as int == token_end(s@, start as int),
        start <= e <= s.len(),
{
    let mut e: usize = start;
    while e < s.len() && !(is_space(s[e]) || s[e] == ':')
        invariant
            start <= e <= s.len(),
            token_end(s@, start as int) == token_end(s@, e as int),
        decreases s.len() - e,
    {
        e += 1;
    }
    e
}

/// Whether `s[a..b]` is non-empty and holds a `.` or a `:`.
fn is_acceptable(s: &Vec<char>, a: usize, b: usize) -> (r: bool)
    requires
        a <= b <= s.len(),
    ensures
        r == acceptable(s@.subrange(a as int, b as int)),
{
    let ghost c = s@.subrange(a as int, b as int);
    let mut dot = false;
    let mut colon = false;
    let mut k: usize = a;
    while k < b
        invariant
            a <= k <= b <= s.len(),
            c == s@.subrange(a as int, b as int),
            dot == exists|j: int| 0 <= j < k - a && c[j] == '.',
            colon == exists|j: int| 0 <= j < k - a && c[j] == ':',
        decreases b - k,
    {
        if s[k] == '.' {
            assert(c[k - a] == '.');
            dot = true;
        }
        if s[k] == ':' {
            assert(c[k - a] == ':');
            colon = true;
        }
        k += 1;
    }
    b > a && (dot || colon)
}

/// The set of remote endpoints that a socket listing shows, each once.
///
/// The first line is a header and is skipped. Every later line contributes
/// the text after its first `->`, up to whitespace or `:`, when that text is
/// non-empty and holds a `.` or a `:`; surrounding brackets are removed.
pub fn extract_endpoints(output: &str) -> (r: Vec<String>)
    ensures
        r.deep_view() == extracted(output@),
        r.deep_view().no_duplicates(),
        r.deep_view().to_set() == endpoint_set(output@),
        forall|i: int| 0 <= i < r.len() ==> endpoint_shape(#[trigger] r.deep_view()[i]),
{
    let s = chars_of(output);
    let n = s.len();
    let mut r: Vec<String> = Vec::new();
    let mut in_body = false;
    let mut found = false;
    let mut i: usize = 0;
    while i < n
        invariant
            s@ == output@,
            n == s.len(),
            i <= n,
            in_body == (line_start(s@, i as int) > 0),
            in_body ==> (found == exists|q: int| line_start(s@, i as int) <= q < i && arrow_at(s@, q)),
            r.deep_view() == first_occurrences(reports_before(s@, i as int)),
            r.deep_view().no_duplicates(),
            r.deep_view().to_set() == endpoints_before(s@, i as int),
        decreases n - i,
    {
        let ghost found_before = found;
        if s[i] == '\n' {
            in_body = true;
            found = false;
        } else if in_body && !found && i + 1 < n && s[i] == '-' && s[i + 1] == '>' {
            found = true;
            let start = i + 2;
            let e = find_token_end(&s, start);
            if is_acceptable(&s, start, e) {
                let (a, b) = if e - start >= 2 && s[start] == '[' && s[e - 1] == ']' {
                    (start + 1, e - 1)
                } else {
                    (start, e)
                };
                let piece = sub_chars(&s, a, b);
                assert(piece@ == unbracket(candidate(s@, i as int)));
                let ep = string_of(&piece);
                let ghost q = reports_before(s@, i as int);
                assert(reports_before(s@, i + 1).drop_last() =~= q);
                push_unique(&mut r, ep);
            }
        }
        assert(endpoints_before(s@, i + 1) =~= if reported_at(s@, i as int) {
            endpoints_before(s@, i as int).insert(unbracket(candidate(s@, i as int)))
        } else {
            endpoints_before(s@, i as int)
        });
        proof {
            lemma_line_start_bound(s@, i as int);
            if s@[i as int] != '\n' {
                assert(line_start(s@, i + 1) == line_start(s@, i as int));
                if in_body && found_before {
                    let q = choose|q: int| line_start(s@, i as int) <= q < i && arrow_at(s@, q);
                    assert(line_start(s@, i + 1) <= q < i + 1 && arrow_at(s@, q));
                }
                if in_body && !found_before && arrow_at(s@, i as int) {
                    assert(line_start(s@, i + 1) <= i < i + 1 && arrow_at(s@, i as int));
                }
            }
        }
        i += 1;
    }
    proof {
        assert forall|k: int| 0 <= k < r.len() implies endpoint_shape(#[trigger] r.deep_view()[k]) by {
            assert(r.deep_view().to_set().contains(r.deep_view()[k]));
            lemma_endpoint_shape(output@, r.deep_view()[k]);
        }
    }
    r
}

} // verus!
