//! The poller's decisions: which PID to watch, which endpoints are new, and
//! the message that each poll sends to the view model.

use vstd::prelude::*;

use crate::extract::{
    endpoint_set, extract_endpoints, extracted, lemma_endpoint_has_no_space, lemma_endpoint_shape,
};
use crate::order::{in_display_order, sort_endpoints};
use crate::text::{
    ascii_space_char, chars_of, contains_string, is_space, space_char, string_of, sub_chars,
};
use crate::view::{last_token, token_start, trimmed_end, BackgroundEvent};

verus! {

/// A wall-clock time of the shape `HH:MM:SS`.
pub open spec fn clock_shape(t: Seq<char>) -> bool {
    &&& t.len() == 8
    &&& t[2] == ':'
    &&& t[5] == ':'
    &&& forall|i: int|
        0 <= i < 8 && i != 2 && i != 5 ==> '0' <= #[trigger] t[i] && t[i] <= '9'
}

/// Relies on chrono's `Local::now` and its `%H:%M:%S` format: hour, minute
/// and second of the local time, each as two zero-padded digits.
#[verifier::external_body]
fn local_clock() -> (r: String)
    ensures
        clock_shape(r@),
{
    chrono::Local::now().format("%H:%M:%S").to_string()
}

/// The history entry for `endpoint` first seen at `stamp`.
pub open spec fn entry_text(stamp: Seq<char>, endpoint: Seq<char>) -> Seq<char> {
    "["@ + stamp + "] "@ + endpoint
}

proof fn lemma_token_start_run(s: Seq<char>, a: int, j: int)
    requires
        0 < a <= j <= s.len(),
        ascii_space_char(s[a - 1]),
        forall|k: int| a <= k < j ==> !ascii_space_char(#[trigger] s[k]),
    ensures
        token_start(s, j) == a,
    decreases j,
{
    if j > a {
        lemma_token_start_run(s, a, j - 1);
    }
}

/// The history entry that the poller writes for an endpoint of a listing
/// ends in that endpoint as its last token, so the seen-endpoint index over
/// such entries holds exactly their endpoints.
pub proof fn lemma_entry_token(listing: Seq<char>, stamp: Seq<char>, e: Seq<char>)
    requires
        clock_shape(stamp),
        endpoint_set(listing).contains(e),
    ensures
        last_token(entry_text(stamp, e)) == e,
{
    lemma_endpoint_shape(listing, e);
    lemma_endpoint_has_no_space(listing, e);
    reveal_strlit("[");
    reveal_strlit("] ");
    let s = entry_text(stamp, e);
    assert(s.len() == 11 + e.len());
    assert(s[10] == ' ');
    assert forall|k: int| 11 <= k < s.len() implies !ascii_space_char(#[trigger] s[k]) by {
        assert(s[k] == e[k - 11]);
        assert(!space_char(e[k - 11]));
    }
    assert(trimmed_end(s, s.len() as int) == s.len());
    lemma_token_start_run(s, 11, s.len() as int);
    assert(s.subrange(11, s.len() as int) =~= e);
}

/// The history entry `[stamp] endpoint`.
pub fn history_entry(stamp: &str, endpoint: &str) -> (r: String)
    ensures
        r@ == entry_text(stamp@, endpoint@),
{
    let mut r = String::from_str("[");
    r.append(stamp);
    r.append("] ");
    r.append(endpoint);
    r
}

/// Each entry of `entries` is the history entry of the endpoint at the same
/// index of `endpoints`, stamped with some wall-clock time.
pub open spec fn stamped(entries: Seq<Seq<char>>, endpoints: Seq<Seq<char>>) -> bool {
    &&& entries.len() == endpoints.len()
    &&& forall|i: int|
        0 <= i < entries.len() ==> exists|t: Seq<char>|
            clock_shape(t) && #[trigger] entries[i] == entry_text(t, endpoints[i])
}

proof fn lemma_stamped_push(entries: Seq<Seq<char>>, endpoints: Seq<Seq<char>>, t: Seq<char>, e: Seq<char>)
    requires
        stamped(entries, endpoints),
        clock_shape(t),
    ensures
        stamped(entries.push(entry_text(t, e)), endpoints.push(e)),
{
    let es = entries.push(entry_text(t, e));
    let ps = endpoints.push(e);
    assert forall|i: int| 0 <= i < es.len() implies exists|u: Seq<char>|
        clock_shape(u) && #[trigger] es[i] == entry_text(u, ps[i]) by {
        if i < entries.len() {
            let u = choose|u: Seq<char>| clock_shape(u) && #[trigger] entries[i] == entry_text(u, endpoints[i]);
            assert(es[i] == entry_text(u, ps[i]));
        } else {
            assert(es[i] == entry_text(t, ps[i]));
        }
    }
}

/// The endpoints of `active` that are neither in `known` nor earlier in
/// `active`, in order.
pub open spec fn fresh_endpoints(active: Seq<Seq<char>>, known: Seq<Seq<char>>) -> Seq<Seq<char>>
    decreases active.len(),
{
    if active.len() == 0 {
        Seq::empty()
    } else {
        let prev = fresh_endpoints(active.drop_last(), known);
        if (known + prev).contains(active.last()) {
            prev
        } else {
            prev.push(active.last())
        }
    }
}

/// The first index from `i` on that holds no whitespace, or the length.
pub open spec fn skip_space(s: Seq<char>, i: int) -> int
    decreases s.len() - i,
{
    if 0 <= i < s.len() && space_char(s[i]) {
        skip_space(s, i + 1)
    } else {
        i
    }
}

/// The first index from `i` on that holds a line feed, or the length.
pub open spec fn line_end(s: Seq<char>, i: int) -> int
    decreases s.len() - i,
{
    if 0 <= i < s.len() && s[i] != '\n' {
        line_end(s, i + 1)
    } else {
        i
    }
}

/// The end of `s[a..b]` without its trailing whitespace.
pub open spec fn trim_back(s: Seq<char>, a: int, b: int) -> int
    decreases b - a,
{
    if a < b && space_char(s[b - 1]) {
        trim_back(s, a, b - 1)
    } else {
        b
    }
}

/// The first line of `s` that holds more than whitespace, trimmed; `None`
/// where there is none.
pub open spec fn first_pid_text(s: Seq<char>) -> Option<Seq<char>> {
    let a = skip_space(s, 0);
    if a >= s.len() {
        None
    } else {
        Some(s.subrange(a, trim_back(s, a, line_end(s, a))))
    }
}

/// The PID that a process lookup printed: its first non-blank line, trimmed.
pub fn first_pid(output: &str) -> (r: Option<String>)
    ensures
        match r {
            Some(p) => first_pid_text(output@) == Some(p@) && p@.len() > 0,
            None => first_pid_text(output@).is_none(),
        },
{
    let s = chars_of(output);
    let n = s.len();
    let mut a: usize = 0;
    while a < n && is_space(s[a])
        invariant
            a <= n == s.len(),
            skip_space(s@, 0) == skip_space(s@, a as int),
        decreases n - a,
    {
        a += 1;
    }
    if a >= n {
        return None;
    }
    assert(!space_char(s@[a as int]));
    let mut b: usize = a + 1;
    while b < n && s[b] != '\n'
        invariant
            a < b <= n == s.len(),
            line_end(s@, a as int) == line_end(s@, b as int),
        decreases n - b,
    {
        b += 1;
    }
    let mut c: usize = b;
    while c > a && is_space(s[c - 1])
        invariant
            a < c <= b,
            b <= n == s.len(),
            !space_char(s@[a as int]),
            trim_back(s@, a as int, b as int) == trim_back(s@, a as int, c as int),
        decreases c - a,
    {
        c -= 1;
    }
    let piece = sub_chars(&s, a, c);
    Some(string_of(&piece))
}

/// The PID to watch, or, where the lookup found no process, the message
/// `Waiting for process '<target>'...`.
pub fn pid_or_wait(target: &str, lookup_output: &str) -> (r: Result<String, BackgroundEvent>)
    ensures
        match first_pid_text(lookup_output@) {
            Some(p) => r matches Ok(q) && q@ == p,
            None => r matches Err(BackgroundEvent::Error(m)) && m@ == "Waiting for process '"@
                + target@ + "'..."@,
        },
{
    match first_pid(lookup_output) {
        Some(p) => Ok(p),
        None => {
            let mut m = String::from_str("Waiting for process '");
            m.append(target);
            m.append("'...");
            Err(BackgroundEvent::Error(m))
        },
    }
}

/// The message for a process lookup that could not be run.
pub fn lookup_error(detail: &str) -> (r: BackgroundEvent)
    ensures
        r matches BackgroundEvent::Error(m) && m@ == "PGREP Error: "@ + detail@,
{
    let mut m = String::from_str("PGREP Error: ");
    m.append(detail);
    BackgroundEvent::Error(m)
}

/// The message for a socket listing that could not be run.
pub fn listing_error(detail: &str) -> (r: BackgroundEvent)
    ensures
        r matches BackgroundEvent::Error(m) && m@ == "LSOF Error: "@ + detail@,
{
    let mut m = String::from_str("LSOF Error: ");
    m.append(detail);
    BackgroundEvent::Error(m)
}

/// The poller's memory of the endpoints it has announced.
pub struct Poller {
    pub announced: Vec<String>,
}

impl Poller {
    /// A poller that has announced nothing.
    pub fn new() -> (r: Poller)
        ensures
            r.announced@.len() == 0,
    {
        Poller { announced: Vec::new() }
    }

    /// Records the endpoints of `active` not announced before, and returns a
    /// history entry for each, stamped with the local time, in order.
    pub fn announce(&mut self, active: &Vec<String>) -> (entries: Vec<String>)
        ensures
            final(self).announced.deep_view() == old(self).announced.deep_view()
                + fresh_endpoints(active.deep_view(), old(self).announced.deep_view()),
            stamped(
                entries.deep_view(),
                fresh_endpoints(active.deep_view(), old(self).announced.deep_view()),
            ),
    {
        let ghost known = self.announced.deep_view();
        let ghost a = active.deep_view();
        let mut entries: Vec<String> = Vec::new();
        let mut k: usize = 0;
        while k < active.len()
            invariant
                k <= active.len(),
                a == active.deep_view(),
                self.announced.deep_view() == known + fresh_endpoints(a.subrange(0, k as int), known),
                stamped(entries.deep_view(), fresh_endpoints(a.subrange(0, k as int), known)),
            decreases active.len() - k,
        {
            let ghost prev = fresh_endpoints(a.subrange(0, k as int), known);
            assert(a.subrange(0, k + 1).drop_last() =~= a.subrange(0, k as int));
            assert(a.subrange(0, k + 1).last() == active[k as int]@);
            let ghost x = active[k as int]@;
            assert(fresh_endpoints(a.subrange(0, k + 1), known) == if (known + prev).contains(x) {
                prev
            } else {
                prev.push(x)
            });
            if !contains_string(&self.announced, &active[k]) {
                let e = active[k].clone();
                let stamp = local_clock();
                let entry = history_entry(stamp.as_str(), e.as_str());
                let ghost before = self.announced.deep_view();
                let ghost before_entries = entries.deep_view();
                self.announced.push(e);
                entries.push(entry);
                assert(self.announced.deep_view() =~= before.push(x));
                assert(known + prev.push(x) =~= (known + prev).push(x));
                assert(entries.deep_view() =~= before_entries.push(entry_text(stamp@, x)));
                proof {
                    lemma_stamped_push(before_entries, prev, stamp@, x);
                }
            }
            k += 1;
        }
        assert(a.subrange(0, k as int) =~= a);
        entries
    }

    /// The message for a poll whose socket listing for process `pid` is
    /// `listing`: the listing's endpoints in display order, a history entry
    /// for each endpoint never announced before, and the status
    /// `Monitoring PID: <pid>`.
    pub fn process_listing(&mut self, pid: &str, listing: &str) -> (r: BackgroundEvent)
        ensures
            final(self).announced.deep_view() == old(self).announced.deep_view()
                + fresh_endpoints(extracted(listing@), old(self).announced.deep_view()),
            match r {
                BackgroundEvent::DataUpdate { active, new_history_entries, pid_msg } => {
                    &&& active.deep_view().no_duplicates()
                    &&& active.deep_view().to_set() == endpoint_set(listing@)
                    &&& in_display_order(active.deep_view())
                    &&& pid_msg@ == "Monitoring PID: "@ + pid@
                    &&& stamped(
                        new_history_entries.deep_view(),
                        fresh_endpoints(extracted(listing@), old(self).announced.deep_view()),
                    )
                },
                BackgroundEvent::Error(_) => false,
            },
    {
        let found = extract_endpoints(listing);
        let entries = self.announce(&found);
        let sorted = sort_endpoints(&found);
        let mut msg = String::from_str("Monitoring PID: ");
        msg.append(pid);
        BackgroundEvent::DataUpdate { active: sorted, new_history_entries: entries, pid_msg: msg }
    }
}

} // verus!
