//! The display order of endpoints: by IP address where both parse as one,
//! otherwise by text.

use vstd::prelude::*;

use crate::text::chars_of;

verus! {

/// What `str::parse::<IpAddr>` makes of `s`: `None` where it fails, else the
/// family (0 for IPv4, 1 for IPv6) and the address as a number.
pub uninterp spec fn ip_key_of(s: Seq<char>) -> Option<(u8, u128)>;

/// Relies on `str::parse::<core::net::IpAddr>`. `IpAddr` orders IPv4 before
/// IPv6 and, within a family, by the address's numeric value, so the pair
/// returned here orders as the parsed address does.
#[verifier::external_body]
fn ip_key(s: &str) -> (r: Option<(u8, u128)>)
    ensures
        r == ip_key_of(s@),
{
    match s.parse::<core::net::IpAddr>() {
        Ok(core::net::IpAddr::V4(a)) => Some((0, u32::from(a) as u128)),
        Ok(core::net::IpAddr::V6(a)) => Some((1, u128::from(a))),
        Err(_) => None,
    }
}

/// Lexicographic order of character sequences by code point, which is the
/// order of `str`.
pub open spec fn text_le(a: Seq<char>, b: Seq<char>) -> bool
    decreases a.len(),
{
    if a.len() == 0 {
        true
    } else if b.len() == 0 {
        false
    } else if a[0] != b[0] {
        a[0] < b[0]
    } else {
        text_le(a.drop_first(), b.drop_first())
    }
}

/// The order of parsed addresses.
pub open spec fn key_lt(x: (u8, u128), y: (u8, u128)) -> bool {
    x.0 < y.0 || (x.0 == y.0 && x.1 < y.1)
}

/// Whether `a` may stand before `b`: by address where both parse, with ties
/// broken by text; by text otherwise.
pub open spec fn endpoint_le(a: Seq<char>, b: Seq<char>) -> bool {
    match (ip_key_of(a), ip_key_of(b)) {
        (Some(x), Some(y)) => key_lt(x, y) || (x == y && text_le(a, b)),
        _ => text_le(a, b),
    }
}

/// Each consecutive pair of `s` is in order.
pub open spec fn in_display_order(s: Seq<Seq<char>>) -> bool {
    forall|i: int| 0 <= i < s.len() - 1 ==> endpoint_le(#[trigger] s[i], s[i + 1])
}

proof fn lemma_text_total(a: Seq<char>, b: Seq<char>)
    ensures
        text_le(a, b) || text_le(b, a),
    decreases a.len(),
{
    if a.len() > 0 && b.len() > 0 && a[0] == b[0] {
        lemma_text_total(a.drop_first(), b.drop_first());
    }
}

/// Any two endpoints are comparable.
pub proof fn lemma_endpoint_total(a: Seq<char>, b: Seq<char>)
    ensures
        endpoint_le(a, b) || endpoint_le(b, a),
{
    lemma_text_total(a, b);
}

/// Whether `a` comes no later than `b` in text order.
fn text_le_exec(a: &Vec<char>, b: &Vec<char>) -> (r: bool)
    ensures
        r == text_le(a@, b@),
{
    let mut j: usize = 0;
    assert(a@.subrange(0, a@.len() as int) =~= a@);
    assert(b@.subrange(0, b@.len() as int) =~= b@);
    while j < a.len() && j < b.len() && a[j] == b[j]
        invariant
            j <= a.len(),
            j <= b.len(),
            text_le(a@, b@) == text_le(
                a@.subrange(j as int, a@.len() as int),
                b@.subrange(j as int, b@.len() as int),
            ),
        decreases a.len() - j,
    {
        let ghost ra = a@.subrange(j as int, a@.len() as int);
        let ghost rb = b@.subrange(j as int, b@.len() as int);
        assert(ra.drop_first() =~= a@.subrange(j + 1, a@.len() as int));
        assert(rb.drop_first() =~= b@.subrange(j + 1, b@.len() as int));
        j += 1;
    }
    let ghost ra = a@.subrange(j as int, a@.len() as int);
    let ghost rb = b@.subrange(j as int, b@.len() as int);
    if j == a.len() {
        true
    } else if j == b.len() {
        false
    } else {
        assert(ra[0] == a@[j as int] && rb[0] == b@[j as int]);
        a[j] < b[j]
    }
}

/// Whether endpoint `a` may stand before endpoint `b`.
pub fn endpoint_le_exec(a: &String, b: &String) -> (r: bool)
    ensures
        r == endpoint_le(a@, b@),
{
    let ka = ip_key(a.as_str());
    let kb = ip_key(b.as_str());
    let ta = chars_of(a.as_str());
    let tb = chars_of(b.as_str());
    match (ka, kb) {
        (Some(x), Some(y)) => x.0 < y.0 || (x.0 == y.0 && x.1 < y.1) || (x.0 == y.0 && x.1 == y.1
            && text_le_exec(&ta, &tb)),
        _ => text_le_exec(&ta, &tb),
    }
}

/// The endpoints of `v` in display order.
pub fn sort_endpoints(v: &Vec<String>) -> (r: Vec<String>)
    requires
        v.deep_view().no_duplicates(),
    ensures
        r.deep_view().no_duplicates(),
        r.deep_view().to_set() == v.deep_view().to_set(),
        r.len() == v.len(),
        in_display_order(r.deep_view()),
{
    let mut out: Vec<String> = Vec::new();
    let mut k: usize = 0;
    while k < v.len()
        invariant
            k <= v.len(),
            v.deep_view().no_duplicates(),
            out.deep_view().no_duplicates(),
            out.deep_view().to_set() == v.deep_view().subrange(0, k as int).to_set(),
            out.len() == k,
            in_display_order(out.deep_view()),
        decreases v.len() - k,
    {
        let x = v[k].clone();
        let ghost xv = x@;
        assert(xv == v.deep_view()[k as int]);
        let mut j: usize = 0;
        while j < out.len() && !endpoint_le_exec(&x, &out[j])
            invariant
                j <= out.len(),
                x@ == xv,
                forall|i: int| 0 <= i < j ==> endpoint_le(#[trigger] out.deep_view()[i], xv),
            decreases out.len() - j,
        {
            proof {
                lemma_endpoint_total(xv, out.deep_view()[j as int]);
            }
            j += 1;
        }
        let ghost old_out = out.deep_view();
        let ghost vk = v.deep_view().subrange(0, k as int);
        proof {
            if old_out.contains(xv) {
                assert(vk.to_set().contains(xv));
                let i = choose|i: int| 0 <= i < k && vk[i] == xv;
                assert(v.deep_view()[i] == v.deep_view()[k as int]);
            }
        }
        out.insert(j, x);
        let ghost new_out = out.deep_view();
        assert(new_out =~= old_out.insert(j as int, xv));
        assert forall|i: int| 0 <= i < new_out.len() - 1 implies endpoint_le(
            #[trigger] new_out[i],
            new_out[i + 1],
        ) by {
            if i + 1 < j {
            } else if i + 1 == j {
            } else if i == j {
            } else {
                assert(new_out[i] == old_out[i - 1]);
            }
        }
        assert forall|a: int, b: int| 0 <= a < b < new_out.len() implies new_out[a] != new_out[b] by {
            if a < j && b < j {
            } else if a < j && b == j {
                assert(old_out.contains(old_out[a]));
            } else if a < j {
                assert(old_out[a] != old_out[b - 1]);
            } else if a == j {
                assert(old_out.contains(old_out[b - 1]));
            } else {
                assert(old_out[a - 1] != old_out[b - 1]);
            }
        }
        assert(v.deep_view().subrange(0, k + 1) =~= vk.push(xv));
        assert(new_out.to_set() =~= vk.push(xv).to_set()) by {
            assert forall|e: Seq<char>| new_out.contains(e) implies vk.push(xv).contains(e) by {
                let i = choose|i: int| 0 <= i < new_out.len() && new_out[i] == e;
                if i < j {
                    assert(old_out.contains(old_out[i]));
                    assert(vk.to_set().contains(e));
                    let i2 = choose|i2: int| 0 <= i2 < vk.len() && vk[i2] == e;
                    assert(vk.push(xv)[i2] == e);
                } else if i == j {
                    assert(vk.push(xv)[k as int] == e);
                } else {
                    assert(old_out.contains(old_out[i - 1]));
                    assert(vk.to_set().contains(e));
                    let i2 = choose|i2: int| 0 <= i2 < vk.len() && vk[i2] == e;
                    assert(vk.push(xv)[i2] == e);
                }
            }
            assert forall|e: Seq<char>| vk.push(xv).contains(e) implies new_out.contains(e) by {
                let i = choose|i: int| 0 <= i < vk.push(xv).len() && vk.push(xv)[i] == e;
                if i < k {
                    assert(vk[i] == e);
                    assert(vk.to_set().contains(e));
                    assert(old_out.contains(e));
                    let i2 = choose|i2: int| 0 <= i2 < old_out.len() && old_out[i2] == e;
                    if i2 < j {
                        assert(new_out[i2] == e);
                    } else {
                        assert(new_out[i2 + 1] == e);
                    }
                } else {
                    assert(new_out[j as int] == e);
                }
            }
        }
        k += 1;
    }
    assert(v.deep_view().subrange(0, k as int) =~= v.deep_view());
    out
}

} // verus!
