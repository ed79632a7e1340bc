//! Cookies: which captured cookies count, how they become a `cookie` header, and how
//! a value is read back out of such a header.
use vstd::prelude::*;
use vstd::string::*;
use crate::string_map::{Entries, StringMap};
use crate::text::{
    find_char, find_char_index, has_suffix, lemma_find_char_bounds, str_ends_with, str_equal,
    trim, trim_str,
};

verus! {

/// The key and value of one `key=value` part of a cookie header, once trimmed;
/// nothing where the part has no `=`.
pub open spec fn part_pair(part: Seq<char>) -> Option<(Seq<char>, Seq<char>)> {
    let t = trim(part);
    let i = find_char(t, '=');
    if i < t.len() {
        Some((t.take(i), t.skip(i + 1)))
    } else {
        None
    }
}

/// The value of the first `;`-separated part of header `h` whose key is `name`.
pub open spec fn cookie_value_of(h: Seq<char>, name: Seq<char>) -> Option<Seq<char>>
    decreases h.len(),
{
    let i = find_char(h, ';');
    let here = match part_pair(h.take(i)) {
        Some((k, v)) => if k == name {
            Some(v)
        } else {
            None
        },
        None => None,
    };
    if here is Some {
        here
    } else if i < h.len() {
        proof {
            lemma_find_char_bounds(h, ';');
        }
        cookie_value_of(h.skip(i + 1), name)
    } else {
        None
    }
}

/// `name=value`.
pub open spec fn cookie_pair(name: Seq<char>, value: Seq<char>) -> Seq<char> {
    name + "="@ + value
}

/// The `cookie` header for the given cookies: their pairs, joined by `"; "`.
pub open spec fn cookie_header_of(e: Entries) -> Seq<char>
    decreases e.len(),
{
    if e.len() == 0 {
        Seq::empty()
    } else if e.len() == 1 {
        cookie_pair(e[0].0, e[0].1)
    } else {
        cookie_header_of(e.drop_last()) + "; "@ + cookie_pair(e.last().0, e.last().1)
    }
}

/// `s` without its leading dots.
pub open spec fn strip_leading_dots(s: Seq<char>) -> Seq<char>
    decreases s.len(),
{
    if s.len() > 0 && s[0] == '.' {
        strip_leading_dots(s.drop_first())
    } else {
        s
    }
}

/// Whether a cookie of `domain` belongs to YouTube: the domain, without leading dots,
/// is `youtube.com` or a subdomain of it.
pub open spec fn youtube_domain(domain: Seq<char>) -> bool {
    let d = strip_leading_dots(domain);
    d == "youtube.com"@ || has_suffix(d, ".youtube.com"@)
}

/// The bit pattern of positive infinity.
pub open spec fn infinity_bits() -> u64 {
    0x7ff0_0000_0000_0000
}

/// Whether a cookie has expired: `expires > 0.0 && expires <= now`, on the IEEE-754
/// bit patterns of the two `f64` values. Positive values and zero (with positive
/// infinity) are ordered as their patterns; every other pattern is a negative number
/// or a NaN, for which either comparison fails.
pub open spec fn cookie_expired(expires_bits: u64, now_bits: u64) -> bool {
    &&& 0 < expires_bits <= infinity_bits()
    &&& expires_bits <= now_bits
    &&& now_bits <= infinity_bits()
}

/// `cookie_value`: the value of the first part of `header` whose key is `name`.
pub fn cookie_value<'a>(header: &'a str, name: &str) -> (r: Option<&'a str>)
    ensures
        match r {
            Some(v) => cookie_value_of(header@, name@) == Some(v@),
            None => cookie_value_of(header@, name@) is None,
        },
{
    let n = header.unicode_len();
    let mut start: usize = 0;
    assert(header@.skip(0) =~= header@);
    while start <= n
        invariant
            n == header@.len(),
            start <= n,
            cookie_value_of(header@, name@) == cookie_value_of(header@.skip(start as int), name@),
        decreases n - start,
    {
        let rest = header.substring_char(start, n);
        assert(rest@ =~= header@.skip(start as int));
        let i = find_char_index(rest, ';');
        let part = rest.substring_char(0, i);
        assert(part@ =~= rest@.take(i as int));
        let t = trim_str(part);
        let tn = t.unicode_len();
        let j = find_char_index(t, '=');
        if j < tn {
            let key = t.substring_char(0, j);
            if str_equal(key, name) {
                let value = t.substring_char(j + 1, tn);
                assert(key@ =~= t@.take(j as int));
                assert(value@ =~= t@.skip(j + 1));
                return Some(value);
            }
            assert(key@ =~= t@.take(j as int));
        }
        if i < rest.unicode_len() {
            assert(rest@.skip(i + 1) =~= header@.skip(start + i + 1));
            start = start + i + 1;
        } else {
            return None;
        }
    }
    None
}

/// `is_youtube_domain`.
pub fn is_youtube_domain(domain: &str) -> (r: bool)
    ensures
        r == youtube_domain(domain@),
{
    let n = domain.unicode_len();
    let mut i: usize = 0;
    assert(domain@.skip(0) =~= domain@);
    while i < n && domain.get_char(i) == '.'
        invariant
            n == domain@.len(),
            i <= n,
            strip_leading_dots(domain@) == strip_leading_dots(domain@.skip(i as int)),
        decreases n - i,
    {
        assert(domain@.skip(i as int).drop_first() =~= domain@.skip(i + 1));
        i = i + 1;
    }
    let d = domain.substring_char(i, n);
    assert(d@ =~= domain@.skip(i as int));
    assert(strip_leading_dots(d@) == d@) by {
        if d@.len() > 0 {
            assert(d@[0] == domain@[i as int]);
        }
    }
    str_equal(d, "youtube.com") || str_ends_with(d, ".youtube.com")
}

/// Whether a cookie that expires at `expires_bits` has expired at `now_bits`
/// (both `f64` bit patterns of seconds since the Unix epoch).
pub fn is_cookie_expired(expires_bits: u64, now_bits: u64) -> (r: bool)
    ensures
        r == cookie_expired(expires_bits, now_bits),
{
    0 < expires_bits && expires_bits <= 0x7ff0_0000_0000_0000 && expires_bits <= now_bits && now_bits
        <= 0x7ff0_0000_0000_0000
}

/// The `cookie` header for `cookies`: `name=value` pairs in key order, joined by `"; "`.
pub fn cookie_header(cookies: &StringMap) -> (h: String)
    ensures
        h@ == cookie_header_of(cookies@),
{
    let n = cookies.len();
    let mut h = String::new();
    let mut i: usize = 0;
    assert(cookies@.take(0) =~= Seq::<(Seq<char>, Seq<char>)>::empty());
    while i < n
        invariant
            n == cookies@.len(),
            i <= n,
            h@ == cookie_header_of(cookies@.take(i as int)),
        decreases n - i,
    {
        let ghost prev = cookies@.take(i as int);
        if i > 0 {
            h.append("; ");
        }
        h.append(cookies.key_at(i));
        h.append("=");
        h.append(cookies.value_at(i));
        let ghost next = cookies@.take(i + 1);
        assert(next.drop_last() =~= prev);
        assert(next.last() == cookies@[i as int]);
        if i == 0 {
            assert(h@ =~= cookie_pair(next[0].0, next[0].1));
        } else {
            assert(h@ =~= cookie_header_of(prev) + "; "@ + cookie_pair(next.last().0, next.last().1));
        }
        i = i + 1;
    }
    assert(cookies@.take(n as int) =~= cookies@);
    h
}

} // verus!
