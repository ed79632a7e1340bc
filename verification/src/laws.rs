//! Properties that hold across the operations of the library.
use vstd::prelude::*;
use vstd::string::*;
use crate::capture::{auth_from_capture, kept_cookies, keeps_cookie, music_url, CookieModel};
use crate::config::{
    config_from_cookies, header_of, initial_headers, validation_error, ConfigModel, YTM_ORIGIN,
};
use crate::cookies::{
    cookie_header_of, cookie_pair, cookie_value_of, part_pair, strip_leading_dots, youtube_domain,
};
use crate::json::{object_get, object_index, object_insert, JsonView, ObjectView};
use crate::session::{apply_session, with_on_behalf_of_user, SessionModel};
use crate::string_map::{lookup, sorted_insert, Entries};
use crate::text::{
    ascii_lower, eq_ignore_ascii_case, find_char, is_whitespace, lemma_find_char_bounds, trim,
    trim_end, trim_start,
};

verus! {

// ---------------------------------------------------------------------------
// Maps: what a read gives back of a write.

/// After `k` is mapped to `v`, `k` reads `v`, and every other key reads what it read before.
pub proof fn law_insert_then_lookup(s: Entries, k: Seq<char>, v: Seq<char>, other: Seq<char>)
    ensures
        lookup(sorted_insert(s, k, v), k) == Some(v),
        other != k ==> lookup(sorted_insert(s, k, v), other) == lookup(s, other),
    decreases s.len(),
{
    let r = sorted_insert(s, k, v);
    if s.len() == 0 {
        assert(r[0] == (k, v));
        assert(r.drop_first() =~= Seq::<(Seq<char>, Seq<char>)>::empty());
        assert(other != k ==> lookup(r, other) == lookup(s, other));
    } else if s[0].0 == k {
        assert(r[0] == (k, v));
        assert(r.drop_first() =~= s.drop_first());
        assert(other != k ==> lookup(r, other) == lookup(s, other));
    } else if crate::text::str_lt(k, s[0].0) {
        assert(r[0] == (k, v));
        assert(r.drop_first() =~= s);
        assert(other != k ==> lookup(r, other) == lookup(s, other));
    } else {
        law_insert_then_lookup(s.drop_first(), k, v, other);
        assert(r[0] == s[0]);
        assert(r.drop_first() =~= sorted_insert(s.drop_first(), k, v));
        assert(other != k ==> lookup(r, other) == lookup(s, other));
    }
}

// ---------------------------------------------------------------------------
// Headers: names are compared without regard to ASCII case.

/// Two names that are equal but for ASCII case read the same header.
pub proof fn law_header_name_case_insensitive(h: Entries, a: Seq<char>, b: Seq<char>)
    requires
        eq_ignore_ascii_case(a, b),
    ensures
        header_of(h, a) == header_of(h, b),
    decreases h.len(),
{
    if h.len() > 0 {
        assert(eq_ignore_ascii_case(h[0].0, a) == eq_ignore_ascii_case(h[0].0, b)) by {
            if eq_ignore_ascii_case(h[0].0, a) {
                assert forall|i: int| 0 <= i < h[0].0.len() implies ascii_lower(#[trigger] h[0].0[i])
                    == ascii_lower(b[i]) by {
                    assert(ascii_lower(h[0].0[i]) == ascii_lower(a[i]));
                    assert(ascii_lower(a[i]) == ascii_lower(b[i]));
                }
            }
            if eq_ignore_ascii_case(h[0].0, b) {
                assert forall|i: int| 0 <= i < h[0].0.len() implies ascii_lower(#[trigger] h[0].0[i])
                    == ascii_lower(a[i]) by {
                    assert(ascii_lower(h[0].0[i]) == ascii_lower(b[i]));
                    assert(ascii_lower(a[i]) == ascii_lower(b[i]));
                }
            }
        }
        law_header_name_case_insensitive(h.drop_first(), a, b);
    }
}

/// Setting a header with another name leaves what `name` reads unchanged.
pub proof fn lemma_header_of_insert_other(s: Entries, k: Seq<char>, v: Seq<char>, name: Seq<char>)
    requires
        !eq_ignore_ascii_case(k, name),
    ensures
        header_of(sorted_insert(s, k, v), name) == header_of(s, name),
    decreases s.len(),
{
    let r = sorted_insert(s, k, v);
    if s.len() == 0 {
        assert(r[0] == (k, v));
        assert(r.drop_first() =~= Seq::<(Seq<char>, Seq<char>)>::empty());
        assert(header_of(r, name) == header_of(s, name));
    } else if s[0].0 == k {
        assert(r[0] == (k, v));
        assert(r.drop_first() =~= s.drop_first());
        assert(header_of(r, name) == header_of(s, name));
    } else if crate::text::str_lt(k, s[0].0) {
        assert(r[0] == (k, v));
        assert(r.drop_first() =~= s);
        assert(header_of(r, name) == header_of(s, name));
    } else {
        lemma_header_of_insert_other(s.drop_first(), k, v, name);
        assert(r[0] == s[0]);
        assert(r.drop_first() =~= sorted_insert(s.drop_first(), k, v));
        assert(header_of(r, name) == header_of(s, name));
    }
}

/// The header that `name` reads is the first one whose name matches it.
proof fn lemma_header_of_first(h: Entries, name: Seq<char>, j: int)
    requires
        0 <= j <= h.len(),
        forall|i: int| 0 <= i < j ==> !eq_ignore_ascii_case(#[trigger] h[i].0, name),
        j < h.len() ==> eq_ignore_ascii_case(h[j].0, name),
    ensures
        header_of(h, name) == if j < h.len() {
            Some(h[j].1)
        } else {
            None
        },
    decreases j,
{
    if j > 0 {
        assert(!eq_ignore_ascii_case(h[0].0, name));
        assert forall|i: int| 0 <= i < j - 1 implies !eq_ignore_ascii_case(#[trigger] h.drop_first()[i].0, name) by {
            assert(h.drop_first()[i] == h[i + 1]);
        }
        if j < h.len() {
            assert(h.drop_first()[j - 1] == h[j]);
        }
        lemma_header_of_first(h.drop_first(), name, j - 1);
    }
}

/// Setting a key that is present replaces its value in place.
proof fn lemma_sorted_insert_replace(s: Entries, k: Seq<char>, v: Seq<char>, j: int)
    requires
        0 <= j < s.len(),
        s[j].0 == k,
        forall|i: int| 0 <= i < j ==> (#[trigger] s[i]).0 != k && !crate::text::str_lt(k, s[i].0),
    ensures
        sorted_insert(s, k, v) == s.update(j, (k, v)),
    decreases j,
{
    if j == 0 {
        assert(seq![(k, v)] + s.drop_first() =~= s.update(0, (k, v)));
    } else {
        assert(s[0].0 != k && !crate::text::str_lt(k, s[0].0));
        assert forall|i: int| 0 <= i < j - 1 implies (#[trigger] s.drop_first()[i]).0 != k
            && !crate::text::str_lt(k, s.drop_first()[i].0) by {
            assert(s.drop_first()[i] == s[i + 1]);
        }
        lemma_sorted_insert_replace(s.drop_first(), k, v, j - 1);
        assert(seq![s[0]] + s.drop_first().update(j - 1, (k, v)) =~= s.update(j, (k, v)));
    }
}

/// A configuration built from cookies, with a session applied, reads back the session's
/// account index and page from its headers, keeps its cookies, and has the first account
/// where the session names none.
pub proof fn law_session_identity_reaches_headers(
    browser: Option<Seq<char>>,
    cookies: Entries,
    user_agent: Seq<char>,
    missing_error: Seq<char>,
    s: SessionModel,
)
    requires
        config_from_cookies("login-window"@, browser, cookies, user_agent, missing_error) is Ok,
    ensures
        ({
            let c = apply_session(
                config_from_cookies("login-window"@, browser, cookies, user_agent, missing_error)->Ok_0,
                s,
            );
            &&& header_of(c.headers, "cookie"@) == Some(cookie_header_of(cookies))
            &&& header_of(c.headers, "x-goog-authuser"@) == Some(
                match s.session_index {
                    Some(i) => i,
                    None => "0"@,
                },
            )
            &&& header_of(c.headers, "x-goog-pageid"@) == crate::session::page_id_of(s)
        }),
{
    reveal_strlit("cookie");
    reveal_strlit("origin");
    reveal_strlit("user-agent");
    reveal_strlit("x-goog-authuser");
    reveal_strlit("x-goog-pageid");
    let h0 = initial_headers(cookies, user_agent);
    let auth = "x-goog-authuser"@;
    let page = "x-goog-pageid"@;
    assert(crate::text::str_lt("cookie"@, auth));
    assert(crate::text::str_lt("origin"@, auth));
    assert(crate::text::str_lt("user-agent"@, auth));
    crate::text::lemma_str_lt_trichotomy("cookie"@, auth);
    crate::text::lemma_str_lt_trichotomy("origin"@, auth);
    crate::text::lemma_str_lt_trichotomy("user-agent"@, auth);
    let index = match s.session_index {
        Some(i) => i,
        None => "0"@,
    };
    let h1 = match s.session_index {
        Some(i) => sorted_insert(h0, auth, i),
        None => h0,
    };
    if let Some(i) = s.session_index {
        lemma_sorted_insert_replace(h0, auth, i, 3);
    }
    assert(h1 =~= h0.update(3, (auth, index)));
    assert(crate::text::str_lt(auth, page)) by {
        reveal_with_fuel(crate::text::str_lt, 9);
    }
    assert forall|i: int| 0 <= i < h1.len() implies crate::text::str_lt(#[trigger] h1[i].0, page) by {
        if i < 3 {
            crate::text::lemma_str_lt_transitive(h1[i].0, auth, page);
        }
    }
    let h2 = match crate::session::page_id_of(s) {
        Some(p) => sorted_insert(h1, page, p),
        None => h1,
    };
    if let Some(p) = crate::session::page_id_of(s) {
        crate::string_map::lemma_sorted_insert_last(h1, page, p);
    }
    assert(eq_ignore_ascii_case("cookie"@, "cookie"@));
    assert(eq_ignore_ascii_case(auth, auth));
    lemma_header_of_first(h2, "cookie"@, 0);
    lemma_header_of_first(h2, auth, 3);
    if let Some(p) = crate::session::page_id_of(s) {
        assert(eq_ignore_ascii_case(page, page));
        assert(h2[4] == (page, p));
        lemma_header_of_first(h2, page, 4);
    } else {
        lemma_header_of_first(h2, page, 4);
    }
}

/// Applying a browser session never changes whether a configuration is valid, nor why not.
pub proof fn law_apply_session_keeps_validity(c: ConfigModel, s: SessionModel)
    ensures
        validation_error(apply_session(c, s)) == validation_error(c),
{
    reveal_strlit("cookie");
    reveal_strlit("x-goog-authuser");
    reveal_strlit("x-goog-pageid");
    let h1 = match s.session_index {
        Some(i) => sorted_insert(c.headers, "x-goog-authuser"@, i),
        None => c.headers,
    };
    if let Some(i) = s.session_index {
        lemma_header_of_insert_other(c.headers, "x-goog-authuser"@, i, "cookie"@);
    }
    if let Some(p) = crate::session::page_id_of(s) {
        lemma_header_of_insert_other(h1, "x-goog-pageid"@, p, "cookie"@);
    }
}

// ---------------------------------------------------------------------------
// Reading a cookie back out of a `cookie` header.

/// A cookie name that reads back out of a header: not starting with whitespace, and
/// holding neither `;` nor `=`. The empty name is one.
pub open spec fn plain_cookie_name(k: Seq<char>) -> bool {
    &&& k.len() > 0 ==> !is_whitespace(k[0])
    &&& forall|i: int| 0 <= i < k.len() ==> #[trigger] k[i] != ';' && k[i] != '='
}

proof fn lemma_trim_start_keeps(s: Seq<char>)
    requires
        s.len() > 0,
        !is_whitespace(s[0]),
    ensures
        trim_start(s) == s,
{
}

/// Trimming the end of `s` keeps at least the first `p` characters where the `p`-th
/// is not whitespace, and only cuts off an end.
proof fn lemma_trim_end_prefix(s: Seq<char>, p: int)
    requires
        0 < p <= s.len(),
        !is_whitespace(s[p - 1]),
    ensures
        p <= trim_end(s).len() <= s.len(),
        trim_end(s) == s.take(trim_end(s).len() as int),
    decreases s.len(),
{
    if s.len() > 0 && is_whitespace(s.last()) {
        assert(p < s.len());
        lemma_trim_end_prefix(s.drop_last(), p);
        let t = trim_end(s.drop_last());
        assert(t =~= s.take(t.len() as int));
    } else {
        assert(s.take(s.len() as int) =~= s);
    }
}

proof fn lemma_find_char_in_prefix(s: Seq<char>, p: int, c: char)
    requires
        0 <= p <= s.len(),
        forall|i: int| 0 <= i < p ==> s[i] != c,
    ensures
        find_char(s, c) >= p,
    decreases p,
{
    lemma_find_char_bounds(s, c);
    if p > 0 {
        assert(s[0] != c);
        assert forall|i: int| 0 <= i < p - 1 implies s.drop_first()[i] != c by {
            assert(s.drop_first()[i] == s[i + 1]);
        }
        lemma_find_char_in_prefix(s.drop_first(), p - 1, c);
        assert(s.len() > 0);
        assert(find_char(s, c) == 1 + find_char(s.drop_first(), c));
    }
}

/// A header that starts with `k=` reads some value of `k`.
proof fn lemma_value_at_front(h: Seq<char>, k: Seq<char>)
    requires
        plain_cookie_name(k),
        h.len() > k.len(),
        h.take(k.len() as int) == k,
        h[k.len() as int] == '=',
    ensures
        cookie_value_of(h, k) is Some,
{
    let n = k.len() as int;
    lemma_find_char_bounds(h, ';');
    assert forall|i: int| 0 <= i < n + 1 implies h[i] != ';' by {
        if i < n {
            assert(h[i] == h.take(n)[i]);
        }
    }
    lemma_find_char_in_prefix(h, n + 1, ';');
    let i = find_char(h, ';');
    let part = h.take(i);
    assert(!is_whitespace(part[0])) by {
        assert(part[0] == h[0]);
        if n > 0 {
            assert(h.take(n)[0] == h[0]);
        }
    }
    lemma_trim_start_keeps(part);
    assert(!is_whitespace(part[n])) by {
        assert(part[n] == h[n]);
    }
    lemma_trim_end_prefix(part, n + 1);
    let t = trim(part);
    assert(t == trim_end(part));
    assert forall|j: int| 0 <= j < n implies t[j] != '=' && t[j] == k[j] by {
        assert(t[j] == part[j]);
        assert(part[j] == h[j]);
        assert(h[j] == h.take(n)[j]);
    }
    assert(t[n] == '=') by {
        assert(t[n] == part[n]);
    }
    lemma_find_char_in_prefix(t, n, '=');
    lemma_find_char_bounds(t, '=');
    assert(find_char(t, '=') == n);
    assert(t.take(n) =~= k);
    assert(part_pair(part) == Some((k, t.skip(n + 1))));
}

/// Earlier parts of a header cannot hide a cookie that a later part holds.
proof fn lemma_value_after_parts(x: Seq<char>, y: Seq<char>, k: Seq<char>)
    requires
        cookie_value_of(y, k) is Some,
    ensures
        cookie_value_of(x + seq![';'] + y, k) is Some,
    decreases x.len(),
{
    let h = x + seq![';'] + y;
    lemma_find_char_bounds(x, ';');
    let i0 = find_char(x, ';');
    assert forall|j: int| 0 <= j < i0 implies h[j] != ';' by {
        assert(h[j] == x[j]);
    }
    lemma_find_char_in_prefix(h, i0, ';');
    lemma_find_char_bounds(h, ';');
    if i0 < x.len() {
        assert(h[i0] == ';');
        assert(find_char(h, ';') == i0);
        assert(h.take(i0) =~= x.take(i0));
        lemma_value_after_parts(x.skip(i0 + 1), y, k);
        assert(h.skip(i0 + 1) =~= x.skip(i0 + 1) + seq![';'] + y);
    } else {
        assert(h[x.len() as int] == ';');
        assert(find_char(h, ';') == x.len());
        assert(h.take(x.len() as int) =~= x);
        assert(h.skip(x.len() as int + 1) =~= y);
    }
}

/// A space before a header changes none of its cookies.
proof fn lemma_value_after_space(h: Seq<char>, k: Seq<char>)
    ensures
        cookie_value_of(seq![' '] + h, k) == cookie_value_of(h, k),
{
    let g = seq![' '] + h;
    lemma_find_char_bounds(h, ';');
    lemma_find_char_bounds(g, ';');
    assert(g.drop_first() =~= h);
    assert(find_char(g, ';') == 1 + find_char(h, ';'));
    let i = find_char(h, ';');
    assert(g.take(i + 1).drop_first() =~= h.take(i));
    assert(trim_start(g.take(i + 1)) == trim_start(h.take(i)));
    if i < h.len() {
        assert(g.skip(i + 2) =~= h.skip(i + 1));
    }
}

/// The `cookie` header of non-empty entries, built from the front.
proof fn lemma_cookie_header_front(e: Entries)
    requires
        e.len() > 0,
    ensures
        e.len() == 1 ==> cookie_header_of(e) == cookie_pair(e[0].0, e[0].1),
        e.len() > 1 ==> cookie_header_of(e) == cookie_pair(e[0].0, e[0].1) + "; "@ + cookie_header_of(
            e.drop_first(),
        ),
    decreases e.len(),
{
    if e.len() > 2 {
        lemma_cookie_header_front(e.drop_last());
        assert(e.drop_last().drop_first() =~= e.drop_first().drop_last());
        assert(e.drop_first().last() == e.last());
        assert(e.drop_last()[0] == e[0]);
        let a = cookie_pair(e[0].0, e[0].1);
        let m = cookie_header_of(e.drop_last().drop_first());
        let z = cookie_pair(e.last().0, e.last().1);
        assert(cookie_header_of(e) == (a + "; "@ + m) + "; "@ + z);
        assert(cookie_header_of(e.drop_first()) == m + "; "@ + z);
        assert((a + "; "@ + m) + "; "@ + z =~= a + "; "@ + (m + "; "@ + z));
    } else if e.len() == 2 {
        assert(e.drop_last().len() == 1);
        assert(e.drop_first().len() == 1);
        assert(e.drop_last()[0] == e[0]);
        assert(e.drop_first()[0] == e[1]);
        assert(e.last() == e[1]);
        assert(cookie_header_of(e.drop_last()) == cookie_pair(e[0].0, e[0].1));
        assert(cookie_header_of(e.drop_first()) == cookie_pair(e[1].0, e[1].1));
        assert(cookie_header_of(e) == cookie_pair(e[0].0, e[0].1) + "; "@ + cookie_pair(e[1].0, e[1].1));
    }
}

/// Every plain cookie name among the entries reads some value out of their `cookie` header.
pub proof fn law_cookie_header_holds_cookie(e: Entries, k: Seq<char>)
    requires
        lookup(e, k) is Some,
        plain_cookie_name(k),
    ensures
        cookie_value_of(cookie_header_of(e), k) is Some,
    decreases e.len(),
{
    reveal_strlit("=");
    reveal_strlit("; ");
    lemma_cookie_header_front(e);
    let front = cookie_pair(e[0].0, e[0].1);
    if e[0].0 == k {
        let h = cookie_header_of(e);
        let n = k.len() as int;
        if e.len() == 1 {
            assert(h == front);
        } else {
            assert(h == front + "; "@ + cookie_header_of(e.drop_first()));
        }
        assert(h.take(n) =~= k);
        assert(h[n] == '=');
        lemma_value_at_front(h, k);
    } else {
        law_cookie_header_holds_cookie(e.drop_first(), k);
        let rest = cookie_header_of(e.drop_first());
        lemma_value_after_space(rest, k);
        lemma_value_after_parts(front, seq![' '] + rest, k);
        assert(front + seq![';'] + (seq![' '] + rest) =~= front + "; "@ + rest);
    }
}

/// A cookie value that reads back unchanged: it holds no `;` and does not end in whitespace.
pub open spec fn plain_cookie_value(v: Seq<char>) -> bool {
    &&& forall|i: int| 0 <= i < v.len() ==> #[trigger] v[i] != ';'
    &&& v.len() > 0 ==> !is_whitespace(v.last())
}

/// One `name=value` part of plain name and value splits back into them.
proof fn lemma_part_pair_of_pair(n: Seq<char>, v: Seq<char>)
    requires
        plain_cookie_name(n),
        plain_cookie_value(v),
    ensures
        part_pair(cookie_pair(n, v)) == Some((n, v)),
        forall|i: int| 0 <= i < cookie_pair(n, v).len() ==> #[trigger] cookie_pair(n, v)[i] != ';',
{
    reveal_strlit("=");
    let p = cookie_pair(n, v);
    let m = n.len() as int;
    assert(p =~= n + seq!['='] + v);
    assert(!is_whitespace(p[0])) by {
        if m > 0 {
            assert(p[0] == n[0]);
        } else {
            assert(p[0] == '=');
        }
    }
    lemma_trim_start_keeps(p);
    assert(!is_whitespace(p.last())) by {
        if v.len() > 0 {
            assert(p.last() == v.last());
        } else {
            assert(p.last() == '=');
        }
    }
    assert(trim_end(p) == p);
    assert(trim(p) == p);
    assert forall|i: int| 0 <= i < m implies p[i] != '=' by {
        assert(p[i] == n[i]);
    }
    lemma_find_char_in_prefix(p, m, '=');
    lemma_find_char_bounds(p, '=');
    assert(p[m] == '=');
    assert(find_char(p, '=') == m);
    assert(p.take(m) =~= n);
    assert(p.skip(m + 1) =~= v);
    assert forall|i: int| 0 <= i < p.len() implies #[trigger] p[i] != ';' by {
        if i < m {
            assert(p[i] == n[i]);
        } else if i > m {
            assert(p[i] == v[i - m - 1]);
        }
    }
}

/// Reading a cookie back out of the `cookie` header built from cookies gives the value
/// of the first cookie of that name, and nothing where there is none, for cookies whose
/// names are plain and whose values hold no `;` and do not end in whitespace.
pub proof fn law_cookie_header_reads_back(e: Entries, k: Seq<char>)
    requires
        forall|i: int| 0 <= i < e.len() ==> plain_cookie_name(#[trigger] e[i].0) && plain_cookie_value(e[i].1),
    ensures
        cookie_value_of(cookie_header_of(e), k) == lookup(e, k),
    decreases e.len(),
{
    reveal_strlit("; ");
    if e.len() == 0 {
        let h = cookie_header_of(e);
        assert(h.len() == 0);
        lemma_find_char_bounds(h, ';');
        assert(h.take(0) =~= Seq::<char>::empty());
        assert(trim_end(trim_start(Seq::<char>::empty())) == Seq::<char>::empty());
    } else {
        lemma_cookie_header_front(e);
        let front = cookie_pair(e[0].0, e[0].1);
        lemma_part_pair_of_pair(e[0].0, e[0].1);
        lemma_find_char_in_prefix(front, front.len() as int, ';');
        if e.len() == 1 {
            let h = cookie_header_of(e);
            assert(h == front);
            lemma_find_char_bounds(h, ';');
            assert(h.take(h.len() as int) =~= h);
        } else {
            let rest = cookie_header_of(e.drop_first());
            let h = cookie_header_of(e);
            assert(h =~= front + seq![';'] + (seq![' '] + rest));
            let m = front.len() as int;
            assert forall|i: int| 0 <= i < m implies h[i] != ';' by {
                assert(h[i] == front[i]);
            }
            lemma_find_char_in_prefix(h, m, ';');
            lemma_find_char_bounds(h, ';');
            assert(h[m] == ';');
            assert(find_char(h, ';') == m);
            assert(h.take(m) =~= front);
            assert(h.skip(m + 1) =~= seq![' '] + rest);
            let t = e.drop_first();
            assert forall|i: int| 0 <= i < t.len() implies plain_cookie_name(#[trigger] t[i].0)
                && plain_cookie_value(t[i].1) by {
                assert(t[i] == e[i + 1]);
                assert(plain_cookie_name(e[i + 1].0) && plain_cookie_value(e[i + 1].1));
            }
            law_cookie_header_reads_back(t, k);
            lemma_value_after_space(rest, k);
        }
    }
}

/// A configuration built from cookies reads every cookie back: where the cookies have
/// plain names and values, `cookie(name)` gives the value of the cookie of that name,
/// and nothing for a name that is not among them.
pub proof fn law_config_cookie_reads_back(
    kind: Seq<char>,
    browser: Option<Seq<char>>,
    cookies: Entries,
    user_agent: Seq<char>,
    missing_error: Seq<char>,
    name: Seq<char>,
)
    requires
        config_from_cookies(kind, browser, cookies, user_agent, missing_error) is Ok,
        forall|i: int|
            0 <= i < cookies.len() ==> plain_cookie_name(#[trigger] cookies[i].0) && plain_cookie_value(
                cookies[i].1,
            ),
    ensures
        match header_of(
            config_from_cookies(kind, browser, cookies, user_agent, missing_error)->Ok_0.headers,
            "cookie"@,
        ) {
            Some(h) => cookie_value_of(h, name) == lookup(cookies, name),
            None => false,
        },
{
    reveal_strlit("cookie");
    let h = initial_headers(cookies, user_agent);
    assert(eq_ignore_ascii_case(h[0].0, "cookie"@));
    assert(header_of(h, "cookie"@) == Some(cookie_header_of(cookies)));
    law_cookie_header_reads_back(cookies, name);
}

// ---------------------------------------------------------------------------
// Importing a capture.

proof fn lemma_session_cookie_names_plain()
    ensures
        plain_cookie_name("__Secure-3PAPISID"@),
        plain_cookie_name("SAPISID"@),
{
    reveal_strlit("__Secure-3PAPISID");
    reveal_strlit("SAPISID");
}

/// A configuration built from cookies that include a session cookie is valid.
pub proof fn law_config_from_cookies_is_valid(
    browser: Option<Seq<char>>,
    cookies: Entries,
    user_agent: Seq<char>,
    missing_error: Seq<char>,
)
    requires
        config_from_cookies("login-window"@, browser, cookies, user_agent, missing_error) is Ok,
    ensures
        validation_error(
            config_from_cookies("login-window"@, browser, cookies, user_agent, missing_error)->Ok_0,
        ) is None,
{
    reveal_strlit("cookie");
    lemma_session_cookie_names_plain();
    let h = initial_headers(cookies, user_agent);
    assert(eq_ignore_ascii_case(h[0].0, "cookie"@));
    assert(header_of(h, "cookie"@) == Some(cookie_header_of(cookies)));
    if lookup(cookies, "__Secure-3PAPISID"@) is Some {
        law_cookie_header_holds_cookie(cookies, "__Secure-3PAPISID"@);
    } else {
        law_cookie_header_holds_cookie(cookies, "SAPISID"@);
    }
}

/// Every configuration that importing a capture gives is valid: it loads again.
pub proof fn law_imported_config_is_valid(capture: crate::capture::CaptureModel, now_bits: u64)
    requires
        auth_from_capture(capture, now_bits) is Ok,
    ensures
        validation_error(auth_from_capture(capture, now_bits)->Ok_0) is None,
{
    let session = crate::capture::capture_session(capture);
    let built = config_from_cookies(
        "login-window"@,
        crate::capture::capture_browser(capture),
        kept_cookies(capture.cookies, now_bits),
        crate::capture::capture_user_agent(session, capture),
        crate::capture::NOT_AUTHENTICATED_MESSAGE@,
    );
    law_config_from_cookies_is_valid(
        crate::capture::capture_browser(capture),
        kept_cookies(capture.cookies, now_bits),
        crate::capture::capture_user_agent(session, capture),
        crate::capture::NOT_AUTHENTICATED_MESSAGE@,
    );
    law_apply_session_keeps_validity(built->Ok_0, session);
}

/// Only cookies that belong to YouTube and have not expired are kept: every kept value
/// is that of a captured cookie of the name that passed both tests.
pub proof fn law_kept_cookies_come_from_kept(cs: Seq<CookieModel>, now_bits: u64, name: Seq<char>)
    requires
        lookup(kept_cookies(cs, now_bits), name) is Some,
    ensures
        exists|j: int|
            0 <= j < cs.len() && keeps_cookie(#[trigger] cs[j], now_bits) && cs[j].name == name
                && cs[j].value == lookup(kept_cookies(cs, now_bits), name)->Some_0,
    decreases cs.len(),
{
    let prev = kept_cookies(cs.drop_last(), now_bits);
    let c = cs.last();
    if keeps_cookie(c, now_bits) {
        law_insert_then_lookup(prev, c.name, c.value, name);
        if c.name == name {
            assert(keeps_cookie(cs[cs.len() - 1], now_bits));
        } else {
            law_kept_cookies_come_from_kept(cs.drop_last(), now_bits, name);
            let j = choose|j: int|
                0 <= j < cs.drop_last().len() && keeps_cookie(#[trigger] cs.drop_last()[j], now_bits)
                    && cs.drop_last()[j].name == name && cs.drop_last()[j].value == lookup(prev, name)->Some_0;
            assert(cs[j] == cs.drop_last()[j]);
        }
    } else {
        law_kept_cookies_come_from_kept(cs.drop_last(), now_bits, name);
        let j = choose|j: int|
            0 <= j < cs.drop_last().len() && keeps_cookie(#[trigger] cs.drop_last()[j], now_bits)
                && cs.drop_last()[j].name == name && cs.drop_last()[j].value == lookup(prev, name)->Some_0;
        assert(cs[j] == cs.drop_last()[j]);
    }
}

// ---------------------------------------------------------------------------
// Domains and origins.

/// Leading dots of a cookie domain do not matter.
pub proof fn law_youtube_domain_ignores_leading_dots(domain: Seq<char>)
    ensures
        youtube_domain(seq!['.'] + domain) == youtube_domain(domain),
{
    assert((seq!['.'] + domain).drop_first() =~= domain);
    assert(strip_leading_dots(seq!['.'] + domain) == strip_leading_dots(domain));
}

/// A host that merely starts like the YouTube Music origin is not it: after the origin
/// only `/`, `?` or `#` may follow.
pub proof fn law_music_url_rejects_siblings(c: char, rest: Seq<char>)
    requires
        c != '/' && c != '?' && c != '#',
    ensures
        !music_url(YTM_ORIGIN@ + seq![c] + rest),
{
    let o = YTM_ORIGIN@;
    let u = o + seq![c] + rest;
    let m = o.len() as int;
    assert(u[m] == c);
    assert(u.len() > o.len());
    assert(u != o);
    assert forall|d: char| d != c implies !crate::text::has_prefix(u, o + seq![d]) by {
        if crate::text::has_prefix(u, o + seq![d]) {
            assert(u.subrange(0, m + 1)[m] == (o + seq![d])[m]);
        }
    }
}

// ---------------------------------------------------------------------------
// Pointing a context at a page.

proof fn lemma_object_index_is(e: ObjectView, k: Seq<char>, i: int)
    requires
        0 <= i <= e.len(),
        forall|j: int| 0 <= j < i ==> (#[trigger] e[j]).0 != k,
        i < e.len() ==> e[i].0 == k,
    ensures
        object_index(e, k) == i,
    decreases i,
{
    if i > 0 {
        assert(e[0].0 != k);
        assert forall|j: int| 0 <= j < i - 1 implies (#[trigger] e.drop_first()[j]).0 != k by {
            assert(e.drop_first()[j] == e[j + 1]);
        }
        if i < e.len() {
            assert(e.drop_first()[i - 1] == e[i]);
        }
        lemma_object_index_is(e.drop_first(), k, i - 1);
    }
}

/// After `k` is set to `v` in an object, `k` reads `v`, from the same place.
proof fn lemma_object_insert_get(e: ObjectView, k: Seq<char>, v: JsonView)
    ensures
        object_index(object_insert(e, k, v), k) == object_index(e, k),
        object_get(object_insert(e, k, v), k) == Some(v),
{
    crate::json::lemma_object_index(e, k);
    let i = object_index(e, k);
    let r = object_insert(e, k, v);
    assert forall|j: int| 0 <= j < i implies (#[trigger] r[j]).0 != k by {
        assert(r[j] == e[j]);
    }
    lemma_object_index_is(r, k, i);
}

/// Pointing a context at a page twice keeps the first page: a page that a context
/// already names is never replaced.
pub proof fn law_on_behalf_of_user_idempotent(context: JsonView, p: Seq<char>, q: Seq<char>)
    ensures
        with_on_behalf_of_user(with_on_behalf_of_user(context, p), q) == with_on_behalf_of_user(context, p),
{
    if let JsonView::Object(e) = context {
        let user: ObjectView = match object_get(e, "user"@) {
            Some(JsonView::Object(u)) => u,
            _ => Seq::empty(),
        };
        let member = ("onBehalfOfUser"@, JsonView::String(p));
        let user2 = if object_get(user, "onBehalfOfUser"@) is Some {
            user
        } else {
            user.push(member)
        };
        if object_get(user, "onBehalfOfUser"@) is None {
            crate::json::lemma_object_index(user, "onBehalfOfUser"@);
            assert(user.push(member) == object_insert(user, "onBehalfOfUser"@, JsonView::String(p)));
            lemma_object_insert_get(user, "onBehalfOfUser"@, JsonView::String(p));
        }
        assert(object_get(user2, "onBehalfOfUser"@) is Some);
        let e1 = object_insert(e, "user"@, JsonView::Object(user2));
        lemma_object_insert_get(e, "user"@, JsonView::Object(user2));
        crate::json::lemma_object_index(e1, "user"@);
        let i = object_index(e1, "user"@);
        assert(e1[i] == ("user"@, JsonView::Object(user2)));
        assert(object_insert(e1, "user"@, JsonView::Object(user2)) =~= e1);
    }
}

/// Importing a capture whose page is well-formed JSON stores a well-formed context: no
/// object in it has two members of one name.
pub proof fn law_imported_context_well_formed(capture: crate::capture::CaptureModel, now_bits: u64)
    requires
        auth_from_capture(capture, now_bits) is Ok,
        capture.page matches Some(p) ==> crate::json::json_wf(p),
    ensures
        auth_from_capture(capture, now_bits)->Ok_0.innertube_context matches Some(c) ==> crate::json::json_wf(c),
{
    if let Some(p) = capture.page {
        crate::json::lemma_json_get_wf(p, "innertubeContext"@);
    }
    let s = crate::capture::capture_session(capture);
    if let Some(x) = s.innertube_context {
        if let Some(pid) = crate::session::page_id_of(s) {
            crate::session::lemma_on_behalf_keeps_wf(x, pid);
        }
    }
}

// ---------------------------------------------------------------------------
// What each step of an import reads and keeps.

/// Setting one member of an object leaves every other member as it was.
proof fn lemma_object_insert_other(e: ObjectView, k: Seq<char>, v: JsonView, k2: Seq<char>)
    requires
        k2 != k,
    ensures
        object_get(object_insert(e, k, v), k2) == object_get(e, k2),
{
    crate::json::lemma_object_index(e, k);
    crate::json::lemma_object_index(e, k2);
    let i = object_index(e, k);
    let j = object_index(e, k2);
    let r = object_insert(e, k, v);
    if j < e.len() {
        assert(j != i);
        assert forall|a: int| 0 <= a < j implies (#[trigger] r[a]).0 != k2 by {
            if a != i {
                assert(r[a] == e[a]);
            }
        }
        assert(r[j] == e[j]);
        lemma_object_index_is(r, k2, j);
    } else {
        assert forall|a: int| 0 <= a < r.len() implies (#[trigger] r[a]).0 != k2 by {
            if a < e.len() && a != i {
                assert(r[a] == e[a]);
            }
        }
        lemma_object_index_is(r, k2, r.len() as int);
    }
}

/// The page a session acts for, in order of precedence: its non-blank delegated session
/// id; else the page its context names; else, whether or not it has a context, the page
/// id at the front of its data sync id.
pub proof fn law_page_id_precedence(s: SessionModel)
    ensures
        crate::session::non_blank(s.delegated_session_id) matches Some(d) ==> crate::session::page_id_of(s)
            == Some(d),
        crate::session::non_blank(s.delegated_session_id) is None ==> match s.innertube_context {
            Some(c) => match crate::session::context_page_id_of(c) {
                Some(p) => crate::session::page_id_of(s) == Some(p),
                None => true,
            },
            None => true,
        },
        crate::session::non_blank(s.delegated_session_id) is None ==> (match s.innertube_context {
            Some(c) => crate::session::context_page_id_of(c) is None,
            None => true,
        } ==> crate::session::page_id_of(s) == match s.data_sync_id {
            Some(d) => crate::session::data_sync_page_id_of(d),
            None => None,
        }),
{
}

/// Pointing an object context at page `p` makes `/user/onBehalfOfUser` read the value it
/// had where it had one, else `p`; every other member of `user` and of the context is
/// kept, and a `user` that was not an object becomes one. Other values are kept as they are.
pub proof fn law_on_behalf_points_user_at_page(context: JsonView, p: Seq<char>)
    ensures
        !(context is Object) ==> with_on_behalf_of_user(context, p) == context,
        context is Object ==> ({
            let r = with_on_behalf_of_user(context, p);
            let old_user: ObjectView = match crate::json::json_get(context, "user"@) {
                Some(JsonView::Object(u)) => u,
                _ => Seq::empty(),
            };
            &&& r is Object
            &&& forall|k: Seq<char>|
                k != "user"@ ==> #[trigger] crate::json::json_get(r, k) == crate::json::json_get(context, k)
            &&& crate::json::json_get(r, "user"@) matches Some(JsonView::Object(u2))
            &&& object_get(u2, "onBehalfOfUser"@) == match object_get(old_user, "onBehalfOfUser"@) {
                Some(v) => Some(v),
                None => Some(JsonView::String(p)),
            }
            &&& forall|k: Seq<char>| k != "onBehalfOfUser"@ ==> #[trigger] object_get(u2, k) == object_get(old_user, k)
        }),
{
    if let JsonView::Object(e) = context {
        let uk = "user"@;
        let ok = "onBehalfOfUser"@;
        let user: ObjectView = match object_get(e, uk) {
            Some(JsonView::Object(u)) => u,
            _ => Seq::empty(),
        };
        let member = (ok, JsonView::String(p));
        let user2 = if object_get(user, ok) is Some {
            user
        } else {
            user.push(member)
        };
        if object_get(user, ok) is None {
            crate::json::lemma_object_index(user, ok);
            assert(user.push(member) == object_insert(user, ok, JsonView::String(p)));
            lemma_object_insert_get(user, ok, JsonView::String(p));
            assert forall|k: Seq<char>| k != ok implies #[trigger] object_get(user2, k) == object_get(user, k) by {
                lemma_object_insert_other(user, ok, JsonView::String(p), k);
            }
        }
        let r = object_insert(e, uk, JsonView::Object(user2));
        lemma_object_insert_get(e, uk, JsonView::Object(user2));
        assert forall|k: Seq<char>| k != uk implies #[trigger] object_get(r, k) == object_get(e, k) by {
            lemma_object_insert_other(e, uk, JsonView::Object(user2), k);
        }
        assert forall|k: Seq<char>| k != uk implies #[trigger] crate::json::json_get(
            with_on_behalf_of_user(context, p),
            k,
        ) == crate::json::json_get(context, k) by {
            lemma_object_insert_other(e, uk, JsonView::Object(user2), k);
        }
    }
}

/// A page whose `innertubeContext` member is an object gives a session with that context.
pub proof fn law_page_context_is_read(page: JsonView, c: JsonView)
    requires
        crate::json::json_get(page, "innertubeContext"@) == Some(c),
        c is Object,
    ensures
        crate::session::session_from_page(page).innertube_context == Some(c),
{
}

/// Importing a capture whose page has an object `innertubeContext` stores a context: an
/// object that keeps every member of the page's context but `user`, where only
/// `onBehalfOfUser` may have been added.
pub proof fn law_import_stores_page_context(
    capture: crate::capture::CaptureModel,
    now_bits: u64,
    page: JsonView,
    c: JsonView,
)
    requires
        auth_from_capture(capture, now_bits) is Ok,
        capture.page == Some(page),
        crate::json::json_get(page, "innertubeContext"@) == Some(c),
        c is Object,
    ensures
        auth_from_capture(capture, now_bits)->Ok_0.innertube_context matches Some(x) && x is Object
            && forall|k: Seq<char>|
            k != "user"@ ==> #[trigger] crate::json::json_get(x, k) == crate::json::json_get(c, k),
{
    law_page_context_is_read(page, c);
    let s = crate::capture::capture_session(capture);
    assert(s.innertube_context == Some(c));
    law_on_behalf_points_user_at_page(c, match crate::session::page_id_of(s) {
        Some(p) => p,
        None => Seq::empty(),
    });
}

/// Every path, query and fragment under the YouTube Music origin is a music URL.
pub proof fn law_music_url_accepts_paths_under_origin(rest: Seq<char>)
    ensures
        music_url(YTM_ORIGIN@),
        music_url(YTM_ORIGIN@ + seq!['/'] + rest),
        music_url(YTM_ORIGIN@ + seq!['?'] + rest),
        music_url(YTM_ORIGIN@ + seq!['#'] + rest),
{
    let o = YTM_ORIGIN@;
    assert((o + seq!['/'] + rest).subrange(0, o.len() as int + 1) =~= o + seq!['/']);
    assert((o + seq!['?'] + rest).subrange(0, o.len() as int + 1) =~= o + seq!['?']);
    assert((o + seq!['#'] + rest).subrange(0, o.len() as int + 1) =~= o + seq!['#']);
}

/// A YouTube cookie is kept when it lasts for the session (expiry zero) or expires later
/// than `now` (its expiry's bit pattern lies above that of a non-negative `now`); of two
/// cookies of one name the later wins.
pub proof fn law_fresh_youtube_cookie_is_kept(cs: Seq<CookieModel>, c: CookieModel, now_bits: u64)
    requires
        youtube_domain(c.domain),
        now_bits <= crate::cookies::infinity_bits(),
        c.expires_bits == 0 || c.expires_bits > now_bits,
    ensures
        lookup(kept_cookies(cs.push(c), now_bits), c.name) == Some(c.value),
{
    assert(cs.push(c).drop_last() =~= cs);
    law_insert_then_lookup(kept_cookies(cs, now_bits), c.name, c.value, c.name);
}

/// A cookie of another domain, or one whose expiry is positive and not after a
/// non-negative `now`, is dropped: it changes no name's value.
pub proof fn law_stale_or_foreign_cookie_is_dropped(
    cs: Seq<CookieModel>,
    c: CookieModel,
    now_bits: u64,
    name: Seq<char>,
)
    requires
        !youtube_domain(c.domain) || (0 < c.expires_bits <= now_bits && now_bits
            <= crate::cookies::infinity_bits()),
    ensures
        lookup(kept_cookies(cs.push(c), now_bits), name) == lookup(kept_cookies(cs, now_bits), name),
{
    assert(cs.push(c).drop_last() =~= cs);
}

/// A page's non-blank string members give the session its index, delegated session id,
/// data sync id and user agent.
pub proof fn law_page_string_fields_are_read(page: JsonView, t: Seq<char>)
    requires
        !crate::text::is_blank(t),
    ensures
        crate::json::json_get(page, "sessionIndex"@) == Some(JsonView::String(t))
            ==> crate::session::session_from_page(page).session_index == Some(t),
        crate::json::json_get(page, "delegatedSessionId"@) == Some(JsonView::String(t))
            ==> crate::session::session_from_page(page).delegated_session_id == Some(t),
        crate::json::json_get(page, "dataSyncId"@) == Some(JsonView::String(t))
            ==> crate::session::session_from_page(page).data_sync_id == Some(t),
        crate::json::json_get(page, "userAgent"@) == Some(JsonView::String(t))
            ==> crate::session::session_from_page(page).user_agent == Some(t),
{
}

/// What `name` reads in the headers of an import is what it read in the headers built
/// from the cookies, for every name but the account and page headers.
proof fn lemma_apply_session_keeps_header(c: ConfigModel, s: SessionModel, name: Seq<char>)
    requires
        !eq_ignore_ascii_case("x-goog-authuser"@, name),
        !eq_ignore_ascii_case("x-goog-pageid"@, name),
    ensures
        header_of(apply_session(c, s).headers, name) == header_of(c.headers, name),
{
    let h1 = match s.session_index {
        Some(i) => sorted_insert(c.headers, "x-goog-authuser"@, i),
        None => c.headers,
    };
    if let Some(i) = s.session_index {
        lemma_header_of_insert_other(c.headers, "x-goog-authuser"@, i, name);
    }
    if let Some(p) = crate::session::page_id_of(s) {
        lemma_header_of_insert_other(h1, "x-goog-pageid"@, p, name);
    }
}

/// An import sends the page's user agent where the page names a non-blank one, else the
/// browser's where the capture names one, else the default user agent.
pub proof fn law_import_user_agent(capture: crate::capture::CaptureModel, now_bits: u64)
    requires
        auth_from_capture(capture, now_bits) is Ok,
    ensures
        header_of(auth_from_capture(capture, now_bits)->Ok_0.headers, "user-agent"@) == Some(
            match match capture.page {
                Some(p) => crate::session::string_field(p, "userAgent"@),
                None => None,
            } {
                Some(u) => u,
                None => match capture.user_agent {
                    Some(u) => u,
                    None => crate::capture::DEFAULT_USER_AGENT@,
                },
            },
        ),
{
    reveal_strlit("cookie");
    reveal_strlit("origin");
    reveal_strlit("user-agent");
    reveal_strlit("x-goog-authuser");
    reveal_strlit("x-goog-pageid");
    let session = crate::capture::capture_session(capture);
    let ua = crate::capture::capture_user_agent(session, capture);
    let cookies = kept_cookies(capture.cookies, now_bits);
    let h = initial_headers(cookies, ua);
    assert(eq_ignore_ascii_case("user-agent"@, "user-agent"@));
    lemma_header_of_first(h, "user-agent"@, 2);
    let base = config_from_cookies(
        "login-window"@,
        crate::capture::capture_browser(capture),
        cookies,
        ua,
        crate::capture::NOT_AUTHENTICATED_MESSAGE@,
    )->Ok_0;
    lemma_apply_session_keeps_header(base, session, "user-agent"@);
}

proof fn lemma_strip_dots_before_youtube(x: Seq<char>)
    ensures
        crate::text::has_suffix(strip_leading_dots(x + ".youtube.com"@), ".youtube.com"@)
            || strip_leading_dots(x + ".youtube.com"@) == "youtube.com"@,
    decreases x.len(),
{
    reveal_strlit(".youtube.com");
    reveal_strlit("youtube.com");
    let y = ".youtube.com"@;
    let s = x + y;
    if x.len() == 0 {
        assert(s =~= y);
        assert(s.drop_first() =~= "youtube.com"@);
        assert(strip_leading_dots("youtube.com"@) == "youtube.com"@);
    } else if x[0] == '.' {
        assert(s.drop_first() =~= x.drop_first() + y);
        lemma_strip_dots_before_youtube(x.drop_first());
    } else {
        assert(s.subrange(s.len() - y.len(), s.len() as int) =~= y);
    }
}

proof fn lemma_strip_dots_suffix(s: Seq<char>)
    ensures
        crate::text::has_suffix(s, strip_leading_dots(s)),
    decreases s.len(),
{
    if s.len() > 0 && s[0] == '.' {
        lemma_strip_dots_suffix(s.drop_first());
        let t = strip_leading_dots(s.drop_first());
        assert(s.subrange(s.len() - t.len(), s.len() as int) =~= s.drop_first().subrange(
            s.drop_first().len() - t.len(),
            s.drop_first().len() as int,
        ));
    } else {
        assert(s.subrange(0, s.len() as int) =~= s);
    }
}

/// YouTube's own domain and every subdomain of it are YouTube domains, with or without
/// leading dots; every YouTube domain ends in `youtube.com`.
pub proof fn law_youtube_domains(x: Seq<char>, d: Seq<char>)
    ensures
        youtube_domain("youtube.com"@),
        youtube_domain(x + ".youtube.com"@),
        youtube_domain(d) ==> crate::text::has_suffix(d, "youtube.com"@),
{
    reveal_strlit(".youtube.com");
    reveal_strlit("youtube.com");
    let yt = "youtube.com"@;
    assert(strip_leading_dots(yt) == yt);
    lemma_strip_dots_before_youtube(x);
    lemma_strip_dots_suffix(d);
    let e = strip_leading_dots(d);
    if youtube_domain(d) {
        assert(crate::text::has_suffix(e, yt)) by {
            if e != yt {
                let dy = ".youtube.com"@;
                assert(e.subrange(e.len() - yt.len(), e.len() as int) =~= e.subrange(
                    e.len() - dy.len(),
                    e.len() as int,
                ).subrange(1, dy.len() as int));
                assert(dy.subrange(1, dy.len() as int) =~= yt);
            } else {
                assert(e.subrange(0, e.len() as int) =~= e);
            }
        }
        assert(d.subrange(d.len() - yt.len(), d.len() as int) =~= d.subrange(
            d.len() - e.len(),
            d.len() as int,
        ).subrange(e.len() - yt.len(), e.len() as int));
    }
}

proof fn lemma_find_double_bar_front(p: Seq<char>, rest: Seq<char>)
    requires
        forall|i: int| 0 <= i < p.len() ==> #[trigger] p[i] != '|',
        rest.len() >= 2 ==> rest[0] == '|' && rest[1] == '|',
        rest.len() < 2 ==> rest.len() == 0,
    ensures
        crate::session::find_double_bar(p + rest) == p.len(),
    decreases p.len(),
{
    if p.len() > 0 {
        assert((p + rest).drop_first() =~= p.drop_first() + rest);
        assert forall|i: int| 0 <= i < p.drop_first().len() implies #[trigger] p.drop_first()[i] != '|' by {
            assert(p.drop_first()[i] == p[i + 1]);
        }
        lemma_find_double_bar_front(p.drop_first(), rest);
        assert((p + rest)[0] == p[0]);
    } else {
        assert(p + rest =~= rest);
    }
}

/// A data sync id whose front, up to the first `||`, is a page id gives that page id.
pub proof fn law_data_sync_page_id_front(p: Seq<char>, rest: Seq<char>)
    requires
        p.len() > 0,
        forall|i: int| 0 <= i < p.len() ==> crate::session::is_page_id_char(#[trigger] p[i]),
    ensures
        crate::session::data_sync_page_id_of(p + "||"@ + rest) == Some(p),
        crate::session::data_sync_page_id_of(p) == Some(p),
{
    reveal_strlit("||");
    assert forall|i: int| 0 <= i < p.len() implies #[trigger] p[i] != '|' && !is_whitespace(p[i]) by {
        assert(crate::session::is_page_id_char(p[i]));
    }
    let d = p + "||"@ + rest;
    lemma_find_double_bar_front(p, "||"@ + rest);
    assert(d =~= p + ("||"@ + rest));
    lemma_find_double_bar_front(p, Seq::<char>::empty());
    assert(p + Seq::<char>::empty() =~= p);
    assert(d.take(p.len() as int) =~= p);
    assert(p.take(p.len() as int) =~= p);
    lemma_trim_start_keeps(p);
    assert(trim_end(p) == p);
}

} // verus!
