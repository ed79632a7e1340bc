//! The identity of a signed-in browser session, read from the page it was captured
//! on, and how it is applied to a configuration.
use vstd::prelude::*;
use vstd::string::*;
use crate::config::{opt_json, opt_str, AuthConfig, ConfigModel};
use crate::error::{auth_required_error, ErrorModel, HelperError};
use crate::json::{
    entries_view, find_key, json_get, json_str, json_wf, lemma_object_index, lemma_object_view, object_get,
    object_index, object_insert, Json, JsonView,
};
use crate::string_map::sorted_insert;
use crate::text::{is_blank, str_is_blank, trim, trim_str};

verus! {

/// The session identity and context that a browser page exposes.
#[derive(Debug)]
pub struct BrowserSession {
    pub innertube_context: Option<Json>,
    pub session_index: Option<String>,
    pub delegated_session_id: Option<String>,
    pub data_sync_id: Option<String>,
    pub user_agent: Option<String>,
}

/// A browser session as plain values.
pub struct SessionModel {
    pub innertube_context: Option<JsonView>,
    pub session_index: Option<Seq<char>>,
    pub delegated_session_id: Option<Seq<char>>,
    pub data_sync_id: Option<Seq<char>>,
    pub user_agent: Option<Seq<char>>,
}

impl View for BrowserSession {
    type V = SessionModel;

    open spec fn view(&self) -> SessionModel {
        SessionModel {
            innertube_context: opt_json(self.innertube_context),
            session_index: opt_str(self.session_index),
            delegated_session_id: opt_str(self.delegated_session_id),
            data_sync_id: opt_str(self.data_sync_id),
            user_agent: opt_str(self.user_agent),
        }
    }
}

/// A text, unless it is blank.
pub open spec fn non_blank(t: Option<Seq<char>>) -> Option<Seq<char>> {
    match t {
        Some(s) => if is_blank(s) {
            None
        } else {
            Some(s)
        },
        None => None,
    }
}

/// The non-blank string member `field` of `value`.
pub open spec fn string_field(value: JsonView, field: Seq<char>) -> Option<Seq<char>> {
    non_blank(json_str(json_get(value, field)))
}

/// The page the user acts for: the non-blank string at `/user/onBehalfOfUser`.
pub open spec fn context_page_id_of(context: JsonView) -> Option<Seq<char>> {
    match json_get(context, "user"@) {
        Some(user) => non_blank(json_str(json_get(user, "onBehalfOfUser"@))),
        None => None,
    }
}

/// The session that a captured page describes.
pub open spec fn session_from_page(page: JsonView) -> SessionModel {
    SessionModel {
        innertube_context: match json_get(page, "innertubeContext"@) {
            Some(c) => if c is Object {
                Some(c)
            } else {
                None
            },
            None => None,
        },
        session_index: string_field(page, "sessionIndex"@),
        delegated_session_id: string_field(page, "delegatedSessionId"@),
        data_sync_id: string_field(page, "dataSyncId"@),
        user_agent: string_field(page, "userAgent"@),
    }
}

/// Whether a session says which account it is: an index, a delegated session, a data
/// sync id, or a page in its context.
pub open spec fn has_identity_of(s: SessionModel) -> bool {
    ||| s.session_index is Some
    ||| s.delegated_session_id is Some
    ||| s.data_sync_id is Some
    ||| match s.innertube_context {
        Some(c) => context_page_id_of(c) is Some,
        None => false,
    }
}

/// The error for a session without identity.
pub open spec fn identity_not_ready_error() -> ErrorModel {
    auth_required_error(
        "login window session identity is not ready; wait for music.youtube.com to finish loading"@,
    )
}

/// Index of the first `||` in `s`, or `s.len()`.
pub open spec fn find_double_bar(s: Seq<char>) -> int
    decreases s.len(),
{
    if s.len() < 2 {
        s.len() as int
    } else if s[0] == '|' && s[1] == '|' {
        0
    } else {
        1 + find_double_bar(s.drop_first())
    }
}

/// A character that a page id may hold: ASCII letters and digits, `_` and `-`.
pub open spec fn is_page_id_char(c: char) -> bool {
    ||| ('a' <= c && c <= 'z')
    ||| ('A' <= c && c <= 'Z')
    ||| ('0' <= c && c <= '9')
    ||| c == '_'
    ||| c == '-'
}

/// The page id at the front of a data sync id: the text before the first `||`, trimmed,
/// where it is non-empty and made of page id characters only.
pub open spec fn data_sync_page_id_of(d: Seq<char>) -> Option<Seq<char>> {
    let first = trim(d.take(find_double_bar(d)));
    if first.len() > 0 && forall|i: int| 0 <= i < first.len() ==> is_page_id_char(#[trigger] first[i]) {
        Some(first)
    } else {
        None
    }
}

/// The page that a session acts for: its delegated session id, else the page in its
/// context, else the one at the front of its data sync id.
pub open spec fn page_id_of(s: SessionModel) -> Option<Seq<char>> {
    match non_blank(s.delegated_session_id) {
        Some(d) => Some(d),
        None => match match s.innertube_context {
            Some(c) => context_page_id_of(c),
            None => None,
        } {
            Some(p) => Some(p),
            None => match s.data_sync_id {
                Some(d) => data_sync_page_id_of(d),
                None => None,
            },
        },
    }
}

/// Pointing a context at a page keeps it well-formed: no object gets a second member
/// of one name.
pub proof fn lemma_on_behalf_keeps_wf(context: JsonView, page_id: Seq<char>)
    requires
        json_wf(context),
    ensures
        json_wf(with_on_behalf_of_user(context, page_id)),
{
    if let JsonView::Object(e) = context {
        let uk = "user"@;
        let ok = "onBehalfOfUser"@;
        lemma_object_index(e, uk);
        let i = object_index(e, uk);
        let user: Seq<(Seq<char>, JsonView)> = match object_get(e, uk) {
            Some(JsonView::Object(u)) => u,
            _ => Seq::empty(),
        };
        assert(json_wf(JsonView::Object(user))) by {
            if i < e.len() {
                assert(json_wf(e[i].1));
            }
        }
        lemma_object_index(user, ok);
        let member = (ok, JsonView::String(page_id));
        let user2 = if object_get(user, ok) is Some {
            user
        } else {
            user.push(member)
        };
        assert(json_wf(JsonView::Object(user2))) by {
            if object_get(user, ok) is None {
                assert forall|a: int, b: int| 0 <= a < b < user2.len() implies #[trigger] user2[a].0
                    != #[trigger] user2[b].0 by {
                    if b == user.len() {
                        assert(user2[a] == user[a]);
                    } else {
                        assert(user2[a] == user[a]);
                        assert(user2[b] == user[b]);
                    }
                }
                assert forall|a: int| 0 <= a < user2.len() implies json_wf(#[trigger] user2[a].1) by {
                    if a < user.len() {
                        assert(user2[a] == user[a]);
                    }
                }
            }
        }
        let e1 = object_insert(e, uk, JsonView::Object(user2));
        assert forall|a: int, b: int| 0 <= a < b < e1.len() implies #[trigger] e1[a].0 != #[trigger] e1[b].0 by {
            if i < e.len() {
                assert(e1[a].0 == e[a].0);
                assert(e1[b].0 == e[b].0);
            } else if b == e.len() {
                assert(e1[a] == e[a]);
            } else {
                assert(e1[a] == e[a]);
                assert(e1[b] == e[b]);
            }
        }
        assert forall|a: int| 0 <= a < e1.len() implies json_wf(#[trigger] e1[a].1) by {
            if a != i {
                assert(e1[a] == e[a]);
            }
        }
    }
}

/// `context` with `/user/onBehalfOfUser` set to `page_id` where it has none; `user` is
/// made an object first where it is not one. Values other than objects are kept.
pub open spec fn with_on_behalf_of_user(context: JsonView, page_id: Seq<char>) -> JsonView {
    match context {
        JsonView::Object(e) => {
            let user = match object_get(e, "user"@) {
                Some(JsonView::Object(u)) => u,
                _ => Seq::empty(),
            };
            let user2 = if object_get(user, "onBehalfOfUser"@) is Some {
                user
            } else {
                user.push(("onBehalfOfUser"@, JsonView::String(page_id)))
            };
            JsonView::Object(object_insert(e, "user"@, JsonView::Object(user2)))
        },
        _ => context,
    }
}

/// `config` with the session applied: the account index and the page go into the
/// headers, and the session's context, pointed at the page, replaces the stored one.
pub open spec fn apply_session(c: ConfigModel, s: SessionModel) -> ConfigModel {
    let h1 = match s.session_index {
        Some(i) => sorted_insert(c.headers, "x-goog-authuser"@, i),
        None => c.headers,
    };
    let page = page_id_of(s);
    let h2 = match page {
        Some(p) => sorted_insert(h1, "x-goog-pageid"@, p),
        None => h1,
    };
    let context = match s.innertube_context {
        Some(x) => match page {
            Some(p) => Some(with_on_behalf_of_user(x, p)),
            None => Some(x),
        },
        None => c.innertube_context,
    };
    ConfigModel { headers: h2, innertube_context: context, ..c }
}

impl Default for BrowserSession {
    fn default() -> (s: Self)
        ensures
            s.innertube_context is None,
            s.session_index is None,
            s.delegated_session_id is None,
            s.data_sync_id is None,
            s.user_agent is None,
    {
        BrowserSession {
            innertube_context: None,
            session_index: None,
            delegated_session_id: None,
            data_sync_id: None,
            user_agent: None,
        }
    }
}

impl BrowserSession {
    /// `has_identity`.
    pub fn has_identity(&self) -> (r: bool)
        ensures
            r == has_identity_of(self@),
    {
        if self.session_index.is_some() || self.delegated_session_id.is_some() || self.data_sync_id.is_some() {
            return true;
        }
        match &self.innertube_context {
            Some(c) => context_page_id(c).is_some(),
            None => false,
        }
    }

    /// `require_identity`: the session itself where it has an identity, else the error
    /// that the login is not ready.
    pub fn require_identity(self) -> (r: Result<Self, HelperError>)
        ensures
            r is Ok <==> has_identity_of(self@),
            match r {
                Ok(s) => s == self,
                Err(e) => e@ == identity_not_ready_error(),
            },
    {
        if self.has_identity() {
            Ok(self)
        } else {
            Err(
                HelperError::auth_required(
                    "login window session identity is not ready; wait for music.youtube.com to finish loading",
                ),
            )
        }
    }
}

/// `json_string_field`: the member `field` of `value` where it is a non-blank string.
pub fn json_string_field(value: &Json, field: &str) -> (r: Option<String>)
    ensures
        opt_str(r) == string_field(value@, field@),
{
    match value.get(field) {
        Some(v) => match v.as_str() {
            Some(t) => if str_is_blank(t) {
                None
            } else {
                Some(String::from_str(t))
            },
            None => None,
        },
        None => None,
    }
}

/// `context_page_id`: the non-blank string at `/user/onBehalfOfUser` of `context`.
pub fn context_page_id(context: &Json) -> (r: Option<String>)
    ensures
        opt_str(r) == context_page_id_of(context@),
{
    match context.get("user") {
        Some(user) => json_string_field(user, "onBehalfOfUser"),
        None => None,
    }
}

/// `browser_session_from_page`.
pub fn browser_session_from_page(value: &Json) -> (s: BrowserSession)
    ensures
        s@ == session_from_page(value@),
{
    let context = match value.get("innertubeContext") {
        Some(c) => if c.is_object() {
            Some(c.copy())
        } else {
            None
        },
        None => None,
    };
    BrowserSession {
        innertube_context: context,
        session_index: json_string_field(value, "sessionIndex"),
        delegated_session_id: json_string_field(value, "delegatedSessionId"),
        data_sync_id: json_string_field(value, "dataSyncId"),
        user_agent: json_string_field(value, "userAgent"),
    }
}

/// The index of the first `||` in `s`, or its length.
fn find_double_bar_index(s: &str) -> (i: usize)
    ensures
        i == find_double_bar(s@),
        i <= s@.len(),
{
    let n = s.unicode_len();
    let mut i: usize = 0;
    assert(s@.skip(0) =~= s@);
    while i < n
        invariant
            n == s@.len(),
            i <= n,
            find_double_bar(s@) == i + find_double_bar(s@.skip(i as int)),
            i < n || find_double_bar(s@) == n,
        decreases n - i,
    {
        if i + 1 < n && s.get_char(i) == '|' && s.get_char(i + 1) == '|' {
            return i;
        }
        assert(s@.skip(i as int).drop_first() =~= s@.skip(i + 1));
        i = i + 1;
    }
    i
}

/// `data_sync_page_id`.
pub fn data_sync_page_id(data_sync_id: &str) -> (r: Option<String>)
    ensures
        opt_str(r) == data_sync_page_id_of(data_sync_id@),
{
    let end = find_double_bar_index(data_sync_id);
    let ghost s = data_sync_id@;
    let prefix = data_sync_id.substring_char(0, end);
    assert(prefix@ =~= s.take(end as int));
    let first = trim_str(prefix);
    let m = first.unicode_len();
    if m == 0 {
        return None;
    }
    let mut k: usize = 0;
    while k < m
        invariant
            m == first@.len(),
            first@ == trim(data_sync_id@.take(find_double_bar(data_sync_id@))),
            k <= m,
            forall|j: int| 0 <= j < k ==> is_page_id_char(#[trigger] first@[j]),
        decreases m - k,
    {
        let c = first.get_char(k);
        if !(('a' <= c && c <= 'z') || ('A' <= c && c <= 'Z') || ('0' <= c && c <= '9') || c == '_' || c
            == '-') {
            assert(!is_page_id_char(first@[k as int]));
            return None;
        }
        k = k + 1;
    }
    Some(String::from_str(first))
}

/// `insert_on_behalf_of_user`: points the context at `page_id` unless it already names a page.
pub fn insert_on_behalf_of_user(context: &mut Json, page_id: &str)
    ensures
        final(context)@ == with_on_behalf_of_user(old(context)@, page_id@),
        json_wf(old(context)@) ==> json_wf(final(context)@),
{
    proof {
        if json_wf(context@) {
            lemma_on_behalf_keeps_wf(context@, page_id@);
        }
    }
    let mut taken = Json::Null;
    std::mem::swap(&mut taken, context);
    match taken {
        Json::Object(mut entries) => {
            let ghost e = entries_view(entries@);
            proof {
                lemma_object_view(entries);
                lemma_object_index(e, "user"@);
            }
            let i = find_key(&entries, "user");
            let user_is_object = i < entries.len() && entries[i].1.is_object();
            let ghost user_spec: Seq<(Seq<char>, JsonView)> = match object_get(e, "user"@) {
                Some(JsonView::Object(u)) => u,
                _ => Seq::empty(),
            };
            if !user_is_object {
                let empty: Vec<(String, Json)> = Vec::new();
                proof {
                    lemma_object_view(empty);
                    assert(entries_view(empty@) =~= Seq::<(Seq<char>, JsonView)>::empty());
                }
                let fresh = (String::from_str("user"), Json::Object(empty));
                if i < entries.len() {
                    entries.set(i, fresh);
                } else {
                    entries.push(fresh);
                }
            }
            assert(i < entries@.len());
            assert(entries@[i as int].0@ == "user"@);
            assert(entries@[i as int].1@ == JsonView::Object(user_spec));
            let ghost before_swap = entries_view(entries@);
            assert(forall|j: int| 0 <= j < e.len() && j != i ==> #[trigger] before_swap[j] == e[j]);
            assert(before_swap.len() == if i < e.len() { e.len() } else { e.len() + 1 });
            let mut slot = (String::new(), Json::Null);
            entries.set_and_swap(i, &mut slot);
            let (key, user) = slot;
            let ghost key_view = key@;
            assert(key_view == "user"@);
            assert(user@ == JsonView::Object(user_spec));
            let ghost user2_spec = if object_get(user_spec, "onBehalfOfUser"@) is Some {
                user_spec
            } else {
                user_spec.push(("onBehalfOfUser"@, JsonView::String(page_id@)))
            };
            let user2 = match user {
                Json::Object(mut u) => {
                    proof {
                        lemma_object_view(u);
                        assert(entries_view(u@) == user_spec);
                        lemma_object_index(user_spec, "onBehalfOfUser"@);
                    }
                    let j = find_key(&u, "onBehalfOfUser");
                    let ghost before = entries_view(u@);
                    if j == u.len() {
                        let member = (String::from_str("onBehalfOfUser"), Json::String(String::from_str(page_id)));
                        u.push(member);
                        assert(entries_view(u@) =~= before.push(("onBehalfOfUser"@, JsonView::String(page_id@))));
                    }
                    proof {
                        lemma_object_view(u);
                    }
                    assert(entries_view(u@) == user2_spec);
                    Json::Object(u)
                },
                other => other,
            };
            assert(user2@ == JsonView::Object(user2_spec));
            entries.set(i, (key, user2));
            proof {
                lemma_object_view(entries);
                let fin = entries_view(entries@);
                let want = object_insert(e, "user"@, JsonView::Object(user2_spec));
                assert(fin.len() == want.len());
                assert forall|j: int| 0 <= j < fin.len() implies fin[j] == want[j] by {
                    if j != i {
                        assert(fin[j] == before_swap[j]);
                    }
                }
                assert(fin =~= want);
            }
            *context = Json::Object(entries);
        },
        other => {
            *context = other;
        },
    }
}

/// `apply_browser_session`: puts the session's account index, page and context into `config`.
pub fn apply_browser_session(config: &mut AuthConfig, session: BrowserSession)
    ensures
        final(config)@ == apply_session(old(config)@, session@),
{
    let ghost s = session@;
    let BrowserSession { innertube_context, session_index, delegated_session_id, data_sync_id, user_agent: _ } =
        session;
    if let Some(index) = session_index {
        config.headers.insert(String::from_str("x-goog-authuser"), index);
    }
    let delegated: Option<String> = match delegated_session_id {
        Some(d) => if str_is_blank(d.as_str()) {
            None
        } else {
            Some(d)
        },
        None => None,
    };
    let page_id: Option<String> = match delegated {
        Some(d) => Some(d),
        None => {
            let from_context = match &innertube_context {
                Some(c) => context_page_id(c),
                None => None,
            };
            match from_context {
                Some(p) => Some(p),
                None => match &data_sync_id {
                    Some(d) => data_sync_page_id(d.as_str()),
                    None => None,
                },
            }
        },
    };
    assert(opt_str(page_id) == page_id_of(s));
    let context = match innertube_context {
        Some(mut c) => {
            if let Some(p) = &page_id {
                insert_on_behalf_of_user(&mut c, p.as_str());
            }
            Some(c)
        },
        None => None,
    };
    if let Some(p) = page_id {
        config.headers.insert(String::from_str("x-goog-pageid"), p);
    }
    if let Some(c) = context {
        config.innertube_context = Some(c);
    }
}

} // verus!
