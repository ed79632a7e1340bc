//! The stored authentication configuration: what it holds, how a header or cookie
//! is read from it, when it is valid, and how one is built from captured cookies.
use vstd::prelude::*;
use vstd::string::*;
use crate::cookies::{cookie_header, cookie_header_of, cookie_value, cookie_value_of};
use crate::error::{auth_required_error, ErrorModel, HelperError};
use crate::json::{Json, JsonView};
use crate::string_map::{lemma_sorted_insert_last, lookup, Entries, StringMap};
use crate::text::{decimal, decimal_string, eq_ignore_ascii_case, str_eq_ignore_ascii_case, str_equal, str_lt};

verus! {

/// The origin of YouTube Music.
pub const YTM_ORIGIN: &'static str = "https://music.youtube.com";

/// The schema version of a stored configuration.
pub const AUTH_SCHEMA_VERSION: u32 = 1;

/// Where the credentials of a configuration came from.
#[derive(Debug)]
pub struct AuthSource {
    pub kind: String,
    pub browser: Option<String>,
}

/// The stored authentication configuration.
#[derive(Debug)]
pub struct AuthConfig {
    pub schema: u32,
    pub source: AuthSource,
    pub headers: StringMap,
    pub innertube_context: Option<Json>,
}

/// The text of an optional string.
pub open spec fn opt_str(o: Option<String>) -> Option<Seq<char>> {
    match o {
        Some(s) => Some(s@),
        None => None,
    }
}

/// An optional JSON value, as plain values.
pub open spec fn opt_json(o: Option<Json>) -> Option<JsonView> {
    match o {
        Some(j) => Some(j@),
        None => None,
    }
}

/// A configuration as plain values.
pub struct ConfigModel {
    pub schema: u32,
    pub kind: Seq<char>,
    pub browser: Option<Seq<char>>,
    pub headers: Entries,
    pub innertube_context: Option<JsonView>,
}

impl View for AuthConfig {
    type V = ConfigModel;

    open spec fn view(&self) -> ConfigModel {
        ConfigModel {
            schema: self.schema,
            kind: self.source.kind@,
            browser: opt_str(self.source.browser),
            headers: self.headers@,
            innertube_context: opt_json(self.innertube_context),
        }
    }
}

impl Clone for AuthSource {
    fn clone(&self) -> (r: Self)
        ensures
            r == *self,
    {
        let browser = match &self.browser {
            Some(b) => Some(b.clone()),
            None => None,
        };
        AuthSource { kind: self.kind.clone(), browser }
    }
}

impl Clone for AuthConfig {
    fn clone(&self) -> (r: Self)
        ensures
            r@ == self@,
    {
        let context = match &self.innertube_context {
            Some(c) => Some(c.copy()),
            None => None,
        };
        AuthConfig {
            schema: self.schema,
            source: self.source.clone(),
            headers: self.headers.clone(),
            innertube_context: context,
        }
    }
}

/// The value of the first header (in key order) named `name`, ignoring ASCII case.
pub open spec fn header_of(h: Entries, name: Seq<char>) -> Option<Seq<char>>
    decreases h.len(),
{
    if h.len() == 0 {
        None
    } else if eq_ignore_ascii_case(h[0].0, name) {
        Some(h[0].1)
    } else {
        header_of(h.drop_first(), name)
    }
}

/// Why a configuration is not valid, or nothing when it is.
pub open spec fn validation_error(c: ConfigModel) -> Option<ErrorModel> {
    if c.schema != 1 {
        Some(auth_required_error("unsupported auth schema "@ + decimal(c.schema as nat)))
    } else if c.kind != "login-window"@ {
        Some(auth_required_error("unsupported auth source; rerun ytm-radio"@))
    } else {
        match header_of(c.headers, "cookie"@) {
            None => Some(auth_required_error("auth file is missing the cookie header"@)),
            Some(cookie) => if cookie_value_of(cookie, "__Secure-3PAPISID"@) is None
                && cookie_value_of(cookie, "SAPISID"@) is None {
                Some(
                    auth_required_error(
                        "auth cookie is missing __Secure-3PAPISID or SAPISID; log in to YouTube Music"@,
                    ),
                )
            } else {
                None
            },
        }
    }
}

/// The headers of a configuration built from cookies.
pub open spec fn initial_headers(cookies: Entries, user_agent: Seq<char>) -> Entries {
    seq![
        ("cookie"@, cookie_header_of(cookies)),
        ("origin"@, YTM_ORIGIN@),
        ("user-agent"@, user_agent),
        ("x-goog-authuser"@, "0"@),
    ]
}

/// What `auth_from_cookie_map` gives: an error where neither `__Secure-3PAPISID` nor
/// `SAPISID` is among the cookies, else a configuration of schema 1 whose headers carry
/// the cookies, the origin, the user agent, and the first account.
pub open spec fn config_from_cookies(
    kind: Seq<char>,
    browser: Option<Seq<char>>,
    cookies: Entries,
    user_agent: Seq<char>,
    missing_error: Seq<char>,
) -> Result<ConfigModel, ErrorModel> {
    if lookup(cookies, "__Secure-3PAPISID"@) is None && lookup(cookies, "SAPISID"@) is None {
        Err(auth_required_error(missing_error))
    } else {
        Ok(
            ConfigModel {
                schema: 1,
                kind,
                browser,
                headers: initial_headers(cookies, user_agent),
                innertube_context: None,
            },
        )
    }
}

/// A result carrying a configuration, as plain values.
pub open spec fn config_result(r: Result<AuthConfig, HelperError>) -> Result<ConfigModel, ErrorModel> {
    match r {
        Ok(c) => Ok(c@),
        Err(e) => Err(e@),
    }
}

impl AuthConfig {
    /// `validate`: succeeds exactly on the configurations that `validation_error` finds nothing in.
    pub fn validate(&self) -> (r: Result<(), HelperError>)
        ensures
            match r {
                Ok(()) => validation_error(self@) is None,
                Err(e) => validation_error(self@) == Some(e@),
            },
    {
        if self.schema != 1 {
            let digits = decimal_string(self.schema as u128);
            let message = String::from_str("unsupported auth schema ").concat(digits.as_str());
            return Err(HelperError::auth_required(message.as_str()));
        }
        if !str_equal(self.source.kind.as_str(), "login-window") {
            return Err(HelperError::auth_required("unsupported auth source; rerun ytm-radio"));
        }
        let cookie = match self.header("cookie") {
            Some(c) => c,
            None => {
                return Err(HelperError::auth_required("auth file is missing the cookie header"));
            },
        };
        if cookie_value(cookie, "__Secure-3PAPISID").is_none() && cookie_value(cookie, "SAPISID").is_none() {
            return Err(
                HelperError::auth_required(
                    "auth cookie is missing __Secure-3PAPISID or SAPISID; log in to YouTube Music",
                ),
            );
        }
        Ok(())
    }

    /// `header`: the value of the first header, in key order, named `name` but for ASCII case.
    pub fn header(&self, name: &str) -> (r: Option<&str>)
        ensures
            match r {
                Some(v) => header_of(self@.headers, name@) == Some(v@),
                None => header_of(self@.headers, name@) is None,
            },
    {
        let n = self.headers.len();
        let ghost h = self.headers@;
        let mut i: usize = 0;
        assert(h.skip(0) =~= h);
        while i < n
            invariant
                n == h.len(),
                h == self.headers@,
                i <= n,
                header_of(h, name@) == header_of(h.skip(i as int), name@),
            decreases n - i,
        {
            if str_eq_ignore_ascii_case(self.headers.key_at(i), name) {
                return Some(self.headers.value_at(i));
            }
            assert(h.skip(i as int).drop_first() =~= h.skip(i + 1));
            i = i + 1;
        }
        None
    }

    /// `cookie`: the value of cookie `name` in the `cookie` header.
    pub fn cookie(&self, name: &str) -> (r: Option<&str>)
        ensures
            match header_of(self@.headers, "cookie"@) {
                Some(h) => match r {
                    Some(v) => cookie_value_of(h, name@) == Some(v@),
                    None => cookie_value_of(h, name@) is None,
                },
                None => r is None,
            },
    {
        match self.header("cookie") {
            Some(h) => cookie_value(h, name),
            None => None,
        }
    }
}

/// The name of the temporary file that a configuration is first written to: the name of
/// the target file (`auth` where it has none), the process id and the time in
/// nanoseconds, as `.{name}.{pid}.{nanos}.tmp`.
pub open spec fn temporary_name_of(file_name: Option<Seq<char>>, pid: nat, nanos: nat) -> Seq<char> {
    let name = match file_name {
        Some(n) => n,
        None => "auth"@,
    };
    "."@ + name + "."@ + decimal(pid) + "."@ + decimal(nanos) + ".tmp"@
}

/// `temporary_file_name`: the name of the temporary file beside `file_name`.
pub fn temporary_file_name(file_name: Option<&str>, pid: u32, nanos: u128) -> (r: String)
    ensures
        r@ == temporary_name_of(
            match file_name {
                Some(n) => Some(n@),
                None => None,
            },
            pid as nat,
            nanos as nat,
        ),
{
    let name = match file_name {
        Some(n) => n,
        None => "auth",
    };
    let pid_text = decimal_string(pid as u128);
    let nanos_text = decimal_string(nanos);
    let mut r = String::from_str(".");
    r.append(name);
    r.append(".");
    r.append(pid_text.as_str());
    r.append(".");
    r.append(nanos_text.as_str());
    r.append(".tmp");
    r
}

/// `auth_from_cookie_map`: a configuration that carries `cookies` in its `cookie` header,
/// or the `missing_error` where no session cookie is among them.
pub fn auth_from_cookie_map(
    source_kind: &str,
    browser: Option<&str>,
    cookies: StringMap,
    user_agent: &str,
    missing_error: &str,
) -> (r: Result<AuthConfig, HelperError>)
    ensures
        config_result(r) == config_from_cookies(
            source_kind@,
            match browser {
                Some(b) => Some(b@),
                None => None,
            },
            cookies@,
            user_agent@,
            missing_error@,
        ),
{
    if !cookies.contains_key("__Secure-3PAPISID") && !cookies.contains_key("SAPISID") {
        return Err(HelperError::auth_required(missing_error));
    }
    let header = cookie_header(&cookies);
    proof {
        reveal_strlit("cookie");
        reveal_strlit("origin");
        reveal_strlit("user-agent");
        reveal_strlit("x-goog-authuser");
        assert(str_lt("cookie"@, "origin"@));
        assert(str_lt("cookie"@, "user-agent"@));
        assert(str_lt("cookie"@, "x-goog-authuser"@));
        assert(str_lt("origin"@, "user-agent"@));
        assert(str_lt("origin"@, "x-goog-authuser"@));
        assert(str_lt("user-agent"@, "x-goog-authuser"@));
    }
    let mut headers = StringMap::new();
    headers.insert(String::from_str("cookie"), header);
    proof {
        lemma_sorted_insert_last(Seq::empty(), "cookie"@, cookie_header_of(cookies@));
    }
    let ghost h1 = headers@;
    headers.insert(String::from_str("origin"), String::from_str(YTM_ORIGIN));
    proof {
        lemma_sorted_insert_last(h1, "origin"@, YTM_ORIGIN@);
    }
    let ghost h2 = headers@;
    headers.insert(String::from_str("user-agent"), String::from_str(user_agent));
    proof {
        lemma_sorted_insert_last(h2, "user-agent"@, user_agent@);
    }
    let ghost h3 = headers@;
    headers.insert(String::from_str("x-goog-authuser"), String::from_str("0"));
    proof {
        lemma_sorted_insert_last(h3, "x-goog-authuser"@, "0"@);
        assert(headers@ =~= initial_headers(cookies@, user_agent@));
    }
    let browser_name = match browser {
        Some(b) => Some(String::from_str(b)),
        None => None,
    };
    Ok(
        AuthConfig {
            schema: 1,
            source: AuthSource { kind: String::from_str(source_kind), browser: browser_name },
            headers,
            innertube_context: None,
        },
    )
}

} // verus!
