//! A captured browser session and the configuration it is turned into.
use vstd::prelude::*;
use vstd::string::*;
use crate::config::{
    auth_from_cookie_map, config_from_cookies, config_result, opt_str, AuthConfig, ConfigModel,
    YTM_ORIGIN,
};
use crate::cookies::{cookie_expired, is_cookie_expired, is_youtube_domain, youtube_domain};
use crate::error::{auth_required_error, helper_failure_error, ErrorModel, HelperError};
use crate::json::{Json, JsonView};
use crate::session::{
    apply_browser_session, apply_session, browser_session_from_page, has_identity_of,
    identity_not_ready_error, session_from_page, BrowserSession, SessionModel,
};
use crate::string_map::{sorted_insert, Entries, StringMap};
use crate::text::{decimal, decimal_string, has_prefix, is_blank, str_equal, str_is_blank, str_starts_with};

verus! {

/// The schema version of a browser-session capture.
pub const BROWSER_SESSION_CAPTURE_SCHEMA_VERSION: u32 = 1;

/// The user agent sent where neither the page nor the browser named one.
pub const DEFAULT_USER_AGENT: &'static str = "Mozilla/5.0 (Macintosh; Intel Mac OS X 10_15_7) AppleWebKit/537.36 (KHTML, like Gecko) Chrome/131.0.0.0 Safari/537.36";

/// The error message for a capture without session cookies.
pub const NOT_AUTHENTICATED_MESSAGE: &'static str = "login window is not authenticated yet; finish signing in to music.youtube.com";

/// Where a capture was taken.
#[derive(Debug)]
pub struct BrowserSessionCaptureSource {
    pub browser: String,
    pub url: String,
    pub user_agent: Option<String>,
}

/// One captured cookie. Its expiry is the bit pattern of the `f64` number of seconds
/// since the Unix epoch; zero where the cookie lasts for the session.
#[derive(Debug)]
pub struct BrowserSessionCaptureCookie {
    pub name: String,
    pub value: String,
    pub domain: String,
    pub expires_bits: u64,
}

/// A captured browser session: its cookies and what its page exposes.
#[derive(Debug)]
pub struct BrowserSessionCapture {
    pub schema: u32,
    pub source: BrowserSessionCaptureSource,
    pub cookies: Vec<BrowserSessionCaptureCookie>,
    pub page: Option<Json>,
}

/// A captured cookie as plain values.
pub struct CookieModel {
    pub name: Seq<char>,
    pub value: Seq<char>,
    pub domain: Seq<char>,
    pub expires_bits: u64,
}

/// A capture as plain values.
pub struct CaptureModel {
    pub schema: u32,
    pub browser: Seq<char>,
    pub url: Seq<char>,
    pub user_agent: Option<Seq<char>>,
    pub cookies: Seq<CookieModel>,
    pub page: Option<JsonView>,
}

pub open spec fn cookie_model(c: BrowserSessionCaptureCookie) -> CookieModel {
    CookieModel { name: c.name@, value: c.value@, domain: c.domain@, expires_bits: c.expires_bits }
}

impl View for BrowserSessionCapture {
    type V = CaptureModel;

    open spec fn view(&self) -> CaptureModel {
        CaptureModel {
            schema: self.schema,
            browser: self.source.browser@,
            url: self.source.url@,
            user_agent: opt_str(self.source.user_agent),
            cookies: self.cookies@.map_values(|c: BrowserSessionCaptureCookie| cookie_model(c)),
            page: match self.page {
                Some(p) => Some(p@),
                None => None,
            },
        }
    }
}

/// Whether `url` is the YouTube Music origin or a path, query or fragment under it.
pub open spec fn music_url(url: Seq<char>) -> bool {
    ||| url == YTM_ORIGIN@
    ||| has_prefix(url, YTM_ORIGIN@ + seq!['/'])
    ||| has_prefix(url, YTM_ORIGIN@ + seq!['?'])
    ||| has_prefix(url, YTM_ORIGIN@ + seq!['#'])
}

/// Why a capture is refused, or nothing where it is accepted.
pub open spec fn capture_error(c: CaptureModel) -> Option<ErrorModel> {
    if c.schema != 1 {
        Some(auth_required_error("unsupported browser-session capture schema "@ + decimal(c.schema as nat)))
    } else if !music_url(c.url) {
        Some(auth_required_error("browser-session capture did not originate at music.youtube.com"@))
    } else {
        None
    }
}

/// Whether a cookie is kept: it belongs to YouTube and has not expired at `now_bits`.
pub open spec fn keeps_cookie(c: CookieModel, now_bits: u64) -> bool {
    youtube_domain(c.domain) && !cookie_expired(c.expires_bits, now_bits)
}

/// The cookies kept from a capture, by name; of two with one name the later wins.
pub open spec fn kept_cookies(cs: Seq<CookieModel>, now_bits: u64) -> Entries
    decreases cs.len(),
{
    if cs.len() == 0 {
        Seq::empty()
    } else {
        let prev = kept_cookies(cs.drop_last(), now_bits);
        let c = cs.last();
        if keeps_cookie(c, now_bits) {
            sorted_insert(prev, c.name, c.value)
        } else {
            prev
        }
    }
}

/// The session with nothing in it.
pub open spec fn empty_session() -> SessionModel {
    SessionModel {
        innertube_context: None,
        session_index: None,
        delegated_session_id: None,
        data_sync_id: None,
        user_agent: None,
    }
}

/// The session that a capture's page describes.
pub open spec fn capture_session(c: CaptureModel) -> SessionModel {
    match c.page {
        Some(p) => session_from_page(p),
        None => empty_session(),
    }
}

/// The user agent of the page, else of the browser, else the default one.
pub open spec fn capture_user_agent(s: SessionModel, c: CaptureModel) -> Seq<char> {
    match s.user_agent {
        Some(u) => u,
        None => match c.user_agent {
            Some(u) => u,
            None => DEFAULT_USER_AGENT@,
        },
    }
}

/// The browser of a capture, unless its name is blank.
pub open spec fn capture_browser(c: CaptureModel) -> Option<Seq<char>> {
    if is_blank(c.browser) {
        None
    } else {
        Some(c.browser)
    }
}

/// What importing a capture at `now_bits` gives: an error where the page shows no
/// signed-in identity or no session cookie was kept, else a login-window configuration
/// of the kept cookies with the session applied.
pub open spec fn auth_from_capture(c: CaptureModel, now_bits: u64) -> Result<ConfigModel, ErrorModel> {
    let session = capture_session(c);
    if !has_identity_of(session) {
        Err(identity_not_ready_error())
    } else {
        match config_from_cookies(
            "login-window"@,
            capture_browser(c),
            kept_cookies(c.cookies, now_bits),
            capture_user_agent(session, c),
            NOT_AUTHENTICATED_MESSAGE@,
        ) {
            Ok(config) => Ok(apply_session(config, session)),
            Err(e) => Err(e),
        }
    }
}

/// `is_music_url`.
pub fn is_music_url(url: &str) -> (r: bool)
    ensures
        r == music_url(url@),
{
    let origin = YTM_ORIGIN;
    if str_equal(url, origin) {
        return true;
    }
    if !str_starts_with(url, origin) {
        proof {
            assert forall|c: char| !has_prefix(url@, origin@ + seq![c]) by {
                if has_prefix(url@, origin@ + seq![c]) {
                    let m = origin@.len() as int;
                    assert(url@.subrange(0, m) =~= url@.subrange(0, m + 1).subrange(0, m));
                    assert((origin@ + seq![c]).subrange(0, m) =~= origin@);
                    assert(has_prefix(url@, origin@));
                }
            }
        }
        return false;
    }
    let n = url.unicode_len();
    let m = origin.unicode_len();
    if n <= m {
        proof {
            assert(url@ =~= origin@);
        }
        return false;
    }
    let c = url.get_char(m);
    proof {
        assert(url@.subrange(0, m + 1) =~= origin@ + seq![c]);
        assert forall|d: char| has_prefix(url@, origin@ + seq![d]) implies d == c by {
            assert((origin@ + seq![d])[m as int] == d);
        }
    }
    c == '/' || c == '?' || c == '#'
}

/// The checks that a capture read from disk must pass: the schema, and that it was
/// taken on YouTube Music.
pub fn check_browser_session_capture(capture: &BrowserSessionCapture) -> (r: Result<(), HelperError>)
    ensures
        match r {
            Ok(()) => capture_error(capture@) is None,
            Err(e) => capture_error(capture@) == Some(e@),
        },
{
    if capture.schema != BROWSER_SESSION_CAPTURE_SCHEMA_VERSION {
        let digits = decimal_string(capture.schema as u128);
        let message = String::from_str("unsupported browser-session capture schema ").concat(digits.as_str());
        return Err(HelperError::auth_required(message.as_str()));
    }
    if !is_music_url(capture.source.url.as_str()) {
        return Err(HelperError::auth_required("browser-session capture did not originate at music.youtube.com"));
    }
    Ok(())
}

/// The cookies of `capture` that belong to YouTube and have not expired at `now_bits`.
pub fn capture_cookie_map(capture: &BrowserSessionCapture, now_bits: u64) -> (m: StringMap)
    ensures
        m@ == kept_cookies(capture@.cookies, now_bits),
{
    let ghost cs = capture@.cookies;
    let n = capture.cookies.len();
    let mut cookies = StringMap::new();
    let mut i: usize = 0;
    assert(cs.take(0) =~= Seq::<CookieModel>::empty());
    while i < n
        invariant
            n == cs.len(),
            cs == capture@.cookies,
            i <= n,
            cookies@ == kept_cookies(cs.take(i as int), now_bits),
        decreases n - i,
    {
        let cookie = &capture.cookies[i];
        assert(cs[i as int] == cookie_model(*cookie));
        assert(cs.take(i + 1).drop_last() =~= cs.take(i as int));
        if is_youtube_domain(cookie.domain.as_str()) && !is_cookie_expired(cookie.expires_bits, now_bits) {
            cookies.insert(cookie.name.clone(), cookie.value.clone());
        }
        i = i + 1;
    }
    assert(cs.take(n as int) =~= cs);
    cookies
}

/// `auth_from_browser_session_capture`: the configuration that a capture gives at the
/// time `now_bits` (the `f64` bit pattern of the seconds since the Unix epoch).
pub fn auth_from_browser_session_capture(capture: &BrowserSessionCapture, now_bits: u64) -> (r: Result<
    AuthConfig,
    HelperError,
>)
    ensures
        config_result(r) == auth_from_capture(capture@, now_bits),
{
    let cookies = capture_cookie_map(capture, now_bits);
    let found = match &capture.page {
        Some(page) => browser_session_from_page(page),
        None => BrowserSession::default(),
    };
    let session = match found.require_identity() {
        Ok(s) => s,
        Err(e) => {
            return Err(e);
        },
    };
    let user_agent: &str = match &session.user_agent {
        Some(u) => u.as_str(),
        None => match &capture.source.user_agent {
            Some(u) => u.as_str(),
            None => DEFAULT_USER_AGENT,
        },
    };
    let browser: Option<&str> = if str_is_blank(capture.source.browser.as_str()) {
        None
    } else {
        Some(capture.source.browser.as_str())
    };
    let built = auth_from_cookie_map("login-window", browser, cookies, user_agent, NOT_AUTHENTICATED_MESSAGE);
    let mut config = match built {
        Ok(c) => c,
        Err(e) => {
            return Err(e);
        },
    };
    apply_browser_session(&mut config, session);
    Ok(config)
}

/// How an import ends once the capture file was removed or failed to be: the import's
/// own error where it failed; else its configuration where the removal succeeded; else
/// the error that the capture at `capture_path` could not be removed.
pub fn finish_import(
    result: Result<AuthConfig, HelperError>,
    removal_error: Option<&str>,
    capture_path: &str,
) -> (r: Result<AuthConfig, HelperError>)
    ensures
        match result {
            Err(e) => r == Err::<AuthConfig, HelperError>(e),
            Ok(c) => match removal_error {
                None => r == Ok::<AuthConfig, HelperError>(c),
                Some(m) => match r {
                    Err(e) => e@ == helper_failure_error(
                        "cannot remove imported capture `"@ + capture_path@ + "`: "@ + m@,
                    ),
                    Ok(_) => false,
                },
            },
        },
{
    match result {
        Err(e) => Err(e),
        Ok(c) => match removal_error {
            None => Ok(c),
            Some(m) => {
                let message = String::from_str("cannot remove imported capture `").concat(capture_path).concat(
                    "`: ",
                ).concat(m);
                Err(HelperError::helper_failure(message.as_str()))
            },
        },
    }
}

} // verus!
