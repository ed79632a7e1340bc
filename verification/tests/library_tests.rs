use ytm_auth::capture::{
    auth_from_browser_session_capture, capture_cookie_map, check_browser_session_capture,
    finish_import, BrowserSessionCapture, BrowserSessionCaptureCookie, BrowserSessionCaptureSource,
    DEFAULT_USER_AGENT,
};
use ytm_auth::config::{auth_from_cookie_map, temporary_file_name, AuthConfig, AuthSource, YTM_ORIGIN};
use ytm_auth::cookies::{cookie_header, cookie_value, is_cookie_expired, is_youtube_domain};
use ytm_auth::error::HelperError;
use ytm_auth::json::Json;
use ytm_auth::session::{
    apply_browser_session, browser_session_from_page, context_page_id, data_sync_page_id,
    insert_on_behalf_of_user, json_string_field, BrowserSession,
};
use ytm_auth::string_map::StringMap;
use ytm_auth::text::{decimal_string, str_eq_ignore_ascii_case, str_less, trim_str};

/// Seconds since the epoch of 2024-09-01, as an `f64` bit pattern.
fn fixed_now() -> u64 {
    1_725_148_800.0f64.to_bits()
}

fn text(s: &str) -> Json {
    Json::String(s.to_string())
}

fn object(members: Vec<(&str, Json)>) -> Json {
    Json::Object(members.into_iter().map(|(k, v)| (k.to_string(), v)).collect())
}

fn cookie(name: &str, value: &str, domain: &str, expires: f64) -> BrowserSessionCaptureCookie {
    BrowserSessionCaptureCookie {
        name: name.to_string(),
        value: value.to_string(),
        domain: domain.to_string(),
        expires_bits: expires.to_bits(),
    }
}

fn capture(
    browser: &str,
    user_agent: Option<&str>,
    cookies: Vec<BrowserSessionCaptureCookie>,
    page: Option<Json>,
) -> BrowserSessionCapture {
    BrowserSessionCapture {
        schema: 1,
        source: BrowserSessionCaptureSource {
            browser: browser.to_string(),
            url: YTM_ORIGIN.to_string(),
            user_agent: user_agent.map(str::to_string),
        },
        cookies,
        page,
    }
}

fn login_config(cookie_header_value: &str) -> AuthConfig {
    let mut headers = StringMap::new();
    headers.insert("cookie".to_string(), cookie_header_value.to_string());
    AuthConfig {
        schema: 1,
        source: AuthSource { kind: "login-window".to_string(), browser: None },
        headers,
        innertube_context: None,
    }
}

fn map_entries(map: &StringMap) -> Vec<(String, String)> {
    (0..map.len())
        .map(|i| (map.key_at(i).to_string(), map.value_at(i).to_string()))
        .collect()
}

#[test]
fn string_map_keeps_keys_sorted_and_replaces_values() {
    let mut map = StringMap::new();
    map.insert("origin".to_string(), "o".to_string());
    map.insert("cookie".to_string(), "c".to_string());
    map.insert("x-goog-authuser".to_string(), "0".to_string());
    map.insert("Cookie".to_string(), "C".to_string());
    map.insert("x-goog-authuser".to_string(), "3".to_string());
    assert_eq!(
        map_entries(&map),
        vec![
            ("Cookie".to_string(), "C".to_string()),
            ("cookie".to_string(), "c".to_string()),
            ("origin".to_string(), "o".to_string()),
            ("x-goog-authuser".to_string(), "3".to_string()),
        ]
    );
    assert_eq!(map.get("x-goog-authuser"), Some("3"));
    assert_eq!(map.get("missing"), None);
    assert!(map.contains_key("origin"));
    let copy = map.clone();
    assert_eq!(map_entries(&copy), map_entries(&map));
}

#[test]
fn string_order_is_by_code_point() {
    assert!(str_less("Cookie", "cookie"));
    assert!(str_less("ab", "abc"));
    assert!(!str_less("abc", "abc"));
    assert!(str_less("z", "\u{e9}"));
}

#[test]
fn header_names_ignore_ascii_case_and_take_the_first_in_key_order() {
    let mut config = login_config("SAPISID=lower");
    config.headers.insert("COOKIE".to_string(), "SAPISID=upper".to_string());
    assert_eq!(config.header("Cookie"), Some("SAPISID=upper"));
    assert_eq!(config.cookie("SAPISID"), Some("upper"));
    assert_eq!(config.header("x-goog-pageid"), None);
    assert!(str_eq_ignore_ascii_case("User-Agent", "user-agent"));
    assert!(!str_eq_ignore_ascii_case("user-agent", "user-agen"));
}

#[test]
fn cookie_value_reads_trimmed_parts() {
    assert_eq!(cookie_value("a=1; SAPISID=xyz; b=2", "SAPISID"), Some("xyz"));
    assert_eq!(cookie_value("  SAPISID=v=w  ", "SAPISID"), Some("v=w"));
    assert_eq!(cookie_value("novalue; SAPISID=", "SAPISID"), Some(""));
    assert_eq!(cookie_value("SAPISID =x", "SAPISID"), None);
    assert_eq!(cookie_value("", "SAPISID"), None);
    assert_eq!(cookie_value("x=1;SAPISID=first;SAPISID=second", "SAPISID"), Some("first"));
}

#[test]
fn validate_reports_each_failure() {
    assert!(login_config("__Secure-3PAPISID=a").validate().is_ok());
    assert!(login_config("SAPISID=b").validate().is_ok());

    let mut config = login_config("SAPISID=b");
    config.schema = 42;
    let error = config.validate().unwrap_err();
    assert_eq!(error.message, "unsupported auth schema 42");
    assert_eq!(error.code, "auth-required");

    let config = AuthConfig {
        schema: 1,
        source: AuthSource { kind: "login-window".to_string(), browser: None },
        headers: StringMap::new(),
        innertube_context: None,
    };
    assert_eq!(
        config.validate().unwrap_err().message,
        "auth file is missing the cookie header"
    );

    let error = login_config("HSID=x; SID=y").validate().unwrap_err();
    assert_eq!(
        error.message,
        "auth cookie is missing __Secure-3PAPISID or SAPISID; log in to YouTube Music"
    );
}

#[test]
fn youtube_domains_ignore_leading_dots() {
    assert!(is_youtube_domain("youtube.com"));
    assert!(is_youtube_domain(".youtube.com"));
    assert!(is_youtube_domain("..music.youtube.com"));
    assert!(!is_youtube_domain("notyoutube.com"));
    assert!(!is_youtube_domain("youtube.com.example.com"));
    assert!(!is_youtube_domain(""));
}

#[test]
fn cookie_expiry_follows_float_comparison() {
    let now = fixed_now();
    assert!(is_cookie_expired(1.0f64.to_bits(), now));
    assert!(is_cookie_expired(1_725_148_800.0f64.to_bits(), now));
    assert!(!is_cookie_expired(0.0f64.to_bits(), now));
    assert!(!is_cookie_expired((-0.0f64).to_bits(), now));
    assert!(!is_cookie_expired((-5.0f64).to_bits(), now));
    assert!(!is_cookie_expired(f64::NAN.to_bits(), now));
    assert!(!is_cookie_expired(f64::INFINITY.to_bits(), now));
    assert!(!is_cookie_expired(1_800_000_000.0f64.to_bits(), now));
}

#[test]
fn kept_cookies_are_sorted_and_the_later_wins() {
    let c = capture(
        "chrome",
        None,
        vec![
            cookie("SID", "old", ".youtube.com", 0.0),
            cookie("HSID", "h", "youtube.com", 0.0),
            cookie("SID", "new", "music.youtube.com", 0.0),
            cookie("NID", "n", ".google.com", 0.0),
            cookie("SSID", "gone", ".youtube.com", 2.0),
        ],
        None,
    );
    let map = capture_cookie_map(&c, fixed_now());
    assert_eq!(cookie_header(&map), "HSID=h; SID=new");
}

#[test]
fn missing_session_cookie_gives_the_login_error() {
    let c = capture(
        "chrome",
        None,
        vec![cookie("HSID", "h", ".youtube.com", 0.0)],
        Some(object(vec![("sessionIndex", text("0"))])),
    );
    let error = auth_from_browser_session_capture(&c, fixed_now()).unwrap_err();
    assert_eq!(
        error.message,
        "login window is not authenticated yet; finish signing in to music.youtube.com"
    );
    assert!(error.auth_required);
}

#[test]
fn capture_without_page_waits_for_identity() {
    let c = capture("chrome", None, vec![cookie("SAPISID", "v", ".youtube.com", 0.0)], None);
    let error = auth_from_browser_session_capture(&c, fixed_now()).unwrap_err();
    assert!(error.message.contains("session identity is not ready"));
}

#[test]
fn capture_defaults_user_agent_and_drops_blank_browser() {
    let c = capture(
        "  ",
        None,
        vec![cookie("SAPISID", "v", ".youtube.com", 0.0)],
        Some(object(vec![("dataSyncId", text("page_1||user"))])),
    );
    let config = auth_from_browser_session_capture(&c, fixed_now()).unwrap();
    assert_eq!(config.header("user-agent"), Some(DEFAULT_USER_AGENT));
    assert_eq!(config.source.browser, None);
    assert_eq!(config.header("x-goog-pageid"), Some("page_1"));
    assert_eq!(config.header("x-goog-authuser"), Some("0"));
    assert_eq!(config.header("cookie"), Some("SAPISID=v"));
    assert_eq!(config.header("origin"), Some(YTM_ORIGIN));
    assert!(config.validate().is_ok());
}

#[test]
fn imported_configuration_validates() {
    let c = capture(
        "chrome",
        Some("UA"),
        vec![
            cookie("A", "x;y", ".youtube.com", 0.0),
            cookie("__Secure-3PAPISID", " spaced ", ".youtube.com", 0.0),
        ],
        Some(object(vec![("delegatedSessionId", text("brand"))])),
    );
    let config = auth_from_browser_session_capture(&c, fixed_now()).unwrap();
    assert!(config.validate().is_ok());
    assert_eq!(config.cookie("__Secure-3PAPISID"), Some(" spaced"));
}

#[test]
fn check_rejects_other_schema() {
    let mut c = capture("chrome", None, Vec::new(), None);
    c.schema = 2;
    let error = check_browser_session_capture(&c).unwrap_err();
    assert_eq!(error.message, "unsupported browser-session capture schema 2");
    c.schema = 1;
    assert!(check_browser_session_capture(&c).is_ok());
    c.source.url = "https://music.youtube.com#x".to_string();
    assert!(check_browser_session_capture(&c).is_ok());
}

#[test]
fn data_sync_page_id_takes_the_first_clean_segment() {
    assert_eq!(data_sync_page_id("abc||def"), Some("abc".to_string()));
    assert_eq!(data_sync_page_id(" ab-c_1 ||x"), Some("ab-c_1".to_string()));
    assert_eq!(data_sync_page_id("plain"), Some("plain".to_string()));
    assert_eq!(data_sync_page_id("a|b||c"), None);
    assert_eq!(data_sync_page_id("a b||c"), None);
    assert_eq!(data_sync_page_id("||c"), None);
    assert_eq!(data_sync_page_id(""), None);
}

#[test]
fn page_fields_must_be_non_blank_strings() {
    let page = object(vec![
        ("sessionIndex", text(" ")),
        ("delegatedSessionId", Json::Number("7".to_string())),
        ("dataSyncId", text("d||e")),
        ("userAgent", text("UA")),
        ("innertubeContext", text("not an object")),
    ]);
    assert_eq!(json_string_field(&page, "sessionIndex"), None);
    assert_eq!(json_string_field(&page, "delegatedSessionId"), None);
    assert_eq!(json_string_field(&page, "userAgent"), Some("UA".to_string()));
    let session = browser_session_from_page(&page);
    assert!(session.innertube_context.is_none());
    assert_eq!(session.data_sync_id.as_deref(), Some("d||e"));
    assert!(session.has_identity());
    assert!(!browser_session_from_page(&Json::Null).has_identity());
}

#[test]
fn context_page_id_reads_on_behalf_of_user() {
    let context = object(vec![("user", object(vec![("onBehalfOfUser", text("page"))]))]);
    assert_eq!(context_page_id(&context), Some("page".to_string()));
    let blank = object(vec![("user", object(vec![("onBehalfOfUser", text(""))]))]);
    assert_eq!(context_page_id(&blank), None);
    assert_eq!(context_page_id(&Json::Array(vec![context])), None);
    let session = BrowserSession {
        innertube_context: Some(blank),
        ..BrowserSession::default()
    };
    assert!(!session.has_identity());
}

#[test]
fn on_behalf_of_user_is_set_once() {
    let mut context = object(vec![("user", text("not an object")), ("client", object(vec![]))]);
    insert_on_behalf_of_user(&mut context, "first");
    insert_on_behalf_of_user(&mut context, "second");
    assert_eq!(
        context.get("user").and_then(|u| u.get("onBehalfOfUser")).and_then(Json::as_str),
        Some("first")
    );
    assert!(context.get("client").is_some());

    let mut scalar = text("x");
    insert_on_behalf_of_user(&mut scalar, "p");
    assert_eq!(scalar.as_str(), Some("x"));

    let mut fresh = object(vec![]);
    insert_on_behalf_of_user(&mut fresh, "p");
    assert!(fresh.get("user").map(Json::is_object).unwrap_or(false));
}

#[test]
fn applying_a_session_keeps_a_valid_configuration_valid() {
    let mut cookies = StringMap::new();
    cookies.insert("SAPISID".to_string(), "v".to_string());
    let mut config =
        auth_from_cookie_map("login-window", None, cookies, "UA", "missing").unwrap();
    assert!(config.validate().is_ok());
    let before = config.header("cookie").map(str::to_string);
    apply_browser_session(
        &mut config,
        BrowserSession {
            session_index: Some("5".to_string()),
            delegated_session_id: Some("   ".to_string()),
            data_sync_id: Some("ds||x".to_string()),
            ..BrowserSession::default()
        },
    );
    assert!(config.validate().is_ok());
    assert_eq!(config.header("cookie").map(str::to_string), before);
    assert_eq!(config.header("x-goog-authuser"), Some("5"));
    assert_eq!(config.header("x-goog-pageid"), Some("ds"));
    assert!(config.innertube_context.is_none());
}

#[test]
fn cookie_map_without_session_cookie_is_refused() {
    let mut cookies = StringMap::new();
    cookies.insert("HSID".to_string(), "h".to_string());
    let error = auth_from_cookie_map("login-window", None, cookies, "UA", "no session").unwrap_err();
    assert_eq!(error.message, "no session");
    assert_eq!(error.code, "auth-required");
}

#[test]
fn finish_import_reports_removal_failure_only_after_success() {
    let config = login_config("SAPISID=v");
    let done = finish_import(Ok(config.clone()), None, "/tmp/c.json").unwrap();
    assert_eq!(done.header("cookie"), Some("SAPISID=v"));

    let error = finish_import(Ok(config), Some("denied"), "/tmp/c.json").unwrap_err();
    assert_eq!(error.message, "cannot remove imported capture `/tmp/c.json`: denied");
    assert_eq!(error.code, "helper-failure");
    assert!(!error.auth_required);

    let error = finish_import(Err(HelperError::auth_required("bad")), Some("denied"), "/tmp/c.json")
        .unwrap_err();
    assert_eq!(error.message, "bad");
}

#[test]
fn error_constructors_set_codes() {
    let e = HelperError::invalid_request("same path");
    assert_eq!(e.code, "invalid-request");
    assert!(!e.auth_required);
    let e = HelperError::auth_required("log in");
    assert_eq!(e.code, "auth-required");
    assert!(e.auth_required);
}

#[test]
fn text_helpers() {
    assert_eq!(decimal_string(0), "0");
    assert_eq!(decimal_string(4_294_967_295), "4294967295");
    assert_eq!(trim_str("\u{3000} x y\u{a0}\t"), "x y");
    assert_eq!(trim_str("   "), "");
}

#[test]
fn json_copies_are_equal() {
    let value = object(vec![
        ("a", Json::Array(vec![Json::Bool(true), Json::Number("1.5".to_string())])),
        ("b", Json::Null),
    ]);
    let copy = value.clone();
    assert_eq!(format!("{:?}", copy), format!("{:?}", value));
}

#[test]
fn cookie_header_reads_back_plain_cookies() {
    let mut cookies = StringMap::new();
    cookies.insert("SAPISID".to_string(), "abc".to_string());
    cookies.insert("A".to_string(), "1".to_string());
    cookies.insert("Z".to_string(), "".to_string());
    let header = cookie_header(&cookies);
    assert_eq!(header, "A=1; SAPISID=abc; Z=");
    assert_eq!(cookie_value(&header, "SAPISID"), Some("abc"));
    assert_eq!(cookie_value(&header, "A"), Some("1"));
    assert_eq!(cookie_value(&header, "Z"), Some(""));
    assert_eq!(cookie_value(&header, "B"), None);
}

#[test]
fn config_reads_back_every_cookie_including_empty_name() {
    let mut cookies = StringMap::new();
    cookies.insert("".to_string(), "anonymous".to_string());
    cookies.insert("SAPISID".to_string(), "abc".to_string());
    cookies.insert("HSID".to_string(), "h".to_string());
    cookies.keys_sorted();
    let config = auth_from_cookie_map("login-window", None, cookies, "UA", "missing").unwrap();
    assert_eq!(config.header("cookie"), Some("=anonymous; HSID=h; SAPISID=abc"));
    assert_eq!(config.cookie(""), Some("anonymous"));
    assert_eq!(config.cookie("HSID"), Some("h"));
    assert_eq!(config.cookie("SAPISID"), Some("abc"));
    assert_eq!(config.cookie("SID"), None);
}

#[test]
fn temporary_file_names_carry_name_pid_and_time() {
    assert_eq!(temporary_file_name(Some("auth.json"), 42, 123), ".auth.json.42.123.tmp");
    assert_eq!(temporary_file_name(None, 7, 0), ".auth.7.0.tmp");
    assert_eq!(
        temporary_file_name(Some("x"), 4_294_967_295, 1_725_148_800_123_456_789),
        ".x.4294967295.1725148800123456789.tmp"
    );
}

#[test]
fn json_get_reads_the_named_member_of_an_object() {
    let value = object(vec![("a", text("1")), ("b", object(vec![("c", Json::Null)]))]);
    assert_eq!(value.get("a").and_then(Json::as_str), Some("1"));
    assert!(value.get("b").map(Json::is_object).unwrap_or(false));
    assert!(value.get("c").is_none());
    assert!(text("a").get("a").is_none());
}
