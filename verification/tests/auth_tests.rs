use std::time::{SystemTime, UNIX_EPOCH};

use ytm_auth::capture::{
    auth_from_browser_session_capture, check_browser_session_capture, is_music_url,
    BrowserSessionCapture, BrowserSessionCaptureCookie, BrowserSessionCaptureSource,
    BROWSER_SESSION_CAPTURE_SCHEMA_VERSION,
};
use ytm_auth::config::{auth_from_cookie_map, AuthConfig, AuthSource, YTM_ORIGIN};
use ytm_auth::json::Json;
use ytm_auth::session::{apply_browser_session, BrowserSession};
use ytm_auth::string_map::StringMap;

fn test_value() -> String {
    "test-value".to_string()
}

fn now_bits() -> u64 {
    SystemTime::now()
        .duration_since(UNIX_EPOCH)
        .unwrap()
        .as_secs_f64()
        .to_bits()
}

fn text(s: &str) -> Json {
    Json::String(s.to_string())
}

fn object(members: Vec<(&str, Json)>) -> Json {
    Json::Object(members.into_iter().map(|(k, v)| (k.to_string(), v)).collect())
}

fn capture_cookie(name: &str, domain: &str, expires: f64) -> BrowserSessionCaptureCookie {
    BrowserSessionCaptureCookie {
        name: name.to_string(),
        value: test_value(),
        domain: domain.to_string(),
        expires_bits: expires.to_bits(),
    }
}

fn web_remix_context() -> Json {
    object(vec![
        ("client", object(vec![("clientName", text("WEB_REMIX"))])),
        ("user", object(vec![])),
    ])
}

#[test]
fn imports_generic_browser_session_capture() {
    let capture = BrowserSessionCapture {
        schema: BROWSER_SESSION_CAPTURE_SCHEMA_VERSION,
        source: BrowserSessionCaptureSource {
            browser: "chrome".to_string(),
            url: YTM_ORIGIN.to_string(),
            user_agent: Some("Captured source UA".to_string()),
        },
        cookies: vec![capture_cookie("__Secure-3PAPISID", ".youtube.com", 0.0)],
        page: Some(object(vec![
            ("innertubeContext", web_remix_context()),
            ("sessionIndex", text("2")),
            ("delegatedSessionId", text("brand-page-id")),
            ("dataSyncId", Json::Null),
            ("userAgent", text("Captured page UA")),
        ])),
    };

    let config = auth_from_browser_session_capture(&capture, now_bits()).unwrap();

    assert_eq!(config.source.kind, "login-window");
    assert_eq!(config.source.browser, Some("chrome".to_string()));
    assert!(config.cookie("__Secure-3PAPISID").is_some());
    assert_eq!(config.header("user-agent"), Some("Captured page UA"));
    assert_eq!(config.header("x-goog-authuser"), Some("2"));
    assert_eq!(config.header("x-goog-pageid"), Some("brand-page-id"));
}

#[test]
fn capture_import_uses_source_user_agent_when_page_omits_it() {
    let capture = BrowserSessionCapture {
        schema: BROWSER_SESSION_CAPTURE_SCHEMA_VERSION,
        source: BrowserSessionCaptureSource {
            browser: "firefox".to_string(),
            url: YTM_ORIGIN.to_string(),
            user_agent: Some("Source UA".to_string()),
        },
        cookies: vec![capture_cookie("SAPISID", ".youtube.com", 0.0)],
        page: Some(object(vec![("sessionIndex", text("1"))])),
    };

    let config = auth_from_browser_session_capture(&capture, now_bits()).unwrap();

    assert_eq!(config.header("user-agent"), Some("Source UA"));
}

#[test]
fn capture_import_rejects_unrelated_or_expired_cookies() {
    let capture = BrowserSessionCapture {
        schema: BROWSER_SESSION_CAPTURE_SCHEMA_VERSION,
        source: BrowserSessionCaptureSource {
            browser: "chrome".to_string(),
            url: YTM_ORIGIN.to_string(),
            user_agent: None,
        },
        cookies: vec![
            capture_cookie("SAPISID", ".example.com", 0.0),
            capture_cookie("__Secure-3PAPISID", ".youtube.com", 1.0),
        ],
        page: Some(object(vec![("sessionIndex", text("1"))])),
    };

    let error = match auth_from_browser_session_capture(&capture, now_bits()) {
        Ok(_) => panic!("unrelated and expired capture cookies must be rejected"),
        Err(error) => error,
    };

    assert_eq!(error.code, "auth-required");
}

#[test]
fn recognizes_music_origin_urls_without_matching_siblings() {
    assert!(is_music_url(YTM_ORIGIN));
    assert!(is_music_url("https://music.youtube.com/?feature=test"));
    assert!(is_music_url("https://music.youtube.com?feature=test"));
    assert!(!is_music_url("https://music.youtube.com.example.com"));
}

#[test]
fn rejects_capture_from_another_origin() {
    let capture = BrowserSessionCapture {
        schema: BROWSER_SESSION_CAPTURE_SCHEMA_VERSION,
        source: BrowserSessionCaptureSource {
            browser: "browser".to_string(),
            url: "https://example.com".to_string(),
            user_agent: None,
        },
        cookies: Vec::new(),
        page: Some(Json::Null),
    };

    let error = check_browser_session_capture(&capture).unwrap_err();

    assert_eq!(error.code, "auth-required");
    assert!(error.message.contains("music.youtube.com"));
}

#[test]
fn rejects_old_auth_source_kinds() {
    let mut headers = StringMap::new();
    headers.insert("cookie".to_string(), format!("SAPISID={}", test_value()));
    headers.insert("origin".to_string(), YTM_ORIGIN.to_string());
    let config = AuthConfig {
        schema: 1,
        source: AuthSource {
            kind: "browser".to_string(),
            browser: Some("chrome".to_string()),
        },
        headers,
        innertube_context: None,
    };

    let error = config.validate().unwrap_err();

    assert!(error.message.contains("rerun ytm-radio"));
    assert!(error.auth_required);
}

#[test]
fn waits_for_browser_session_identity_before_completing_login() {
    let error = BrowserSession::default().require_identity().unwrap_err();
    assert!(error.message.contains("session identity is not ready"));

    let context_only = BrowserSession {
        innertube_context: Some(web_remix_context()),
        ..BrowserSession::default()
    };
    assert!(context_only.require_identity().is_err());

    let session = BrowserSession {
        session_index: Some("1".to_string()),
        ..BrowserSession::default()
    };
    assert_eq!(
        session.require_identity().unwrap().session_index.as_deref(),
        Some("1")
    );
}

#[test]
fn applies_browser_session_identity_to_auth_config() {
    let mut cookies = StringMap::new();
    cookies.insert("SAPISID".to_string(), test_value());
    let mut config = auth_from_cookie_map(
        "login-window",
        Some("chrome"),
        cookies,
        "Browser UA",
        "missing login",
    )
    .unwrap();
    apply_browser_session(
        &mut config,
        BrowserSession {
            innertube_context: Some(web_remix_context()),
            session_index: Some("2".to_string()),
            delegated_session_id: Some("brand-page-id".to_string()),
            data_sync_id: None,
            user_agent: None,
        },
    );

    assert_eq!(config.header("x-goog-authuser"), Some("2"));
    assert_eq!(config.header("x-goog-pageid"), Some("brand-page-id"));
    assert_eq!(
        config
            .innertube_context
            .as_ref()
            .and_then(|context| context.get("user"))
            .and_then(|user| user.get("onBehalfOfUser"))
            .and_then(Json::as_str),
        Some("brand-page-id")
    );
}
