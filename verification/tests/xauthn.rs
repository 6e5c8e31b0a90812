use ia_get_core::error::IaGetError;
use ia_get_core::xauthn::{
    accept_login_reply, describe_failure, describe_xauthn_failure, login_form,
    parse_login_session, read_login_reply, session_cookie, LoginSession, XAuthnCookies,
    XAuthnResponse, XAuthnValues,
};
use reqwest::cookie::{CookieStore, Jar};
use reqwest::StatusCode;
use serde_json::Value;

/// Sample success response of the XAuthn login endpoint
const XAUTHN_SUCCESS_JSON: &str = r#"{
        "success": true,
        "version": 1,
        "values": {
            "screenname": "someuser",
            "s3": {"access": "abc", "secret": "xyz"},
            "cookies": {
                "logged-in-user": "user%40example.com",
                "logged-in-sig": "s1gn4tur3"
            }
        }
    }"#;

fn text(value: &Value, key: &str) -> Option<String> {
    value
        .get(key)
        .and_then(|text| text.as_str())
        .map(|text| text.to_string())
}

fn payload(json: &str) -> XAuthnResponse {
    let value: Value = serde_json::from_str(json).expect("payload should parse");
    XAuthnResponse {
        success: value
            .get("success")
            .and_then(|success| success.as_bool())
            .expect("payload should report success or failure"),
        values: value.get("values").map(|values| XAuthnValues {
            reason: text(values, "reason"),
            cookies: values.get("cookies").map(|cookies| XAuthnCookies {
                logged_in_user: text(cookies, "logged-in-user"),
                logged_in_sig: text(cookies, "logged-in-sig"),
            }),
        }),
        error: text(&value, "error"),
    }
}

#[test]
fn xauthn_success_payload_yields_session_cookies() {
    let payload = payload(XAUTHN_SUCCESS_JSON);

    let session = parse_login_session(&payload).expect("Session cookies should be extracted");
    assert_eq!(session.logged_in_user, "user%40example.com");
    assert_eq!(session.logged_in_sig, "s1gn4tur3");

    for cookie in session.cookie_strings() {
        assert!(cookie.contains("logged-in-user=") || cookie.contains("logged-in-sig="));
        assert!(cookie.contains("Domain=.archive.org"));
        assert!(cookie.contains("Path=/"));
        assert!(cookie.contains("Secure"));
    }
}

#[test]
fn xauthn_failure_reason_maps_to_actionable_message() {
    let payload = payload(
        r#"{"success":false,"values":{"reason":"account_bad_password"},"version":1}"#,
    );

    let description = describe_xauthn_failure(StatusCode::UNAUTHORIZED.as_u16(), &payload);
    assert!(description.contains("HTTP 401"));
    assert!(description.contains("Incorrect password"));
}

#[test]
fn xauthn_unknown_failure_reason_is_shown_verbatim() {
    let payload = payload(
        r#"{"success":false,"values":{"reason":"server_on_fire"},"version":1}"#,
    );

    let description = describe_xauthn_failure(StatusCode::UNAUTHORIZED.as_u16(), &payload);
    assert!(description.contains("server_on_fire"));
}

#[test]
fn xauthn_failure_without_reason_falls_back_to_error_field() {
    let payload = payload(r#"{"success":false,"error":"bad request","version":1}"#);

    let description = describe_xauthn_failure(StatusCode::BAD_REQUEST.as_u16(), &payload);
    assert!(description.contains("bad request"));
}

#[test]
fn session_cookies_are_sent_to_archive_org_and_download_subdomains() {
    let session = LoginSession {
        logged_in_user: "user%40example.com".to_string(),
        logged_in_sig: "s1gn4tur3".to_string(),
    };
    let jar = Jar::default();
    let archive_org = reqwest::Url::parse("https://archive.org/").unwrap();

    for cookie in session.cookie_strings() {
        jar.add_cookie_str(&cookie, &archive_org);
    }

    for url in [
        "https://archive.org/download/some-item/file.zip",
        "https://ia601504.us.archive.org/some-item/file.zip",
    ] {
        let header = jar
            .cookies(&reqwest::Url::parse(url).unwrap())
            .unwrap_or_else(|| panic!("cookies should be sent to {url}"));
        let header = header.to_str().unwrap();
        assert!(
            header.contains("logged-in-user=user%40example.com"),
            "{url}"
        );
        assert!(header.contains("logged-in-sig=s1gn4tur3"), "{url}");
    }
}

#[test]
fn session_cookies_go_nowhere_else() {
    let session = LoginSession {
        logged_in_user: "u".to_string(),
        logged_in_sig: "s".to_string(),
    };
    let jar = Jar::default();
    let archive_org = reqwest::Url::parse("https://archive.org/").unwrap();
    for cookie in session.cookie_strings() {
        jar.add_cookie_str(&cookie, &archive_org);
    }
    for url in ["http://archive.org/", "https://example.com/"] {
        assert!(jar.cookies(&reqwest::Url::parse(url).unwrap()).is_none());
    }
}

#[test]
fn parse_login_session_rejects_payload_without_cookies() {
    let payload = payload(r#"{"success":true,"values":{"screenname":"someuser"},"version":1}"#);

    let error = parse_login_session(&payload).expect_err("Missing cookies should fail");
    assert!(error.to_string().contains("missing session cookies"));
}

#[test]
fn session_needs_both_cookies() {
    for json in [
        r#"{"success":true}"#,
        r#"{"success":true,"values":{"cookies":{}}}"#,
        r#"{"success":true,"values":{"cookies":{"logged-in-user":"u"}}}"#,
        r#"{"success":true,"values":{"cookies":{"logged-in-sig":"s"}}}"#,
    ] {
        assert_eq!(
            parse_login_session(&payload(json)),
            Err(IaGetError::Network(
                "Login response missing session cookies".to_string()
            ))
        );
    }
}

#[test]
fn cookie_reads_as_it_should() {
    assert_eq!(
        session_cookie("name", "value"),
        "name=value; Domain=.archive.org; Path=/; Secure"
    );
    let session = LoginSession {
        logged_in_user: "u".to_string(),
        logged_in_sig: "s".to_string(),
    };
    assert_eq!(
        session.cookie_strings(),
        vec![
            "logged-in-user=u; Domain=.archive.org; Path=/; Secure".to_string(),
            "logged-in-sig=s; Domain=.archive.org; Path=/; Secure".to_string(),
        ]
    );
}

#[test]
fn failure_messages_read_as_they_should() {
    let with_reason = |reason: &str| {
        payload(&format!(
            r#"{{"success":false,"values":{{"reason":"{}"}},"error":"other"}}"#,
            reason
        ))
    };
    assert_eq!(
        describe_xauthn_failure(401, &with_reason("account_not_found")),
        "Authentication failed (HTTP 401 Unauthorized): Account not found, check your email and try again."
    );
    assert_eq!(
        describe_xauthn_failure(401, &with_reason("account_bad_password")),
        "Authentication failed (HTTP 401 Unauthorized): Incorrect password, try again."
    );
    assert_eq!(
        describe_xauthn_failure(799, &with_reason("server_on_fire")),
        "Authentication failed (HTTP 799 <unknown status code>): server_on_fire"
    );
    assert_eq!(
        describe_xauthn_failure(400, &payload(r#"{"success":false,"values":{}}"#)),
        "Authentication failed (HTTP 400 Bad Request): Unknown authentication error"
    );
    assert_eq!(
        describe_failure("X", &payload(r#"{"success":false,"error":"bad request"}"#)),
        "Authentication failed (HTTP X): bad request"
    );
}

#[test]
fn status_is_shown_with_its_digits() {
    let empty = payload(r#"{"success":false}"#);
    for code in 100u16..=999 {
        let head = format!("Authentication failed (HTTP {} ", code);
        assert!(describe_xauthn_failure(code, &empty).starts_with(&head));
    }
}

#[test]
fn login_replies_are_read() {
    assert_eq!(
        accept_login_reply(200, Ok(payload(XAUTHN_SUCCESS_JSON))),
        Ok(LoginSession {
            logged_in_user: "user%40example.com".to_string(),
            logged_in_sig: "s1gn4tur3".to_string(),
        })
    );
    assert_eq!(
        accept_login_reply(
            401,
            Ok(payload(
                r#"{"success":false,"values":{"reason":"account_bad_password"}}"#
            ))
        ),
        Err(IaGetError::Network(
            "Authentication failed (HTTP 401 Unauthorized): Incorrect password, try again."
                .to_string()
        ))
    );
    assert_eq!(
        accept_login_reply(200, Ok(payload(r#"{"success":true}"#))),
        Err(IaGetError::Network(
            "Login response missing session cookies".to_string()
        ))
    );
    assert_eq!(
        accept_login_reply(502, Err("expected value".to_string())),
        Err(IaGetError::Network(
            "Unexpected login response (HTTP 502 Bad Gateway): expected value".to_string()
        ))
    );
    assert_eq!(
        read_login_reply("X", Err("p".to_string())),
        Err(IaGetError::Network(
            "Unexpected login response (HTTP X): p".to_string()
        ))
    );
}

#[test]
fn login_sends_email_and_password() {
    assert_eq!(
        login_form("me@example.com", "pw"),
        [("email", "me@example.com"), ("password", "pw")]
    );
}
