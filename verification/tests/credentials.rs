use ia_get_core::credentials::{
    reads_password_from_stdin, resolve_auth_credentials, trim_trailing_newlines, Cli,
};
use ia_get_core::text::white_space;

fn cli(username: Option<&str>, password: Option<&str>, password_stdin: bool) -> Cli {
    Cli {
        url: "https://archive.org/details/item1".to_string(),
        username: username.map(|text| text.to_string()),
        password: password.map(|text| text.to_string()),
        password_stdin,
    }
}

#[test]
fn trim_trailing_newlines_only() {
    assert_eq!(trim_trailing_newlines("secret\n".to_string()), "secret");
    assert_eq!(trim_trailing_newlines("secret\r\n".to_string()), "secret");
    assert_eq!(trim_trailing_newlines(" secret ".to_string()), " secret ");
}

#[test]
fn line_breaks_inside_a_secret_stay() {
    assert_eq!(trim_trailing_newlines("\na\r\nb\n\r\n".to_string()), "\na\r\nb");
    assert_eq!(trim_trailing_newlines("\r\n\n".to_string()), "");
    assert_eq!(trim_trailing_newlines("pä\u{2028}\n".to_string()), "pä\u{2028}");
}

#[test]
fn resolve_auth_credentials_without_auth() {
    let cli = Cli {
        url: "https://archive.org/details/item1".to_string(),
        username: None,
        password: None,
        password_stdin: false,
    };

    let credentials =
        resolve_auth_credentials(&cli, String::new()).expect("No auth should be valid");
    assert!(credentials.is_none());
}

#[test]
fn resolve_auth_credentials_requires_password() {
    let cli = Cli {
        url: "https://archive.org/details/item1".to_string(),
        username: Some("user@example.com".to_string()),
        password: None,
        password_stdin: false,
    };

    let error =
        resolve_auth_credentials(&cli, String::new()).expect_err("Missing password should fail");
    assert!(error
        .to_string()
        .contains("Authentication requires --password"));
}

#[test]
fn resolve_auth_credentials_rejects_empty_username() {
    let cli = Cli {
        url: "https://archive.org/details/item1".to_string(),
        username: Some("   ".to_string()),
        password: Some("s3cret".to_string()),
        password_stdin: false,
    };

    let error =
        resolve_auth_credentials(&cli, String::new()).expect_err("Empty username should fail");
    assert!(error.to_string().contains("username cannot be empty"));
}

#[test]
fn resolve_auth_credentials_with_password() {
    let cli = Cli {
        url: "https://archive.org/details/item1".to_string(),
        username: Some("user@example.com".to_string()),
        password: Some("s3cret".to_string()),
        password_stdin: false,
    };

    let credentials =
        resolve_auth_credentials(&cli, String::new()).expect("Credentials should resolve");
    assert_eq!(
        credentials,
        Some(("user@example.com".to_string(), "s3cret".to_string()))
    );
}

#[test]
fn resolve_auth_credentials_rejects_empty_password() {
    let cli = Cli {
        url: "https://archive.org/details/item1".to_string(),
        username: Some("user@example.com".to_string()),
        password: Some("".to_string()),
        password_stdin: false,
    };

    let error =
        resolve_auth_credentials(&cli, String::new()).expect_err("Empty password should fail");
    assert!(error.to_string().contains("password cannot be empty"));
}

#[test]
fn password_comes_from_stdin() {
    let cli = cli(Some(" me "), None, true);
    assert!(reads_password_from_stdin(&cli));
    assert_eq!(
        resolve_auth_credentials(&cli, " s3cret \r\n".to_string()),
        Ok(Some((" me ".to_string(), " s3cret ".to_string())))
    );
    let error = resolve_auth_credentials(&cli, "\n".to_string()).expect_err("no password");
    assert_eq!(error.to_string(), "Authentication password cannot be empty.");
}

#[test]
fn stdin_is_read_only_where_it_counts() {
    for other in [
        cli(None, None, true),
        cli(Some(" \t\u{3000}"), None, true),
        cli(Some("me"), Some("pw"), true),
        cli(Some("me"), None, false),
    ] {
        assert!(!reads_password_from_stdin(&other));
        assert_eq!(
            resolve_auth_credentials(&other, "one".to_string()),
            resolve_auth_credentials(&other, "two".to_string())
        );
    }
}

#[test]
fn refusals_read_as_they_should() {
    let text = |cli: Cli| {
        resolve_auth_credentials(&cli, String::new())
            .expect_err("refused")
            .to_string()
    };
    assert_eq!(
        text(cli(Some(""), Some("pw"), false)),
        "Authentication username cannot be empty."
    );
    assert_eq!(
        text(cli(Some("me"), None, false)),
        "Authentication requires --password or --password-stdin when --username is set."
    );
    assert_eq!(
        text(cli(Some("me"), Some(""), false)),
        "Authentication password cannot be empty."
    );
}

#[test]
fn white_space_is_that_of_the_standard_library() {
    for code in 0..=0x10ffffu32 {
        if let Some(c) = char::from_u32(code) {
            assert_eq!(white_space(c), c.is_whitespace(), "{:x}", code);
        }
    }
}
