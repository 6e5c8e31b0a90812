//! The XAuthn login of archive.org: what is sent and what the reply means.

use crate::error::{ErrorView, IaGetError};
use crate::text::{option_view, reads, views};
use vstd::prelude::*;

verus! {

/// The login endpoint, which takes the email address and the password as a form
/// and answers with the session cookies in the JSON body.
pub const XAUTHN_LOGIN_API_URL: &'static str = "https://archive.org/services/xauthn/?op=login";

/// The session cookie that names the account.
pub const LOGGED_IN_USER_COOKIE: &'static str = "logged-in-user";

/// The session cookie that signs the account name.
pub const LOGGED_IN_SIG_COOKIE: &'static str = "logged-in-sig";

/// The URL that the session cookies are stored for.
pub const COOKIE_URL: &'static str = "https://archive.org/";

/// How long a login request may take.
pub const LOGIN_TIMEOUT_SECS: u64 = 60;

/// How long archive.org takes to honour fresh session cookies on all of its
/// download hosts.
pub const AUTH_PROPAGATION_DELAY_SECS: u64 = 2;

/// The body of a reply to a login.
#[derive(Debug, PartialEq, Eq)]
pub struct XAuthnResponse {
    pub success: bool,
    pub values: Option<XAuthnValues>,
    pub error: Option<String>,
}

/// What a reply says beyond success or failure.
#[derive(Debug, PartialEq, Eq)]
pub struct XAuthnValues {
    pub reason: Option<String>,
    pub cookies: Option<XAuthnCookies>,
}

/// The session cookies of a reply.
#[derive(Debug, PartialEq, Eq)]
pub struct XAuthnCookies {
    pub logged_in_user: Option<String>,
    pub logged_in_sig: Option<String>,
}

/// The session cookies that authorise downloads of restricted items.
#[derive(Debug, PartialEq, Eq)]
pub struct LoginSession {
    pub logged_in_user: String,
    pub logged_in_sig: String,
}

/// A [`LoginSession`] with its texts as they are seen in contracts.
pub struct SessionView {
    pub logged_in_user: Seq<char>,
    pub logged_in_sig: Seq<char>,
}

impl View for LoginSession {
    type V = SessionView;

    open spec fn view(&self) -> SessionView {
        SessionView {
            logged_in_user: self.logged_in_user@,
            logged_in_sig: self.logged_in_sig@,
        }
    }
}

/// A cookie that goes to archive.org and to all of its subdomains, over secure
/// connections only.
pub open spec fn cookie_text(name: Seq<char>, value: Seq<char>) -> Seq<char> {
    name + "="@ + value + "; Domain=.archive.org; Path=/; Secure"@
}

/// The cookies of a session.
pub open spec fn session_cookies(session: SessionView) -> Seq<Seq<char>> {
    seq![
        cookie_text(LOGGED_IN_USER_COOKIE@, session.logged_in_user),
        cookie_text(LOGGED_IN_SIG_COOKIE@, session.logged_in_sig),
    ]
}

/// Formats a session cookie so that it is sent to archive.org and its download
/// subdomains.
pub fn session_cookie(name: &str, value: &str) -> (cookie: String)
    ensures
        cookie@ == cookie_text(name@, value@),
        cookie@ == name@ + "="@ + value@ + "; Domain=.archive.org; Path=/; Secure"@,
{
    let mut cookie = name.to_owned();
    cookie.append("=");
    cookie.append(value);
    cookie.append("; Domain=.archive.org; Path=/; Secure");
    cookie
}

impl LoginSession {
    /// The cookies of the session, for archive.org and its download subdomains.
    pub fn cookie_strings(&self) -> (cookies: Vec<String>)
        ensures
            views(cookies@) == session_cookies(self@),
            cookies@.len() == 2,
            cookies@[0]@ == "logged-in-user"@ + "="@ + self.logged_in_user@
                + "; Domain=.archive.org; Path=/; Secure"@,
            cookies@[1]@ == "logged-in-sig"@ + "="@ + self.logged_in_sig@
                + "; Domain=.archive.org; Path=/; Secure"@,
    {
        let mut cookies: Vec<String> = Vec::new();
        cookies.push(session_cookie(LOGGED_IN_USER_COOKIE, self.logged_in_user.as_str()));
        cookies.push(session_cookie(LOGGED_IN_SIG_COOKIE, self.logged_in_sig.as_str()));
        assert(views(cookies@) =~= session_cookies(self@));
        cookies
    }
}

/// The session that a reply opens: it needs both cookies.
pub open spec fn session_of(response: XAuthnResponse) -> Option<SessionView> {
    match response.values {
        Some(
            XAuthnValues {
                cookies: Some(
                    XAuthnCookies { logged_in_user: Some(user), logged_in_sig: Some(sig) },
                ),
                ..
            },
        ) => Some(SessionView { logged_in_user: user@, logged_in_sig: sig@ }),
        _ => None,
    }
}

/// A session, or the lack of one as an error.
pub open spec fn session_or_error(session: Option<SessionView>) -> Result<SessionView, ErrorView> {
    match session {
        Some(session) => Ok(session),
        None => Err(ErrorView::Network("Login response missing session cookies"@)),
    }
}

/// A login result as it is seen in contracts.
pub open spec fn login_view(login: Result<LoginSession, IaGetError>) -> Result<
    SessionView,
    ErrorView,
> {
    match login {
        Ok(session) => Ok(session@),
        Err(error) => Err(error@),
    }
}

/// Takes the session cookies out of the reply to a successful login.
pub fn parse_login_session(response: &XAuthnResponse) -> (session: Result<
    LoginSession,
    IaGetError,
>)
    ensures
        login_view(session) == session_or_error(session_of(*response)),
        session is Ok <==> response.values is Some && response.values->0.cookies is Some
            && response.values->0.cookies->0.logged_in_user is Some
            && response.values->0.cookies->0.logged_in_sig is Some,
        session matches Ok(opened) ==> opened.logged_in_user@
            == response.values->0.cookies->0.logged_in_user->0@ && opened.logged_in_sig@
            == response.values->0.cookies->0.logged_in_sig->0@,
        session matches Err(error) ==> (error matches IaGetError::Network(message) && message@
            == "Login response missing session cookies"@),
{
    if let Some(values) = &response.values {
        if let Some(cookies) = &values.cookies {
            if let (Some(user), Some(sig)) = (&cookies.logged_in_user, &cookies.logged_in_sig) {
                return Ok(
                    LoginSession { logged_in_user: user.clone(), logged_in_sig: sig.clone() },
                );
            }
        }
    }
    Err(IaGetError::Network("Login response missing session cookies".to_owned()))
}

/// The reason code of a reply.
pub open spec fn reason_code(response: XAuthnResponse) -> Option<Seq<char>> {
    match response.values {
        Some(values) => option_view(values.reason),
        None => None,
    }
}

/// A reason code in words, where it is a known one.
pub open spec fn reason_in_words(code: Seq<char>) -> Seq<char> {
    if code == "account_not_found"@ {
        "Account not found, check your email and try again."@
    } else if code == "account_bad_password"@ {
        "Incorrect password, try again."@
    } else {
        code
    }
}

/// Why a login failed: the reason of the reply, else its error text.
pub open spec fn failure_reason(response: XAuthnResponse) -> Seq<char> {
    match reason_code(response) {
        Some(code) => reason_in_words(code),
        None => match option_view(response.error) {
            Some(error) => error,
            None => "Unknown authentication error"@,
        },
    }
}

/// The message for a failed login.
pub open spec fn failure_text(status: Seq<char>, response: XAuthnResponse) -> Seq<char> {
    "Authentication failed (HTTP "@ + status + "): "@ + failure_reason(response)
}

/// The message for a reply that cannot be read.
pub open spec fn unreadable_text(status: Seq<char>, problem: Seq<char>) -> Seq<char> {
    "Unexpected login response (HTTP "@ + status + "): "@ + problem
}

/// What the reply to a login means: `status` is the status of the reply, and the
/// body either could be read or could not.
pub open spec fn login_outcome(
    status: Seq<char>,
    reply: Result<XAuthnResponse, String>,
) -> Result<SessionView, ErrorView> {
    match reply {
        Err(problem) => Err(ErrorView::Network(unreadable_text(status, problem@))),
        Ok(response) => if response.success {
            session_or_error(session_of(response))
        } else {
            Err(ErrorView::Network(failure_text(status, response)))
        },
    }
}

/// What `reqwest::StatusCode` shows for a status code.
pub uninterp spec fn status_text(code: u16) -> Seq<char>;

/// The three digits of a status code.
pub open spec fn code_digits(code: u16) -> Seq<char> {
    seq![
        ('0' as int + code as int / 100) as char,
        ('0' as int + code as int / 10 % 10) as char,
        ('0' as int + code as int % 10) as char,
    ]
}

/// The digits of a status code spell its number.
pub proof fn law_digits_spell_the_code(code: u16)
    requires
        100 <= code <= 999,
    ensures
        code_digits(code).len() == 3,
        forall|k: int| 0 <= k < 3 ==> '0' <= #[trigger] code_digits(code)[k] <= '9',
        100 * (code_digits(code)[0] as int - '0' as int) + 10 * (code_digits(code)[1] as int
            - '0' as int) + (code_digits(code)[2] as int - '0' as int) == code,
{
    let digits = code_digits(code);
    assert(0 <= code as int / 100 <= 9);
    assert forall|k: int| 0 <= k < 3 implies '0' <= #[trigger] digits[k] <= '9' by {
        assert(k == 0 || k == 1 || k == 2);
    }
}

/// The contract claims of the `Display` of `reqwest::StatusCode` that it depends
/// on the code alone, and that it starts with the three digits of the code and a
/// space. It does not list the reason phrases that follow.
#[verifier::external_body]
fn status_line(code: u16) -> (text: String)
    requires
        100 <= code <= 999,
    ensures
        text@ == status_text(code),
        code_digits(code).push(' ').is_prefix_of(text@),
{
    match reqwest::StatusCode::from_u16(code) {
        Ok(status) => status.to_string(),
        Err(error) => error.to_string(),
    }
}

/// Describes a failed login, with the status of the reply as it is shown.
pub fn describe_failure(status: &str, response: &XAuthnResponse) -> (text: String)
    ensures
        text@ == failure_text(status@, *response),
        text@ == "Authentication failed (HTTP "@ + status@ + "): "@ + (
            match response.values {
                Some(XAuthnValues { reason: Some(code), .. }) => if code@ == "account_not_found"@ {
                    "Account not found, check your email and try again."@
                } else if code@ == "account_bad_password"@ {
                    "Incorrect password, try again."@
                } else {
                    code@
                },
                _ => match response.error {
                    Some(error) => error@,
                    None => "Unknown authentication error"@,
                },
            }
        ),
{
    let reason = match &response.values {
        Some(values) => match &values.reason {
            Some(code) => Some(describe_reason(code)),
            None => None,
        },
        None => None,
    };
    let reason = match reason {
        Some(reason) => reason,
        None => match &response.error {
            Some(error) => error.clone(),
            None => "Unknown authentication error".to_owned(),
        },
    };
    let mut text = "Authentication failed (HTTP ".to_owned();
    text.append(status);
    text.append("): ");
    text.append(reason.as_str());
    text
}

fn describe_reason(code: &String) -> (words: String)
    ensures
        words@ == reason_in_words(code@),
{
    if reads(code, "account_not_found") {
        "Account not found, check your email and try again.".to_owned()
    } else if reads(code, "account_bad_password") {
        "Incorrect password, try again.".to_owned()
    } else {
        code.clone()
    }
}

/// Describes a failed login from the reply of archive.org.
pub fn describe_xauthn_failure(status: u16, response: &XAuthnResponse) -> (text: String)
    requires
        100 <= status <= 999,
    ensures
        text@ == failure_text(status_text(status), *response),
        text@ == "Authentication failed (HTTP "@ + status_text(status) + "): "@ + (
            match response.values {
                Some(XAuthnValues { reason: Some(code), .. }) => if code@ == "account_not_found"@ {
                    "Account not found, check your email and try again."@
                } else if code@ == "account_bad_password"@ {
                    "Incorrect password, try again."@
                } else {
                    code@
                },
                _ => match response.error {
                    Some(error) => error@,
                    None => "Unknown authentication error"@,
                },
            }
        ),
        ("Authentication failed (HTTP "@ + code_digits(status).push(' ')).is_prefix_of(text@),
{
    let shown = status_line(status);
    let text = describe_failure(shown.as_str(), response);
    proof {
        let head = "Authentication failed (HTTP "@ + code_digits(status).push(' ');
        assert(head =~= text@.take(head.len() as int));
    }
    text
}

/// What the reply to a login means, with the status of the reply as it is shown.
pub fn read_login_reply(status: &str, reply: Result<XAuthnResponse, String>) -> (session: Result<
    LoginSession,
    IaGetError,
>)
    ensures
        login_view(session) == login_outcome(status@, reply),
        match reply {
            Err(problem) => session matches Err(IaGetError::Network(message)) && message@
                == "Unexpected login response (HTTP "@ + status@ + "): "@ + problem@,
            Ok(response) => if !response.success {
                session matches Err(IaGetError::Network(message)) && message@
                    == "Authentication failed (HTTP "@ + status@ + "): "@ + (
                match response.values {
                    Some(XAuthnValues { reason: Some(code), .. }) => if code@
                        == "account_not_found"@ {
                        "Account not found, check your email and try again."@
                    } else if code@ == "account_bad_password"@ {
                        "Incorrect password, try again."@
                    } else {
                        code@
                    },
                    _ => match response.error {
                        Some(error) => error@,
                        None => "Unknown authentication error"@,
                    },
                })
            } else {
                match response.values {
                    Some(
                        XAuthnValues {
                            cookies: Some(
                                XAuthnCookies {
                                    logged_in_user: Some(user),
                                    logged_in_sig: Some(sig),
                                },
                            ),
                            ..
                        },
                    ) => session matches Ok(opened) && opened.logged_in_user@ == user@
                        && opened.logged_in_sig@ == sig@,
                    _ => session matches Err(IaGetError::Network(message)) && message@
                        == "Login response missing session cookies"@,
                }
            },
        },
{
    match reply {
        Err(problem) => {
            let mut text = "Unexpected login response (HTTP ".to_owned();
            text.append(status);
            text.append("): ");
            text.append(problem.as_str());
            Err(IaGetError::Network(text))
        },
        Ok(response) => if response.success {
            parse_login_session(&response)
        } else {
            Err(IaGetError::Network(describe_failure(status, &response)))
        },
    }
}

/// What the reply to a login means: the session that it opens, or why there is
/// none.
pub fn accept_login_reply(status: u16, reply: Result<XAuthnResponse, String>) -> (session: Result<
    LoginSession,
    IaGetError,
>)
    requires
        100 <= status <= 999,
    ensures
        login_view(session) == login_outcome(status_text(status), reply),
        match reply {
            Err(problem) => session matches Err(IaGetError::Network(message)) && message@
                == "Unexpected login response (HTTP "@ + status_text(status) + "): "@ + problem@,
            Ok(response) => if !response.success {
                session matches Err(IaGetError::Network(message)) && message@
                    == "Authentication failed (HTTP "@ + status_text(status) + "): "@ + (
                match response.values {
                    Some(XAuthnValues { reason: Some(code), .. }) => if code@
                        == "account_not_found"@ {
                        "Account not found, check your email and try again."@
                    } else if code@ == "account_bad_password"@ {
                        "Incorrect password, try again."@
                    } else {
                        code@
                    },
                    _ => match response.error {
                        Some(error) => error@,
                        None => "Unknown authentication error"@,
                    },
                })
            } else {
                match response.values {
                    Some(
                        XAuthnValues {
                            cookies: Some(
                                XAuthnCookies {
                                    logged_in_user: Some(user),
                                    logged_in_sig: Some(sig),
                                },
                            ),
                            ..
                        },
                    ) => session matches Ok(opened) && opened.logged_in_user@ == user@
                        && opened.logged_in_sig@ == sig@,
                    _ => session matches Err(IaGetError::Network(message)) && message@
                        == "Login response missing session cookies"@,
                }
            },
        },
{
    let shown = status_line(status);
    read_login_reply(shown.as_str(), reply)
}

/// The form that a login sends.
pub fn login_form<'a>(username: &'a str, password: &'a str) -> (form: [(&'static str, &'a str); 2])
    ensures
        form@.len() == 2,
        form@[0].0@ == "email"@,
        form@[0].1@ == username@,
        form@[1].0@ == "password"@,
        form@[1].1@ == password@,
{
    [("email", username), ("password", password)]
}

/// The session of a login is what the reply holds: the two cookie values as they
/// came, character by character.
pub proof fn law_session_holds_the_cookies_of_the_reply(
    status: Seq<char>,
    response: XAuthnResponse,
)
    ensures
        session_or_error(session_of(response)) is Ok <==> response.values is Some
            && response.values->0.cookies is Some
            && response.values->0.cookies->0.logged_in_user is Some
            && response.values->0.cookies->0.logged_in_sig is Some,
        session_or_error(session_of(response)) matches Ok(session) ==> session.logged_in_user
            == response.values->0.cookies->0.logged_in_user->0@ && session.logged_in_sig
            == response.values->0.cookies->0.logged_in_sig->0@,
        login_outcome(status, Ok(response)) matches Ok(session) ==> response.success
            && session.logged_in_user == response.values->0.cookies->0.logged_in_user->0@
            && session.logged_in_sig == response.values->0.cookies->0.logged_in_sig->0@,
        response.success && response.values is Some && response.values->0.cookies is Some
            && response.values->0.cookies->0.logged_in_user is Some
            && response.values->0.cookies->0.logged_in_sig is Some ==> login_outcome(
            status,
            Ok(response),
        ) is Ok,
{
}

/// The session does not depend on the status, the reason or the error text of a
/// reply: replies with the same cookies that both report success open the same
/// session.
pub proof fn law_session_depends_on_cookies_alone(
    one_status: Seq<char>,
    other_status: Seq<char>,
    one: XAuthnResponse,
    other: XAuthnResponse,
)
    requires
        one.success,
        other.success,
        one.values is Some,
        other.values is Some,
        one.values->0.cookies == other.values->0.cookies,
    ensures
        login_outcome(one_status, Ok(one)) == login_outcome(other_status, Ok(other)),
{
}

/// A failed login is reported with the status, whatever it is, and with the
/// reason of the reply: known reasons in words, others as they came; without a
/// reason the error text as it came, without either a fixed text.
pub proof fn law_failed_login_tells_status_and_reason(
    status: Seq<char>,
    response: XAuthnResponse,
    reason: Seq<char>,
)
    requires
        !response.success,
        response.values matches Some(XAuthnValues { reason: Some(code), .. }) ==> {
            &&& code@ == "account_not_found"@ ==> reason
                == "Account not found, check your email and try again."@
            &&& code@ == "account_bad_password"@ ==> reason == "Incorrect password, try again."@
            &&& code@ != "account_not_found"@ && code@ != "account_bad_password"@ ==> reason
                == code@
        },
        response.values is None || response.values->0.reason is None ==> {
            &&& response.error matches Some(error) ==> reason == error@
            &&& response.error is None ==> reason == "Unknown authentication error"@
        },
    ensures
        login_outcome(status, Ok(response)) == Err::<SessionView, ErrorView>(
            ErrorView::Network("Authentication failed (HTTP "@ + status + "): "@ + reason),
        ),
{
}

/// A reply that cannot be read is reported with the status and the problem, both
/// as they are; a success without both cookies is reported as such.
pub proof fn law_unusable_reply_is_reported(
    status: Seq<char>,
    problem: String,
    response: XAuthnResponse,
)
    ensures
        login_outcome(status, Err(problem)) == Err::<SessionView, ErrorView>(
            ErrorView::Network("Unexpected login response (HTTP "@ + status + "): "@ + problem@),
        ),
        response.success && !(response.values is Some && response.values->0.cookies is Some
            && response.values->0.cookies->0.logged_in_user is Some
            && response.values->0.cookies->0.logged_in_sig is Some) ==> login_outcome(
            status,
            Ok(response),
        ) == Err::<SessionView, ErrorView>(
            ErrorView::Network("Login response missing session cookies"@),
        ),
{
}

/// A cookie is its name, its value as it is, and the scope that covers
/// archive.org and its subdomains; a session has one for the account and one for
/// its signature.
pub proof fn law_cookies_are_name_value_and_scope(name: Seq<char>, session: SessionView)
    ensures
        forall|value: Seq<char>| #[trigger]
            cookie_text(name, value) == name + "="@ + value
                + "; Domain=.archive.org; Path=/; Secure"@,
        session_cookies(session).len() == 2,
        session_cookies(session)[0] == "logged-in-user"@ + "="@ + session.logged_in_user
            + "; Domain=.archive.org; Path=/; Secure"@,
        session_cookies(session)[1] == "logged-in-sig"@ + "="@ + session.logged_in_sig
            + "; Domain=.archive.org; Path=/; Secure"@,
{
}

/// Login and cookies stay on archive.org, over secure connections: the endpoint
/// lies under the URL that the cookies are stored for.
pub proof fn law_login_stays_on_archive_org()
    ensures
        COOKIE_URL@ == "https://archive.org/"@,
        XAUTHN_LOGIN_API_URL@ == COOKIE_URL@ + "services/xauthn/?op=login"@,
        LOGIN_TIMEOUT_SECS == 60,
        AUTH_PROPAGATION_DELAY_SECS == 2,
{
    reveal_strlit("https://archive.org/");
    reveal_strlit("https://archive.org/services/xauthn/?op=login");
    reveal_strlit("services/xauthn/?op=login");
    assert(XAUTHN_LOGIN_API_URL@ =~= COOKIE_URL@ + "services/xauthn/?op=login"@);
}

/// What contracts see of a session is its two cookie values.
pub proof fn law_session_views_hold_the_values(session: LoginSession, error: IaGetError)
    ensures
        session@.logged_in_user == session.logged_in_user@,
        session@.logged_in_sig == session.logged_in_sig@,
        login_view(Ok(session)) == Ok::<SessionView, ErrorView>(session@),
        login_view(Err(error)) == Err::<SessionView, ErrorView>(error@),
{
}

/// A session is opened only by a readable reply that reports success and holds
/// both cookies, and it holds exactly those.
pub proof fn law_session_needs_success_and_both_cookies(
    status: Seq<char>,
    reply: Result<XAuthnResponse, String>,
)
    ensures
        login_outcome(status, reply) is Ok <==> reply is Ok && reply->Ok_0.success && session_of(
            reply->Ok_0,
        ) is Some,
        login_outcome(status, reply) matches Ok(session) ==> session_of(reply->Ok_0) == Some(
            session,
        ),
{
}

/// A reason that is not known is shown as it came.
pub proof fn law_unknown_reason_is_shown_verbatim(status: Seq<char>, response: XAuthnResponse)
    requires
        reason_code(response) is Some,
        reason_code(response)->0 != "account_not_found"@,
        reason_code(response)->0 != "account_bad_password"@,
    ensures
        failure_text(status, response) == "Authentication failed (HTTP "@ + status + "): "@
            + reason_code(response)->0,
{
}

/// The error text of a reply counts only where the reply gives no reason.
pub proof fn law_reason_outranks_error(
    status: Seq<char>,
    response: XAuthnResponse,
    error: Option<String>,
)
    requires
        reason_code(response) is Some,
    ensures
        failure_text(status, response) == failure_text(
            status,
            XAuthnResponse { error, ..response },
        ),
{
}

/// Every cookie of a session is for archive.org and its subdomains, for all
/// paths, and for secure connections only.
pub proof fn law_session_cookies_cover_archive_org(session: SessionView)
    ensures
        session_cookies(session).len() == 2,
        forall|k: int|
            0 <= k < session_cookies(session).len()
                ==> "; Domain=.archive.org; Path=/; Secure"@.is_suffix_of(
                #[trigger] session_cookies(session)[k],
            ),
        (LOGGED_IN_USER_COOKIE@ + "="@).is_prefix_of(session_cookies(session)[0]),
        (LOGGED_IN_SIG_COOKIE@ + "="@).is_prefix_of(session_cookies(session)[1]),
{
    let scope = "; Domain=.archive.org; Path=/; Secure"@;
    assert forall|k: int| 0 <= k < session_cookies(session).len() implies scope.is_suffix_of(
        #[trigger] session_cookies(session)[k],
    ) by {
        let cookie = session_cookies(session)[k];
        assert(scope =~= cookie.subrange(cookie.len() - scope.len(), cookie.len() as int));
    }
    let user = LOGGED_IN_USER_COOKIE@ + "="@;
    let sig = LOGGED_IN_SIG_COOKIE@ + "="@;
    assert(user =~= session_cookies(session)[0].subrange(0, user.len() as int));
    assert(sig =~= session_cookies(session)[1].subrange(0, sig.len() as int));
}

/// Different sessions have different cookies.
pub proof fn law_cookies_carry_the_session(one: SessionView, other: SessionView)
    ensures
        session_cookies(one) == session_cookies(other) ==> one == other,
{
    law_cookie_carries_its_value(
        LOGGED_IN_USER_COOKIE@,
        one.logged_in_user,
        other.logged_in_user,
    );
    law_cookie_carries_its_value(LOGGED_IN_SIG_COOKIE@, one.logged_in_sig, other.logged_in_sig);
    if session_cookies(one) == session_cookies(other) {
        assert(session_cookies(one)[0] == session_cookies(other)[0]);
        assert(session_cookies(one)[1] == session_cookies(other)[1]);
    }
}

/// A cookie carries its value: different values make different cookies.
pub proof fn law_cookie_carries_its_value(name: Seq<char>, one: Seq<char>, other: Seq<char>)
    ensures
        cookie_text(name, one) == cookie_text(name, other) ==> one == other,
{
    if cookie_text(name, one) == cookie_text(name, other) {
        let a = cookie_text(name, one);
        let b = cookie_text(name, other);
        let n = name.len() + "="@.len();
        assert(a.len() == b.len());
        assert(one =~= a.subrange(n as int, (n + one.len()) as int));
        assert(other =~= b.subrange(n as int, (n + other.len()) as int));
    }
}

} // verus!
