//! Which credentials, if any, a run logs in with.

use crate::error::{ErrorView, IaGetError};
use crate::text::{blank, is_blank, is_white_space, option_view, trim_end};
use vstd::prelude::*;

verus! {

/// What the command line asks for.
#[derive(Debug, PartialEq, Eq)]
pub struct Cli {
    /// The URL of an archive.org details page.
    pub url: String,
    /// The account email address for authenticated downloads.
    pub username: Option<String>,
    /// The password of the account.
    pub password: Option<String>,
    /// Whether to read the password from standard input.
    pub password_stdin: bool,
}

/// The characters that end a line.
pub open spec fn is_line_break(c: char) -> bool {
    c == '\n' || c == '\r'
}

/// `text` without the line breaks at its end.
pub open spec fn without_line_breaks(text: Seq<char>) -> Seq<char> {
    trim_end(text, |c: char| is_line_break(c))
}

/// The password that the command line names, directly or through a line of
/// standard input.
pub open spec fn given_password(cli: Cli, stdin_line: Seq<char>) -> Option<Seq<char>> {
    match option_view(cli.password) {
        Some(password) => Some(password),
        None => if cli.password_stdin {
            Some(without_line_breaks(stdin_line))
        } else {
            None
        },
    }
}

/// The credentials that the command line gives, or why it gives none that can
/// be used.
pub open spec fn resolved(cli: Cli, stdin_line: Seq<char>) -> Result<
    Option<(Seq<char>, Seq<char>)>,
    ErrorView,
> {
    match option_view(cli.username) {
        None => Ok(None),
        Some(username) => if is_blank(username) {
            Err(ErrorView::Network("Authentication username cannot be empty."@))
        } else {
            match given_password(cli, stdin_line) {
                None => Err(
                    ErrorView::Network(
                        "Authentication requires --password or --password-stdin when --username is set."@,
                    ),
                ),
                Some(password) => if password.len() == 0 {
                    Err(ErrorView::Network("Authentication password cannot be empty."@))
                } else {
                    Ok(Some((username, password)))
                },
            }
        },
    }
}

/// Whether the password has to come from standard input.
pub open spec fn awaits_stdin(cli: Cli) -> bool {
    &&& cli.username is Some
    &&& !is_blank(cli.username->0@)
    &&& cli.password is None
    &&& cli.password_stdin
}

/// Credentials with their texts as they are seen in contracts.
pub open spec fn credentials_view(
    credentials: Result<Option<(String, String)>, IaGetError>,
) -> Result<Option<(Seq<char>, Seq<char>)>, ErrorView> {
    match credentials {
        Ok(Some((username, password))) => Ok(Some((username@, password@))),
        Ok(None) => Ok(None),
        Err(error) => Err(error@),
    }
}

/// Removes carriage returns and line feeds from the end of a secret, and
/// nothing else.
pub fn trim_trailing_newlines(value: String) -> (secret: String)
    ensures
        secret@ == without_line_breaks(value@),
        secret@.is_prefix_of(value@),
        forall|i: int|
            secret@.len() <= i < value@.len() ==> (#[trigger] value@[i] == '\n' || value@[i]
                == '\r'),
        secret@.len() > 0 ==> secret@.last() != '\n' && secret@.last() != '\r',
{
    proof {
        law_only_trailing_line_breaks_go(value@);
    }
    let mut secret = value;
    let ghost text = secret@;
    let ghost drop = |c: char| is_line_break(c);
    loop
        invariant
            drop == (|c: char| is_line_break(c)),
            trim_end(secret@, drop) == trim_end(text, drop),
        ensures
            secret@ == trim_end(text, drop),
        decreases secret@.len(),
    {
        let ghost before = secret@;
        match secret.pop() {
            Some(c) => {
                if c != '\n' && c != '\r' {
                    secret.push(c);
                    assert(secret@ =~= before);
                    break;
                }
            },
            None => {
                break;
            },
        }
    }
    secret
}

/// Whether a line of standard input has to be read for the password. Nothing is
/// read where the command line is refused anyway, or names the password itself.
pub fn reads_password_from_stdin(cli: &Cli) -> (reads: bool)
    ensures
        reads == awaits_stdin(*cli),
        reads <==> cli.password_stdin && cli.password is None && (cli.username matches Some(
            username,
        ) && exists|i: int|
            0 <= i < username@.len() && !is_white_space(#[trigger] username@[i])),
{
    match &cli.username {
        Some(username) => !blank(username.as_str()) && cli.password.is_none() && cli.password_stdin,
        None => false,
    }
}

/// Resolves the credentials of the command line.
///
/// `stdin_line` is the line that was read where [`reads_password_from_stdin`]
/// asks for one; elsewhere it makes no difference.
pub fn resolve_auth_credentials(cli: &Cli, stdin_line: String) -> (credentials: Result<
    Option<(String, String)>,
    IaGetError,
>)
    ensures
        credentials_view(credentials) == resolved(*cli, stdin_line@),
        cli.username is None <==> credentials matches Ok(None),
        cli.username matches Some(username) ==> (forall|i: int|
            0 <= i < username@.len() ==> is_white_space(#[trigger] username@[i])) ==> (
        credentials matches Err(IaGetError::Network(message)) && message@
            == "Authentication username cannot be empty."@),
        cli.username matches Some(username) ==> (exists|i: int|
            0 <= i < username@.len() && !is_white_space(#[trigger] username@[i])) ==> (
        match cli.password {
            Some(password) => if password@.len() > 0 {
                credentials matches Ok(Some(account)) && account.0@ == username@ && account.1@
                    == password@
            } else {
                credentials matches Err(IaGetError::Network(message)) && message@
                    == "Authentication password cannot be empty."@
            },
            None => if !cli.password_stdin {
                credentials matches Err(IaGetError::Network(message)) && message@
                    == "Authentication requires --password or --password-stdin when --username is set."@
            } else if (forall|i: int|
                0 <= i < stdin_line@.len() ==> (#[trigger] stdin_line@[i] == '\n'
                    || stdin_line@[i] == '\r')) {
                credentials matches Err(IaGetError::Network(message)) && message@
                    == "Authentication password cannot be empty."@
            } else {
                credentials matches Ok(Some(account)) && account.0@ == username@
                    && account.1@.len() > 0 && account.1@.is_prefix_of(stdin_line@)
                    && account.1@.last() != '\n' && account.1@.last() != '\r' && forall|i: int|
                    account.1@.len() <= i < stdin_line@.len() ==> (#[trigger] stdin_line@[i]
                        == '\n' || stdin_line@[i] == '\r')
            },
        }),
{
    proof {
        law_only_trailing_line_breaks_go(stdin_line@);
    }
    let username = match &cli.username {
        Some(username) => username,
        None => {
            return Ok(None);
        },
    };
    if blank(username.as_str()) {
        return Err(IaGetError::Network("Authentication username cannot be empty.".to_owned()));
    }
    let password = match &cli.password {
        Some(password) => password.clone(),
        None => if cli.password_stdin {
            trim_trailing_newlines(stdin_line)
        } else {
            return Err(
                IaGetError::Network(
                    "Authentication requires --password or --password-stdin when --username is set.".to_owned(),
                ),
            );
        },
    };
    if password.as_str().is_empty() {
        return Err(IaGetError::Network("Authentication password cannot be empty.".to_owned()));
    }
    Ok(Some((username.clone(), password)))
}

/// Only line breaks are taken off a secret, only at its end, and all of them.
pub proof fn law_only_trailing_line_breaks_go(text: Seq<char>)
    ensures
        without_line_breaks(text).is_prefix_of(text),
        forall|i: int|
            without_line_breaks(text).len() <= i < text.len() ==> (#[trigger] text[i] == '\n'
                || text[i] == '\r'),
        without_line_breaks(text).len() > 0 ==> without_line_breaks(text).last() != '\n'
            && without_line_breaks(text).last() != '\r',
    decreases text.len(),
{
    if text.len() > 0 && is_line_break(text.last()) {
        let init = text.drop_last();
        law_only_trailing_line_breaks_go(init);
        let kept = without_line_breaks(text);
        assert(kept == without_line_breaks(init));
        assert(kept =~= text.subrange(0, kept.len() as int));
        assert forall|i: int| kept.len() <= i < text.len() implies is_line_break(
            #[trigger] text[i],
        ) by {
            if i < init.len() {
                assert(text[i] == init[i]);
            }
        }
    } else {
        assert(text =~= text.subrange(0, text.len() as int));
    }
}

/// A run without a user name needs no credentials, and only such a run goes
/// without.
pub proof fn law_no_credentials_without_username(cli: Cli, stdin_line: Seq<char>)
    ensures
        resolved(cli, stdin_line) == Ok::<Option<(Seq<char>, Seq<char>)>, ErrorView>(None)
            <==> cli.username is None,
{
}

/// Credentials are those of the command line, and neither part of them is empty.
pub proof fn law_credentials_are_never_empty(
    cli: Cli,
    stdin_line: Seq<char>,
    username: Seq<char>,
    password: Seq<char>,
)
    requires
        resolved(cli, stdin_line) == Ok::<Option<(Seq<char>, Seq<char>)>, ErrorView>(
            Some((username, password)),
        ),
    ensures
        option_view(cli.username) == Some(username),
        given_password(cli, stdin_line) == Some(password),
        !is_blank(username),
        username.len() > 0,
        password.len() > 0,
{
    assert(username.len() == 0 ==> is_blank(username));
}

/// A password on the command line is the password of the account as it stands
/// there, and the user name is the one on the command line: nothing is changed in
/// either, and standard input has no part in it.
pub proof fn law_password_is_taken_as_given(cli: Cli, stdin_line: Seq<char>)
    requires
        cli.username is Some,
        exists|i: int|
            0 <= i < cli.username->0@.len() && !is_white_space(#[trigger] cli.username->0@[i]),
        cli.password is Some,
    ensures
        cli.password->0@.len() > 0 ==> (resolved(cli, stdin_line) matches Ok(Some(account))
            && account.0 == cli.username->0@ && account.1 == cli.password->0@),
        cli.password->0@.len() == 0 ==> (resolved(cli, stdin_line) matches Err(
            ErrorView::Network(message),
        ) && message == "Authentication password cannot be empty."@),
{
}

/// A password from standard input is the line as it was read, up to the line
/// breaks at its end; a line of nothing else is no password.
pub proof fn law_stdin_line_is_the_password(cli: Cli, stdin_line: Seq<char>)
    requires
        cli.username is Some,
        exists|i: int|
            0 <= i < cli.username->0@.len() && !is_white_space(#[trigger] cli.username->0@[i]),
        cli.password is None,
        cli.password_stdin,
    ensures
        resolved(cli, stdin_line) matches Ok(Some(account)) ==> {
            &&& account.0 == cli.username->0@
            &&& account.1.len() > 0
            &&& account.1.is_prefix_of(stdin_line)
            &&& account.1.last() != '\n' && account.1.last() != '\r'
            &&& forall|i: int|
                account.1.len() <= i < stdin_line.len() ==> (#[trigger] stdin_line[i] == '\n'
                    || stdin_line[i] == '\r')
        },
        (exists|i: int|
            0 <= i < stdin_line.len() && (#[trigger] stdin_line[i]) != '\n' && stdin_line[i]
                != '\r') <==> resolved(cli, stdin_line) matches Ok(Some(account)),
        (forall|i: int|
            0 <= i < stdin_line.len() ==> (#[trigger] stdin_line[i] == '\n' || stdin_line[i]
                == '\r')) <==> (resolved(cli, stdin_line) matches Err(ErrorView::Network(message))
            && message == "Authentication password cannot be empty."@),
{
    law_only_trailing_line_breaks_go(stdin_line);
    let kept = without_line_breaks(stdin_line);
    if kept.len() > 0 {
        assert(stdin_line[kept.len() - 1] == kept.last());
    }
}

/// A user name needs a password from somewhere, and has to hold more than white
/// space.
pub proof fn law_unusable_accounts_are_refused(cli: Cli, stdin_line: Seq<char>)
    requires
        cli.username is Some,
    ensures
        (forall|i: int|
            0 <= i < cli.username->0@.len() ==> is_white_space(#[trigger] cli.username->0@[i])) ==> (
        resolved(cli, stdin_line) matches Err(ErrorView::Network(message)) && message
            == "Authentication username cannot be empty."@),
        (exists|i: int|
            0 <= i < cli.username->0@.len() && !is_white_space(#[trigger] cli.username->0@[i]))
            && cli.password is None && !cli.password_stdin ==> (resolved(cli, stdin_line) matches Err(
            ErrorView::Network(message),
        ) && message
            == "Authentication requires --password or --password-stdin when --username is set."@),
{
}

/// What contracts see of resolved credentials is their texts.
pub proof fn law_credential_views_hold_the_texts(
    username: String,
    password: String,
    error: IaGetError,
)
    ensures
        credentials_view(Ok(None)) == Ok::<Option<(Seq<char>, Seq<char>)>, ErrorView>(None),
        credentials_view(Ok(Some((username, password)))) == Ok::<
            Option<(Seq<char>, Seq<char>)>,
            ErrorView,
        >(Some((username@, password@))),
        credentials_view(Err(error)) == Err::<Option<(Seq<char>, Seq<char>)>, ErrorView>(error@),
{
}

/// Standard input makes a difference only where it is read.
pub proof fn law_stdin_counts_only_where_read(cli: Cli, one: Seq<char>, other: Seq<char>)
    requires
        !awaits_stdin(cli),
    ensures
        resolved(cli, one) == resolved(cli, other),
{
}

} // verus!
