//! URLs as text, parsed and joined by `reqwest::Url`.

use crate::encoding::is_unreserved;
use crate::text::{split_on, trim_end};
use vstd::prelude::*;

verus! {

/// What `reqwest::Url::parse` makes of a text: the URL as it is written out, or
/// the message of the error.
pub uninterp spec fn parsed_url(text: Seq<char>) -> Result<Seq<char>, Seq<char>>;

/// What `reqwest::Url::join` makes of a reference on the base URL that
/// `reqwest::Url::parse` reads from `base`: the joined URL as it is written out,
/// or the message of the error. Where `base` is no URL, the message is that of
/// the parse.
pub uninterp spec fn joined_url(base: Seq<char>, reference: Seq<char>) -> Result<
    Seq<char>,
    Seq<char>,
>;

/// A dot as URLs write it in a path, plain or escaped.
pub open spec fn is_dot(text: Seq<char>) -> bool {
    text == "."@ || text == "%2e"@ || text == "%2E"@
}

/// One dot or two: the path segments that a URL parser takes out.
pub open spec fn is_dot_segment(segment: Seq<char>) -> bool {
    ||| is_dot(segment)
    ||| exists|k: int|
        0 <= k <= segment.len() && is_dot(#[trigger] segment.take(k)) && is_dot(segment.skip(k))
}

/// A character that a URL path holds as it is.
pub open spec fn is_path_char(c: char) -> bool {
    c == '/' || c == '%' || c == '@' || (c as int) < 128 && is_unreserved(c as u8)
}

/// A path that a URL parser leaves as it is.
pub open spec fn is_plain_path(path: Seq<char>) -> bool {
    &&& forall|i: int| 0 <= i < path.len() ==> is_path_char(#[trigger] path[i])
    &&& forall|k: int|
        0 <= k < split_on(path, '/').len() ==> !is_dot_segment(#[trigger] split_on(path, '/')[k])
}

/// An archive.org URL with nothing behind the host but a plain path.
pub open spec fn is_plain_archive_url(url: Seq<char>) -> bool {
    let root = "https://archive.org/"@;
    root.is_prefix_of(url) && is_plain_path(url.skip(root.len() as int))
}

/// `url` up to its last slash.
pub open spec fn directory_of(url: Seq<char>) -> Seq<char> {
    trim_end(url, |c: char| c != '/')
}

/// The contract claims of `reqwest::Url::parse` that its outcome depends on the
/// text alone, and that an archive.org URL with a plain path is written out
/// as it was read. It does not say what becomes of other texts.
#[verifier::external_body]
pub(crate) fn parse_url(text: &str) -> (url: Result<String, String>)
    ensures
        match url {
            Ok(written) => parsed_url(text@) == Ok::<Seq<char>, Seq<char>>(written@),
            Err(message) => parsed_url(text@) == Err::<Seq<char>, Seq<char>>(message@),
        },
        is_plain_archive_url(text@) ==> url is Ok && url->Ok_0@ == text@,
{
    match reqwest::Url::parse(text) {
        Ok(url) => Ok(url.to_string()),
        Err(error) => Err(error.to_string()),
    }
}

/// The contract claims of `reqwest::Url::join` that its outcome depends on the
/// base and the reference alone, and that on a plain archive.org URL a plain
/// relative path takes the place of what stands behind the last slash of the
/// base. It does not say what becomes of other references.
#[verifier::external_body]
pub(crate) fn join_url(base: &str, reference: &str) -> (url: Result<String, String>)
    ensures
        match url {
            Ok(written) => joined_url(base@, reference@) == Ok::<Seq<char>, Seq<char>>(written@),
            Err(message) => joined_url(base@, reference@) == Err::<Seq<char>, Seq<char>>(message@),
        },
        is_plain_archive_url(base@) && is_plain_path(reference@) && reference@.len() > 0
            && reference@[0] != '/' ==> url is Ok && url->Ok_0@ == directory_of(base@) + reference@,
{
    match reqwest::Url::parse(base) {
        Ok(base) => match base.join(reference) {
            Ok(url) => Ok(url.to_string()),
            Err(error) => Err(error.to_string()),
        },
        Err(error) => Err(error.to_string()),
    }
}

} // verus!
