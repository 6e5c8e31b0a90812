//! The URLs of an archive item: its file list and its files.

use crate::encoding::{
    encode_archive_path_for_url, encode_path, encode_segment, encode_segments,
};
use crate::encoding_laws::{
    encode_path_byte, encode_path_bytes, law_decoding_gives_the_path_back,
    law_encoded_path_is_escaped, law_encoding_keeps_segments, law_path_is_encoded_byte_by_byte,
    lemma_encode_path_bytes_concat, lemma_encode_utf8_push, lemma_scalar_bytes, percent_decode,
};
use crate::error::{ErrorView, IaGetError};
use crate::text::{
    join_with, lemma_split_extends, lemma_split_pieces, lemma_split_undoes_join,
    lemma_trim_end_tail, split_on, split_text, trim_end, trim_end_char, views,
};
use crate::url_syntax::{
    directory_of, is_dot, is_dot_segment, is_path_char, is_plain_archive_url, is_plain_path,
    join_url, joined_url, parse_url, parsed_url,
};
use vstd::prelude::*;
use vstd::utf8::{encode_scalar, encode_utf8, encode_utf8_decode_utf8};

verus! {

/// `url` without the slashes at its end.
pub open spec fn without_trailing_slashes(url: Seq<char>) -> Seq<char> {
    trim_end(url, |c: char| c == '/')
}

/// The last segment of `url`, slashes at its end aside.
pub open spec fn identifier_of(url: Seq<char>) -> Seq<char> {
    split_on(without_trailing_slashes(url), '/').last()
}

/// The directory of the item `identifier`.
pub open spec fn item_directory(identifier: Seq<char>) -> Seq<char> {
    "https://archive.org/download/"@ + identifier + "/"@
}

/// The URL of the list of the files of the item `identifier`.
pub open spec fn file_list_url(identifier: Seq<char>) -> Seq<char> {
    item_directory(identifier) + identifier + "_files.xml"@
}

/// The XML file list URL of the item that a details URL names.
///
/// The identifier is the last segment of the URL, slashes at its end aside.
pub fn get_xml_url(original_url: &str) -> (xml_url: String)
    ensures
        xml_url@ == file_list_url(identifier_of(original_url@)),
{
    let trimmed = trim_end_char(original_url, '/');
    let mut segments = split_text(trimmed.as_str(), '/');
    proof {
        lemma_split_pieces(trimmed@, '/');
        assert(views(segments@).len() == segments@.len());
        assert(views(segments@).last() == segments@.last()@);
    }
    let identifier = segments.pop().unwrap();
    let mut xml_url = "https://archive.org/download/".to_owned();
    xml_url.append(identifier.as_str());
    xml_url.append("/");
    xml_url.append(identifier.as_str());
    xml_url.append("_files.xml");
    xml_url
}

/// Slashes at the end of a details URL make no difference.
pub proof fn law_trailing_slash_makes_no_difference(url: Seq<char>)
    ensures
        file_list_url(identifier_of(url.push('/'))) == file_list_url(identifier_of(url)),
{
    assert(url.push('/').drop_last() =~= url);
}

/// The details URL of an item leads to the file list of that item, with or
/// without a slash at its end.
pub proof fn law_details_url_leads_to_its_item(identifier: Seq<char>)
    requires
        identifier.len() > 0,
        !identifier.contains('/'),
    ensures
        file_list_url(identifier_of("https://archive.org/details/"@ + identifier))
            == "https://archive.org/download/"@ + identifier + "/"@ + identifier + "_files.xml"@,
        file_list_url(identifier_of(("https://archive.org/details/"@ + identifier).push('/')))
            == "https://archive.org/download/"@ + identifier + "/"@ + identifier + "_files.xml"@,
{
    let head = "https://archive.org/details/"@;
    let url = head + identifier;
    reveal_strlit("https://archive.org/details/");
    assert(identifier.contains(identifier.last()));
    assert(url.last() == identifier.last());
    assert(without_trailing_slashes(url) == url);
    lemma_split_extends(head, identifier, '/');
    assert(head.last() == '/');
    assert(split_on(head, '/').last() =~= Seq::<char>::empty());
    assert(Seq::<char>::empty() + identifier =~= identifier);
    law_trailing_slash_makes_no_difference(url);
}

/// The item is named by the last segment of a URL, whatever stands before it and
/// however many slashes follow, and the file list lies in the directory of the
/// item under its name.
pub proof fn law_last_segment_names_the_item(head: Seq<char>, identifier: Seq<char>, slashes: nat)
    requires
        head.len() == 0 || head.last() == '/',
        identifier.len() > 0,
        forall|i: int| 0 <= i < identifier.len() ==> #[trigger] identifier[i] != '/',
    ensures
        identifier_of(head + identifier + Seq::new(slashes, |i: int| '/')) == identifier,
        file_list_url(identifier_of(head + identifier + Seq::new(slashes, |i: int| '/')))
            == "https://archive.org/download/"@ + identifier + "/"@ + identifier + "_files.xml"@,
{
    let tail = Seq::new(slashes, |i: int| '/');
    let url = head + identifier;
    assert(url.last() == identifier[identifier.len() - 1]);
    lemma_trim_end_tail(url, tail, |c: char| c == '/');
    lemma_split_extends(head, identifier, '/');
    assert(split_on(head, '/').last() =~= Seq::<char>::empty());
    assert(Seq::<char>::empty() + identifier =~= identifier);
}

/// Text of slashes alone, or no text, names no item.
pub proof fn law_slashes_name_no_item(slashes: nat)
    ensures
        identifier_of(Seq::new(slashes, |i: int| '/')) == Seq::<char>::empty(),
        file_list_url(identifier_of(Seq::new(slashes, |i: int| '/')))
            == "https://archive.org/download/"@ + "/"@ + "_files.xml"@,
{
    let tail = Seq::new(slashes, |i: int| '/');
    lemma_trim_end_tail(Seq::empty(), tail, |c: char| c == '/');
    assert(Seq::<char>::empty() + tail =~= tail);
    assert(identifier_of(tail) =~= Seq::<char>::empty());
    assert(file_list_url(Seq::<char>::empty()) =~= "https://archive.org/download/"@ + "/"@
        + "_files.xml"@);
}

/// An identifier that a URL holds as it is, as one path segment.
pub open spec fn is_plain_identifier(identifier: Seq<char>) -> bool {
    &&& identifier.len() > 0
    &&& forall|i: int|
        0 <= i < identifier.len() ==> is_path_char(#[trigger] identifier[i]) && identifier[i] != '/'
    &&& !is_dot_segment(identifier)
}

/// A file name that stays inside the directory of its item: it does not start
/// at the root, and no segment of it is `.` or `..`.
pub open spec fn is_relative_name(name: Seq<char>) -> bool {
    &&& name.len() > 0
    &&& name[0] != '/'
    &&& forall|k: int|
        0 <= k < split_on(name, '/').len() ==> #[trigger] split_on(name, '/')[k] != "."@
            && split_on(name, '/')[k] != ".."@
}

/// The characters that a dot is written with, plain or escaped.
spec fn is_dot_char(c: char) -> bool {
    c == '.' || c == '%' || c == '2' || c == 'e' || c == 'E'
}

proof fn lemma_dot_chars(dot: Seq<char>, i: int)
    requires
        is_dot(dot),
        0 <= i < dot.len(),
    ensures
        is_dot_char(dot[i]),
{
    reveal_strlit(".");
    reveal_strlit("%2e");
    reveal_strlit("%2E");
    assert(i == 0 || i == 1 || i == 2);
}

proof fn lemma_dot_segment_chars(segment: Seq<char>, i: int)
    requires
        is_dot_segment(segment),
        0 <= i < segment.len(),
    ensures
        is_dot_char(segment[i]),
{
    if is_dot(segment) {
        lemma_dot_chars(segment, i);
    } else {
        let k = choose|k: int|
            0 <= k <= segment.len() && is_dot(#[trigger] segment.take(k)) && is_dot(
                segment.skip(k),
            );
        if i < k {
            lemma_dot_chars(segment.take(k), i);
        } else {
            lemma_dot_chars(segment.skip(k), i - k);
        }
    }
}

/// The file list URL of a plain identifier is a URL as it is written, and lies
/// in the directory of the item.
proof fn lemma_file_list_url_is_plain(identifier: Seq<char>)
    requires
        is_plain_identifier(identifier),
    ensures
        is_plain_archive_url(file_list_url(identifier)),
        directory_of(file_list_url(identifier)) == item_directory(identifier),
{
    let root = "https://archive.org/"@;
    let url = file_list_url(identifier);
    let file = identifier + "_files.xml"@;
    reveal_strlit("https://archive.org/");
    reveal_strlit("https://archive.org/download/");
    reveal_strlit("/");
    reveal_strlit("_files.xml");
    let download = seq!['d', 'o', 'w', 'n', 'l', 'o', 'a', 'd'];
    let pieces = seq![download, identifier, file];
    let path = url.skip(root.len() as int);
    assert(root =~= url.take(root.len() as int));
    assert(root.is_prefix_of(url));

    // The segments of the path.
    let two = seq![download, identifier];
    let one = seq![download];
    assert(pieces.drop_last() =~= two);
    assert(two.drop_last() =~= one);
    assert(join_with(one, '/') == download);
    assert(join_with(two, '/') == download.push('/') + identifier);
    assert(join_with(pieces, '/') == (download.push('/') + identifier).push('/') + file);
    assert(path =~= join_with(pieces, '/'));
    assert forall|k: int| 0 <= k < pieces.len() implies !(#[trigger] pieces[k]).contains('/') by {
        if k == 2 {
            assert forall|j: int| 0 <= j < file.len() implies file[j] != '/' by {
                if j < identifier.len() {
                    assert(file[j] == identifier[j]);
                }
            }
        }
    }
    lemma_split_undoes_join(pieces, '/');
    assert forall|k: int| 0 <= k < split_on(path, '/').len() implies !is_dot_segment(
        #[trigger] split_on(path, '/')[k],
    ) by {
        if k == 0 {
            if is_dot_segment(download) {
                lemma_dot_segment_chars(download, 0);
            }
        } else if k == 2 {
            if is_dot_segment(file) {
                lemma_dot_segment_chars(file, identifier.len() as int);
            }
        }
    }

    // Its characters.
    assert forall|i: int| 0 <= i < path.len() implies is_path_char(#[trigger] path[i]) by {
        let n = identifier.len();
        if 9 <= i < 9 + n {
            assert(path[i] == identifier[i - 9]);
        } else if 10 + n <= i < 10 + 2 * n {
            assert(path[i] == identifier[i - 10 - n]);
        }
    }

    // The directory.
    let directory = item_directory(identifier);
    assert(url =~= directory + file);
    assert forall|j: int| 0 <= j < file.len() implies (|c: char| c != '/')(#[trigger] file[j]) by {
        if j < identifier.len() {
            assert(file[j] == identifier[j]);
        }
    }
    lemma_trim_end_tail(directory, file, |c: char| c != '/');
}

/// An encoded segment is taken for dots only where the segment is dots.
proof fn lemma_encoded_dots(segment: Seq<char>)
    requires
        !segment.contains('/'),
        segment != "."@,
        segment != ".."@,
    ensures
        !is_dot_segment(encode_segment(segment)),
{
    let text = encode_segment(segment);
    reveal_strlit(".");
    reveal_strlit("..");
    reveal_strlit("%2e");
    reveal_strlit("%2E");
    lemma_split_extends(Seq::empty(), segment, '/');
    assert(Seq::<char>::empty() + segment =~= segment);
    assert(split_on(segment, '/') =~= seq![segment]);
    assert(encode_segments(seq![segment]) =~= seq![text]);
    assert(encode_path(segment) == text);
    law_decoding_gives_the_path_back(segment);
    assert(percent_decode(text) == encode_utf8(segment));
    if is_dot_segment(text) {
        let dot = '.' as u8;
        if is_dot(text) {
            lemma_decode_dot(text, Seq::empty());
            assert(text + Seq::<char>::empty() =~= text);
            assert(percent_decode(Seq::<char>::empty()) =~= Seq::<u8>::empty());
            assert(encode_utf8(segment) =~= seq![dot]);
            lemma_encode_utf8_push(Seq::empty(), '.');
            lemma_scalar_bytes('.');
            assert(Seq::<char>::empty().push('.') =~= "."@);
            assert(encode_utf8("."@) =~= seq![dot]);
            encode_utf8_decode_utf8(segment);
            encode_utf8_decode_utf8("."@);
        } else {
            let k = choose|k: int|
                0 <= k <= text.len() && is_dot(#[trigger] text.take(k)) && is_dot(text.skip(k));
            assert(text =~= text.take(k) + text.skip(k));
            lemma_decode_dot(text.take(k), text.skip(k));
            lemma_decode_dot(text.skip(k), Seq::empty());
            assert(text.skip(k) + Seq::<char>::empty() =~= text.skip(k));
            assert(percent_decode(Seq::<char>::empty()) =~= Seq::<u8>::empty());
            assert(encode_utf8(segment) =~= seq![dot, dot]);
            lemma_encode_utf8_push(Seq::empty(), '.');
            lemma_encode_utf8_push(seq!['.'], '.');
            lemma_scalar_bytes('.');
            assert(Seq::<char>::empty().push('.') =~= seq!['.']);
            assert(seq!['.'].push('.') =~= ".."@);
            assert(encode_utf8(".."@) =~= seq![dot, dot]);
            encode_utf8_decode_utf8(segment);
            encode_utf8_decode_utf8(".."@);
        }
    }
}

proof fn lemma_decode_dot(dot: Seq<char>, rest: Seq<char>)
    requires
        is_dot(dot),
    ensures
        percent_decode(dot + rest) == seq!['.' as u8] + percent_decode(rest),
{
    reveal_strlit(".");
    reveal_strlit("%2e");
    reveal_strlit("%2E");
    let text = dot + rest;
    if dot == "."@ {
        assert(text.skip(1) =~= rest);
    } else {
        assert(text.skip(3) =~= rest);
    }
}

/// The encoding of a relative name is a plain relative path.
proof fn lemma_encoded_name_is_plain(name: Seq<char>)
    requires
        is_relative_name(name),
    ensures
        is_plain_path(encode_path(name)),
        encode_path(name).len() > 0,
        encode_path(name)[0] != '/',
{
    let path = encode_path(name);
    law_encoded_path_is_escaped(name);
    law_encoding_keeps_segments(name);
    lemma_split_pieces(name, '/');
    assert forall|k: int| 0 <= k < split_on(path, '/').len() implies !is_dot_segment(
        #[trigger] split_on(path, '/')[k],
    ) by {
        lemma_encoded_dots(split_on(name, '/')[k]);
    }

    // The first character.
    law_path_is_encoded_byte_by_byte(name);
    let bytes = encode_utf8(name);
    lemma_scalar_bytes(name[0]);
    assert(bytes[0] == encode_scalar(name[0] as u32)[0]);
    let first = seq![bytes[0]];
    assert(bytes =~= first + bytes.drop_first());
    lemma_encode_path_bytes_concat(first, bytes.drop_first());
    assert(first.drop_last() =~= Seq::<u8>::empty());
    assert(encode_path_bytes(first) =~= encode_path_byte(bytes[0])) by {
        reveal_with_fuel(encode_path_bytes, 2);
    }
    assert(path[0] == encode_path_byte(bytes[0])[0]);
}

/// A result with its URL or its error as it is seen in contracts.
pub open spec fn url_view(url: Result<String, IaGetError>) -> Result<Seq<char>, ErrorView> {
    match url {
        Ok(text) => Ok(text@),
        Err(error) => Err(error@),
    }
}

/// What a URL operation means for a run: its URL, or its message as an error.
pub open spec fn url_outcome(outcome: Result<Seq<char>, Seq<char>>) -> Result<
    Seq<char>,
    ErrorView,
> {
    match outcome {
        Ok(text) => Ok(text),
        Err(message) => Err(ErrorView::Url(message)),
    }
}

/// A URL operation is taken over as it came: its URL, or its message as the
/// message of a URL error.
pub proof fn law_url_outcomes_are_taken_over(text: String, message: String)
    ensures
        url_outcome(Ok(text@)) == Ok::<Seq<char>, ErrorView>(text@),
        url_outcome(Err(message@)) == Err::<Seq<char>, ErrorView>(ErrorView::Url(message@)),
        url_view(Ok(text)) == Ok::<Seq<char>, ErrorView>(text@),
        url_view(Err(IaGetError::Url(message))) == Err::<Seq<char>, ErrorView>(
            ErrorView::Url(message@),
        ),
        url_view(Err(IaGetError::Network(message))) == Err::<Seq<char>, ErrorView>(
            ErrorView::Network(message@),
        ),
{
}

/// Takes the outcome of a URL operation over: the URL stays, a message becomes
/// an error.
pub fn take_url(outcome: Result<String, String>) -> (url: Result<String, IaGetError>)
    ensures
        match outcome {
            Ok(text) => url_view(url) == Ok::<Seq<char>, ErrorView>(text@),
            Err(message) => url_view(url) == Err::<Seq<char>, ErrorView>(ErrorView::Url(message@)),
        },
        match outcome {
            Ok(text) => url matches Ok(taken) && taken@ == text@,
            Err(message) => url matches Err(IaGetError::Url(taken)) && taken@ == message@,
        },
{
    match outcome {
        Ok(text) => Ok(text),
        Err(message) => Err(IaGetError::Url(message)),
    }
}

/// Reads the URL of a file list as the base of the URLs of the files.
///
/// The file list URL of a plain identifier always is one, and stays as it is.
pub fn parse_base_url(xml_url: &str) -> (base_url: Result<String, IaGetError>)
    ensures
        url_view(base_url) == url_outcome(parsed_url(xml_url@)),
        match parsed_url(xml_url@) {
            Ok(text) => base_url matches Ok(url) && url@ == text,
            Err(message) => base_url matches Err(IaGetError::Url(taken)) && taken@ == message,
        },
        forall|identifier: Seq<char>|
            is_plain_identifier(identifier) && xml_url@ == #[trigger] file_list_url(identifier)
                ==> url_view(base_url) == Ok::<Seq<char>, ErrorView>(xml_url@),
{
    proof {
        assert forall|identifier: Seq<char>|
            is_plain_identifier(identifier) && xml_url@ == #[trigger] file_list_url(
                identifier,
            ) implies is_plain_archive_url(xml_url@) by {
            lemma_file_list_url_is_plain(identifier);
        }
    }
    take_url(parse_url(xml_url))
}

/// The download URL of the archive file `name`, next to its file list.
///
/// Where the base is the file list of a plain identifier and the name is
/// relative, it is the encoded name in the directory of the item.
pub fn download_url(base_url: &str, name: &str) -> (url: Result<String, IaGetError>)
    ensures
        url_view(url) == url_outcome(joined_url(base_url@, encode_path(name@))),
        match joined_url(base_url@, encode_path(name@)) {
            Ok(text) => url matches Ok(joined) && joined@ == text,
            Err(message) => url matches Err(IaGetError::Url(taken)) && taken@ == message,
        },
        forall|identifier: Seq<char>|
            is_plain_identifier(identifier) && is_relative_name(name@) && base_url@
                == #[trigger] file_list_url(identifier) ==> url_view(url) == Ok::<
                Seq<char>,
                ErrorView,
            >(item_directory(identifier) + encode_path(name@)),
{
    let encoded = encode_archive_path_for_url(name);
    proof {
        assert forall|identifier: Seq<char>|
            is_plain_identifier(identifier) && is_relative_name(name@) && base_url@
                == #[trigger] file_list_url(identifier) implies is_plain_archive_url(base_url@)
            && directory_of(base_url@) == item_directory(identifier) && is_plain_path(encoded@)
            && encoded@.len() > 0 && encoded@[0] != '/' by {
            lemma_file_list_url_is_plain(identifier);
            lemma_encoded_name_is_plain(name@);
        }
    }
    take_url(join_url(base_url, encoded.as_str()))
}

} // verus!
