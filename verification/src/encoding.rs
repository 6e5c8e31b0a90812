//! Percent-encoding of archive file paths for use as URL paths.

use crate::text::{join_with, split_on, split_text, views};
use vstd::prelude::*;
use vstd::utf8::encode_utf8;

verus! {

/// The bytes that stand for themselves in a URL path segment: ASCII letters and
/// digits, `-`, `.`, `_` and `~`.
pub open spec fn is_unreserved(byte: u8) -> bool {
    ||| 'A' as u8 <= byte <= 'Z' as u8
    ||| 'a' as u8 <= byte <= 'z' as u8
    ||| '0' as u8 <= byte <= '9' as u8
    ||| byte == '-' as u8
    ||| byte == '.' as u8
    ||| byte == '_' as u8
    ||| byte == '~' as u8
}

/// The upper-case hexadecimal digit of a number below sixteen.
pub open spec fn hex_digit_of(n: int) -> char {
    if n < 10 {
        ('0' as int + n) as char
    } else {
        ('A' as int + n - 10) as char
    }
}

/// An unreserved byte as itself, any other as `%` and its two hexadecimal
/// digits.
pub open spec fn encode_byte(byte: u8) -> Seq<char> {
    if is_unreserved(byte) {
        seq![byte as char]
    } else {
        seq!['%', hex_digit_of(byte as int / 16), hex_digit_of(byte as int % 16)]
    }
}

/// The encodings of `bytes`, one behind the other.
pub open spec fn encode_bytes(bytes: Seq<u8>) -> Seq<char>
    decreases bytes.len(),
{
    if bytes.len() == 0 {
        Seq::empty()
    } else {
        encode_bytes(bytes.drop_last()) + encode_byte(bytes.last())
    }
}

/// A path segment with every byte of its UTF-8 form encoded.
pub open spec fn encode_segment(segment: Seq<char>) -> Seq<char> {
    encode_bytes(encode_utf8(segment))
}

/// The encodings of several segments.
pub open spec fn encode_segments(segments: Seq<Seq<char>>) -> Seq<Seq<char>> {
    segments.map_values(|segment: Seq<char>| encode_segment(segment))
}

/// A path whose segments are encoded and whose `/` stay separators.
pub open spec fn encode_path(path: Seq<char>) -> Seq<char> {
    join_with(encode_segments(split_on(path, '/')), '/')
}

fn hex_digit(n: u8) -> (digit: char)
    requires
        n < 16,
    ensures
        digit == hex_digit_of(n as int),
{
    if n < 10 {
        ('0' as u8 + n) as char
    } else {
        ('A' as u8 + (n - 10)) as char
    }
}

/// Encodes one path segment: unreserved bytes stay, all others are escaped.
pub fn encode_archive_path_segment(segment: &str) -> (encoded: String)
    ensures
        encoded@ == encode_segment(segment@),
{
    let bytes = segment.as_bytes();
    let mut encoded = String::new();
    let mut i: usize = 0;
    proof {
        assert(bytes@.take(0) =~= Seq::<u8>::empty());
    }
    while i < bytes.len()
        invariant
            i <= bytes@.len(),
            encoded@ == encode_bytes(bytes@.take(i as int)),
        decreases bytes@.len() - i,
    {
        let byte: u8 = bytes[i];
        let ghost before = encoded@;
        proof {
            assert(bytes@.take(i + 1).drop_last() =~= bytes@.take(i as int));
        }
        match byte as char {
            'A'..='Z' | 'a'..='z' | '0'..='9' | '-' | '.' | '_' | '~' => {
                encoded.push(byte as char);
            },
            _ => {
                encoded.push('%');
                encoded.push(hex_digit(byte / 16));
                encoded.push(hex_digit(byte % 16));
            },
        }
        proof {
            assert(encoded@ =~= before + encode_byte(byte));
        }
        i += 1;
    }
    proof {
        assert(bytes@.take(i as int) =~= bytes@);
    }
    encoded
}

/// Encodes the literal path of an archive file for use as a URL path.
///
/// Each segment is encoded on its own, so that characters such as `%`, spaces,
/// `?`, `#`, brackets and parentheses cannot be read as URL syntax; `/` stays
/// the directory separator.
pub fn encode_archive_path_for_url(path: &str) -> (encoded: String)
    ensures
        encoded@ == encode_path(path@),
{
    let segments = split_text(path, '/');
    let ghost all = encode_segments(split_on(path@, '/'));
    let mut encoded = String::new();
    let mut i: usize = 0;
    while i < segments.len()
        invariant
            i <= segments@.len(),
            views(segments@) == split_on(path@, '/'),
            all == encode_segments(split_on(path@, '/')),
            encoded@ == join_with(all.take(i as int), '/'),
        decreases segments@.len() - i,
    {
        let ghost before = encoded@;
        if i > 0 {
            encoded.push('/');
        }
        let segment = encode_archive_path_segment(segments[i].as_str());
        encoded.append(segment.as_str());
        proof {
            assert(views(segments@)[i as int] == segments@[i as int]@);
            assert(all.take(i + 1).drop_last() =~= all.take(i as int));
            assert(all.take(i + 1).last() == segment@);
            if i == 0 {
                assert(encoded@ =~= segment@);
            } else {
                assert(encoded@ =~= before.push('/') + segment@);
            }
        }
        i += 1;
    }
    proof {
        assert(views(segments@).len() == segments@.len());
        assert(all.take(i as int) =~= all);
    }
    encoded
}

} // verus!
