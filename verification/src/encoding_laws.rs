//! What holds of every encoded archive path.

use crate::encoding::{
    encode_byte, encode_bytes, encode_path, encode_segment, encode_segments, hex_digit_of,
    is_unreserved,
};
use crate::text::{
    join_with, lemma_join_grows, lemma_split_pieces, lemma_split_undoes_join, split_on,
};
use vstd::prelude::*;
use vstd::utf8::{encode_scalar, encode_utf8, encode_utf8_decode_utf8};

verus! {

/// The value of a hexadecimal digit.
pub open spec fn hex_value(digit: char) -> int {
    if '0' <= digit <= '9' {
        digit as int - '0' as int
    } else if 'A' <= digit <= 'F' {
        digit as int - 'A' as int + 10
    } else {
        digit as int - 'a' as int + 10
    }
}

/// An upper-case hexadecimal digit.
pub open spec fn is_hex_digit(c: char) -> bool {
    '0' <= c <= '9' || 'A' <= c <= 'F'
}

/// The bytes that a percent-encoded text stands for.
pub open spec fn percent_decode(text: Seq<char>) -> Seq<u8>
    decreases text.len(),
{
    if text.len() == 0 {
        Seq::empty()
    } else if text[0] == '%' && text.len() >= 3 {
        seq![(16 * hex_value(text[1]) + hex_value(text[2])) as u8] + percent_decode(text.skip(3))
    } else {
        seq![text[0] as u8] + percent_decode(text.skip(1))
    }
}

/// One byte of a path: the separator as itself, any other byte encoded.
pub open spec fn encode_path_byte(byte: u8) -> Seq<char> {
    if byte == '/' as u8 {
        seq!['/']
    } else {
        encode_byte(byte)
    }
}

/// The encodings of the bytes of a path, one behind the other.
pub open spec fn encode_path_bytes(bytes: Seq<u8>) -> Seq<char>
    decreases bytes.len(),
{
    if bytes.len() == 0 {
        Seq::empty()
    } else {
        encode_path_bytes(bytes.drop_last()) + encode_path_byte(bytes.last())
    }
}

/// Text that a URL path holds literally: unreserved characters, separators and
/// escapes, where `%` stands only before two hexadecimal digits.
pub open spec fn is_escaped_path(text: Seq<char>) -> bool {
    forall|i: int|
        0 <= i < text.len() ==> {
            let c = #[trigger] text[i];
            ||| c == '/'
            ||| (c as int) < 128 && is_unreserved(c as u8)
            ||| c == '%' && i + 2 < text.len() && is_hex_digit(text[i + 1]) && is_hex_digit(
                text[i + 2],
            )
        }
}

pub(crate) proof fn lemma_encode_bytes_concat(a: Seq<u8>, b: Seq<u8>)
    ensures
        encode_bytes(a + b) == encode_bytes(a) + encode_bytes(b),
    decreases b.len(),
{
    if b.len() == 0 {
        assert(a + b =~= a);
        assert(encode_bytes(a) + encode_bytes(b) =~= encode_bytes(a));
    } else {
        lemma_encode_bytes_concat(a, b.drop_last());
        assert((a + b).drop_last() =~= a + b.drop_last());
        assert(encode_bytes(a) + (encode_bytes(b.drop_last()) + encode_byte(b.last())) =~= (
        encode_bytes(a) + encode_bytes(b.drop_last())) + encode_byte(b.last()));
    }
}

pub(crate) proof fn lemma_encode_path_bytes_concat(a: Seq<u8>, b: Seq<u8>)
    ensures
        encode_path_bytes(a + b) == encode_path_bytes(a) + encode_path_bytes(b),
    decreases b.len(),
{
    if b.len() == 0 {
        assert(a + b =~= a);
        assert(encode_path_bytes(a) + encode_path_bytes(b) =~= encode_path_bytes(a));
    } else {
        lemma_encode_path_bytes_concat(a, b.drop_last());
        assert((a + b).drop_last() =~= a + b.drop_last());
        assert(encode_path_bytes(a) + (encode_path_bytes(b.drop_last()) + encode_path_byte(
            b.last(),
        )) =~= (encode_path_bytes(a) + encode_path_bytes(b.drop_last())) + encode_path_byte(
            b.last(),
        ));
    }
}

pub(crate) proof fn lemma_encode_utf8_concat(a: Seq<char>, b: Seq<char>)
    ensures
        encode_utf8(a + b) == encode_utf8(a) + encode_utf8(b),
    decreases a.len(),
{
    if a.len() == 0 {
        assert(a + b =~= b);
        assert(encode_utf8(a) + encode_utf8(b) =~= encode_utf8(b));
    } else {
        lemma_encode_utf8_concat(a.drop_first(), b);
        assert((a + b).drop_first() =~= a.drop_first() + b);
        assert(encode_scalar(a[0] as u32) + (encode_utf8(a.drop_first()) + encode_utf8(b)) =~= (
        encode_scalar(a[0] as u32) + encode_utf8(a.drop_first())) + encode_utf8(b));
    }
}

pub(crate) proof fn lemma_encode_utf8_push(text: Seq<char>, c: char)
    ensures
        encode_utf8(text.push(c)) == encode_utf8(text) + encode_scalar(c as u32),
{
    lemma_encode_utf8_concat(text, seq![c]);
    assert(text + seq![c] =~= text.push(c));
    assert(seq![c].drop_first() =~= Seq::<char>::empty());
    assert(encode_utf8(seq![c]) =~= encode_scalar(c as u32)) by {
        reveal_with_fuel(encode_utf8, 2);
    }
}

/// An ASCII character is one byte, its own code; the bytes of any other
/// character all lie above the ASCII range.
pub(crate) proof fn lemma_scalar_bytes(c: char)
    ensures
        (c as int) < 128 ==> encode_scalar(c as u32) == seq![c as u8] && c as u8 as int == c as int
            && c as u8 as char == c,
        (c as int) >= 128 ==> forall|i: int|
            0 <= i < encode_scalar(c as u32).len() ==> #[trigger] encode_scalar(c as u32)[i] >= 128,
{
    let v = c as u32;
    if v < 128 {
        assert((v & 0x7F) as u8 == v as u8) by (bit_vector)
            requires
                v < 128,
        ;
    } else {
        assert(0xC0 | ((v >> 6) & 0x1F) as u8 >= 128) by (bit_vector);
        assert(0xE0 | ((v >> 12) & 0x0F) as u8 >= 128) by (bit_vector);
        assert(0xF0 | ((v >> 18) & 0x7) as u8 >= 128) by (bit_vector);
        assert(0x80 | (v & 0x3F) as u8 >= 128) by (bit_vector);
        assert(0x80 | ((v >> 6) & 0x3F) as u8 >= 128) by (bit_vector);
        assert(0x80 | ((v >> 12) & 0x3F) as u8 >= 128) by (bit_vector);
    }
}

/// Bytes without the separator are encoded in a path as in a segment.
proof fn lemma_path_bytes_of_segment(bytes: Seq<u8>)
    requires
        forall|i: int| 0 <= i < bytes.len() ==> #[trigger] bytes[i] != '/' as u8,
    ensures
        encode_path_bytes(bytes) == encode_bytes(bytes),
    decreases bytes.len(),
{
    if bytes.len() > 0 {
        lemma_path_bytes_of_segment(bytes.drop_last());
    }
}

/// Encoding a path segment by segment is encoding it byte by byte, with the
/// separators kept.
pub proof fn law_path_is_encoded_byte_by_byte(path: Seq<char>)
    ensures
        encode_path(path) == encode_path_bytes(encode_utf8(path)),
    decreases path.len(),
{
    if path.len() == 0 {
        assert(encode_segments(split_on(path, '/')) =~= seq![encode_segment(Seq::empty())]);
    } else {
        let init = path.drop_last();
        let c = path.last();
        assert(init.push(c) =~= path);
        law_path_is_encoded_byte_by_byte(init);
        lemma_encode_utf8_push(init, c);
        lemma_scalar_bytes(c);
        lemma_split_pieces(init, '/');
        let bytes = encode_scalar(c as u32);
        lemma_encode_path_bytes_concat(encode_utf8(init), bytes);
        let pieces = split_on(init, '/');
        let encoded = encode_segments(pieces);
        if c == '/' {
            assert(bytes =~= seq!['/' as u8]);
            assert(bytes.drop_last() =~= Seq::<u8>::empty());
            assert(encode_path_bytes(bytes) =~= seq!['/']) by {
                reveal_with_fuel(encode_path_bytes, 2);
            }
            assert(encode_segment(Seq::empty()) =~= Seq::empty());
            assert(encode_segments(pieces.push(Seq::empty())) =~= encoded.push(Seq::empty()));
            lemma_join_grows(encoded, Seq::empty(), '/');
            assert(join_with(encoded, '/').push('/') + Seq::<char>::empty() =~= join_with(
                encoded,
                '/',
            ) + seq!['/']);
        } else {
            lemma_path_bytes_of_segment(bytes);
            lemma_encode_utf8_push(pieces.last(), c);
            lemma_encode_bytes_concat(encode_utf8(pieces.last()), bytes);
            assert(encode_segments(pieces.drop_last().push(pieces.last().push(c)))
                =~= encoded.drop_last().push(encoded.last() + encode_bytes(bytes)));
            lemma_join_grows(encoded, encode_bytes(bytes), '/');
        }
    }
}

proof fn lemma_decode_byte(byte: u8, rest: Seq<char>)
    ensures
        percent_decode(encode_path_byte(byte) + rest) == seq![byte] + percent_decode(rest),
{
    let text = encode_path_byte(byte) + rest;
    if byte == '/' as u8 || is_unreserved(byte) {
        assert(text.skip(1) =~= rest);
    } else {
        assert(text.skip(3) =~= rest);
    }
}

proof fn lemma_decode_path_bytes(bytes: Seq<u8>)
    ensures
        percent_decode(encode_path_bytes(bytes)) == bytes,
    decreases bytes.len(),
{
    if bytes.len() > 0 {
        let first = seq![bytes.first()];
        let rest = bytes.drop_first();
        assert(bytes =~= first + rest);
        lemma_encode_path_bytes_concat(first, rest);
        assert(first.drop_last() =~= Seq::<u8>::empty());
        assert(encode_path_bytes(first) =~= encode_path_byte(bytes.first())) by {
            reveal_with_fuel(encode_path_bytes, 2);
        }
        lemma_decode_byte(bytes.first(), encode_path_bytes(rest));
        lemma_decode_path_bytes(rest);
    }
}

/// Nothing of a path is lost: decoding an encoded path gives the bytes of the
/// path back.
pub proof fn law_decoding_gives_the_path_back(path: Seq<char>)
    ensures
        percent_decode(encode_path(path)) == encode_utf8(path),
{
    law_path_is_encoded_byte_by_byte(path);
    lemma_decode_path_bytes(encode_utf8(path));
}

/// Different paths have different encodings.
pub proof fn law_encoding_tells_paths_apart(a: Seq<char>, b: Seq<char>)
    ensures
        encode_path(a) == encode_path(b) ==> a == b,
{
    law_decoding_gives_the_path_back(a);
    law_decoding_gives_the_path_back(b);
    encode_utf8_decode_utf8(a);
    encode_utf8_decode_utf8(b);
}

proof fn lemma_escaped_concat(a: Seq<char>, b: Seq<char>)
    requires
        is_escaped_path(a),
        is_escaped_path(b),
    ensures
        is_escaped_path(a + b),
{
    let text = a + b;
    assert forall|i: int| 0 <= i < text.len() implies {
        let c = #[trigger] text[i];
        ||| c == '/'
        ||| (c as int) < 128 && is_unreserved(c as u8)
        ||| c == '%' && i + 2 < text.len() && is_hex_digit(text[i + 1]) && is_hex_digit(text[i + 2])
    } by {
        if i < a.len() {
            assert(text[i] == a[i]);
            if i + 2 < a.len() {
                assert(text[i + 1] == a[i + 1]);
                assert(text[i + 2] == a[i + 2]);
            }
        } else {
            assert(text[i] == b[i - a.len()]);
            if i + 2 < text.len() {
                assert(text[i + 1] == b[i - a.len() + 1]);
                assert(text[i + 2] == b[i - a.len() + 2]);
            }
        }
    }
}

proof fn lemma_path_bytes_escaped(bytes: Seq<u8>)
    ensures
        is_escaped_path(encode_path_bytes(bytes)),
    decreases bytes.len(),
{
    if bytes.len() > 0 {
        lemma_path_bytes_escaped(bytes.drop_last());
        assert(is_escaped_path(encode_path_byte(bytes.last())));
        lemma_escaped_concat(encode_path_bytes(bytes.drop_last()), encode_path_byte(bytes.last()));
    }
}

/// Nothing in an encoded path can be read as URL syntax: it holds unreserved
/// characters, separators and complete escapes only.
pub proof fn law_encoded_path_is_escaped(path: Seq<char>)
    ensures
        is_escaped_path(encode_path(path)),
{
    law_path_is_encoded_byte_by_byte(path);
    lemma_path_bytes_escaped(encode_utf8(path));
}

/// An encoded segment holds no separator.
pub(crate) proof fn lemma_encoded_bytes_hold_no_separator(bytes: Seq<u8>)
    ensures
        !encode_bytes(bytes).contains('/'),
    decreases bytes.len(),
{
    if bytes.len() > 0 {
        let init = encode_bytes(bytes.drop_last());
        lemma_encoded_bytes_hold_no_separator(bytes.drop_last());
        let text = encode_bytes(bytes);
        assert forall|i: int| 0 <= i < text.len() implies text[i] != '/' by {
            if i < init.len() {
                assert(init.contains(init[i]));
            }
        }
    }
}

/// Encoding keeps the directories: the segments of the encoded path are the
/// encoded segments of the path.
pub proof fn law_encoding_keeps_segments(path: Seq<char>)
    ensures
        split_on(encode_path(path), '/') == encode_segments(split_on(path, '/')),
{
    lemma_split_pieces(path, '/');
    let encoded = encode_segments(split_on(path, '/'));
    assert forall|k: int| 0 <= k < encoded.len() implies !(#[trigger] encoded[k]).contains(
        '/',
    ) by {
        lemma_encoded_bytes_hold_no_separator(encode_utf8(split_on(path, '/')[k]));
    }
    lemma_split_undoes_join(encoded, '/');
}

/// Encoding goes piece by piece: what stands before or behind a piece of a path
/// or of a segment makes no difference to its encoding.
pub proof fn law_encoding_goes_piece_by_piece(a: Seq<char>, b: Seq<char>)
    ensures
        encode_path(a + b) == encode_path(a) + encode_path(b),
        encode_segment(a + b) == encode_segment(a) + encode_segment(b),
{
    law_path_is_encoded_byte_by_byte(a);
    law_path_is_encoded_byte_by_byte(b);
    law_path_is_encoded_byte_by_byte(a + b);
    lemma_encode_utf8_concat(a, b);
    lemma_encode_path_bytes_concat(encode_utf8(a), encode_utf8(b));
    lemma_encode_bytes_concat(encode_utf8(a), encode_utf8(b));
}

/// Bytes that are not unreserved are escapes, one behind the other.
proof fn lemma_escapes(bytes: Seq<u8>)
    requires
        forall|i: int| 0 <= i < bytes.len() ==> !is_unreserved(#[trigger] bytes[i]),
    ensures
        encode_bytes(bytes).len() == 3 * bytes.len(),
        forall|i: int|
            #![trigger bytes[i]]
            0 <= i < bytes.len() ==> encode_bytes(bytes).subrange(3 * i, 3 * i + 3) == seq![
                '%',
                "0123456789ABCDEF"@[bytes[i] as int / 16],
                "0123456789ABCDEF"@[bytes[i] as int % 16],
            ],
    decreases bytes.len(),
{
    if bytes.len() > 0 {
        let init = bytes.drop_last();
        lemma_escapes(init);
        let head = encode_bytes(init);
        let text = encode_bytes(bytes);
        lemma_hex_digits(bytes.last());
        assert(text == head + encode_byte(bytes.last()));
        assert forall|i: int|
            #![trigger bytes[i]]
            0 <= i < bytes.len() implies text.subrange(3 * i, 3 * i + 3) == seq![
            '%',
            "0123456789ABCDEF"@[bytes[i] as int / 16],
            "0123456789ABCDEF"@[bytes[i] as int % 16],
        ] by {
            if i < init.len() {
                assert(bytes[i] == init[i]);
                assert(text.subrange(3 * i, 3 * i + 3) =~= head.subrange(3 * i, 3 * i + 3));
            } else {
                assert(text.subrange(3 * i, 3 * i + 3) =~= encode_byte(bytes.last()));
            }
        }
    }
}

proof fn lemma_hex_digits(byte: u8)
    requires
        !is_unreserved(byte),
    ensures
        encode_byte(byte) == seq![
            '%',
            "0123456789ABCDEF"@[byte as int / 16],
            "0123456789ABCDEF"@[byte as int % 16],
        ],
{
    reveal_strlit("0123456789ABCDEF");
    lemma_hex_digit(byte as int / 16);
    lemma_hex_digit(byte as int % 16);
}

proof fn lemma_hex_digit(n: int)
    requires
        0 <= n < 16,
    ensures
        hex_digit_of(n) == "0123456789ABCDEF"@[n],
{
    reveal_strlit("0123456789ABCDEF");
    assert(n == 0 || n == 1 || n == 2 || n == 3 || n == 4 || n == 5 || n == 6 || n == 7 || n == 8
        || n == 9 || n == 10 || n == 11 || n == 12 || n == 13 || n == 14 || n == 15);
}

/// What becomes of each character: ASCII letters and digits, `-`, `.`, `_` and
/// `~` stay, in a path the separator stays, and every byte of any other character
/// becomes `%` and its two upper-case hexadecimal digits.
pub proof fn law_each_character_is_encoded(c: char)
    ensures
        ('A' <= c <= 'Z' || 'a' <= c <= 'z' || '0' <= c <= '9' || c == '-' || c == '.' || c == '_'
            || c == '~') ==> encode_segment(seq![c]) == seq![c] && encode_path(seq![c]) == seq![c],
        c == '/' ==> encode_segment(seq![c]) == seq!['%', '2', 'F'] && encode_path(seq![c])
            == seq!['/'],
        !('A' <= c <= 'Z' || 'a' <= c <= 'z' || '0' <= c <= '9' || c == '-' || c == '.' || c == '_'
            || c == '~' || c == '/') ==> {
            let bytes = encode_utf8(seq![c]);
            let text = encode_path(seq![c]);
            &&& encode_segment(seq![c]) == text
            &&& text.len() == 3 * bytes.len()
            &&& forall|i: int|
                #![trigger bytes[i]]
                0 <= i < bytes.len() ==> text.subrange(3 * i, 3 * i + 3) == seq![
                    '%',
                    "0123456789ABCDEF"@[bytes[i] as int / 16],
                    "0123456789ABCDEF"@[bytes[i] as int % 16],
                ]
        },
        encode_segment(Seq::empty()) == Seq::<char>::empty(),
        encode_path(Seq::empty()) == Seq::<char>::empty(),
{
    law_path_is_encoded_byte_by_byte(Seq::empty());
    assert(encode_segment(Seq::empty()) =~= Seq::<char>::empty());
    assert(encode_path(Seq::empty()) =~= Seq::<char>::empty());
    if (c as int) < 128 {
        lemma_ascii_character(c);
    }
    if !('A' <= c <= 'Z' || 'a' <= c <= 'z' || '0' <= c <= '9' || c == '-' || c == '.' || c == '_'
        || c == '~' || c == '/') {
        lemma_escaped_character(c);
    }
}

proof fn lemma_ascii_character(c: char)
    requires
        (c as int) < 128,
    ensures
        encode_segment(seq![c]) == encode_byte(c as u8),
        encode_path(seq![c]) == encode_path_byte(c as u8),
        is_unreserved(c as u8) ==> encode_byte(c as u8) == seq![c],
        c == '/' ==> encode_byte(c as u8) == seq!['%', '2', 'F'],
{
    let bytes = encode_utf8(seq![c]);
    lemma_encode_utf8_push(Seq::empty(), c);
    assert(Seq::<char>::empty().push(c) =~= seq![c]);
    lemma_scalar_bytes(c);
    assert(bytes =~= seq![c as u8]);
    law_path_is_encoded_byte_by_byte(seq![c]);
    assert(bytes.drop_last() =~= Seq::<u8>::empty());
    assert(encode_bytes(bytes) =~= encode_byte(c as u8)) by {
        reveal_with_fuel(encode_bytes, 2);
    }
    assert(encode_path_bytes(bytes) =~= encode_path_byte(c as u8)) by {
        reveal_with_fuel(encode_path_bytes, 2);
    }
}

proof fn lemma_escaped_character(c: char)
    requires
        !('A' <= c <= 'Z' || 'a' <= c <= 'z' || '0' <= c <= '9' || c == '-' || c == '.' || c == '_'
            || c == '~' || c == '/'),
    ensures
        encode_segment(seq![c]) == encode_path(seq![c]),
        encode_path(seq![c]).len() == 3 * encode_utf8(seq![c]).len(),
        forall|i: int|
            #![trigger encode_utf8(seq![c])[i]]
            0 <= i < encode_utf8(seq![c]).len() ==> encode_path(seq![c]).subrange(3 * i, 3 * i + 3)
                == seq![
                '%',
                "0123456789ABCDEF"@[encode_utf8(seq![c])[i] as int / 16],
                "0123456789ABCDEF"@[encode_utf8(seq![c])[i] as int % 16],
            ],
{
    let bytes = encode_utf8(seq![c]);
    lemma_encode_utf8_push(Seq::empty(), c);
    assert(Seq::<char>::empty().push(c) =~= seq![c]);
    assert(bytes =~= encode_scalar(c as u32));
    lemma_scalar_bytes(c);
    law_path_is_encoded_byte_by_byte(seq![c]);
    assert forall|i: int| 0 <= i < bytes.len() implies !is_unreserved(#[trigger] bytes[i])
        && bytes[i] != '/' as u8 by {
        if (c as int) >= 128 {
            assert(encode_scalar(c as u32)[i] >= 128);
        }
    }
    lemma_path_bytes_of_segment(bytes);
    lemma_escapes(bytes);
}

/// A path of unreserved characters and separators is its own encoding.
pub proof fn law_plain_path_is_unchanged(path: Seq<char>)
    requires
        forall|i: int|
            0 <= i < path.len() ==> {
                let c = #[trigger] path[i];
                c == '/' || (c as int) < 128 && is_unreserved(c as u8)
            },
    ensures
        encode_path(path) == path,
    decreases path.len(),
{
    law_path_is_encoded_byte_by_byte(path);
    if path.len() > 0 {
        let init = path.drop_last();
        let c = path.last();
        assert(c == path[path.len() - 1]);
        assert(init.push(c) =~= path);
        assert forall|i: int| 0 <= i < init.len() implies {
            let d = #[trigger] init[i];
            d == '/' || (d as int) < 128 && is_unreserved(d as u8)
        } by {
            assert(init[i] == path[i]);
        }
        law_plain_path_is_unchanged(init);
        law_path_is_encoded_byte_by_byte(init);
        lemma_encode_utf8_push(init, c);
        lemma_scalar_bytes(c);
        let bytes = seq![c as u8];
        lemma_encode_path_bytes_concat(encode_utf8(init), bytes);
        assert(bytes.drop_last() =~= Seq::<u8>::empty());
        assert(encode_path_bytes(bytes) =~= seq![c]) by {
            reveal_with_fuel(encode_path_bytes, 2);
        }
        assert(init + seq![c] =~= path);
    }
}

} // verus!
