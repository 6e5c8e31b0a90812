//! Sequences of characters: cutting, trimming and joining text.

use vstd::prelude::*;

verus! {

/// `String::push` puts the character behind the text that is already there.
pub assume_specification[ String::push ](text: &mut String, c: char)
    ensures
        final(text)@ == old(text)@.push(c),
;

/// `String::pop` takes the last character off and hands it out; an empty
/// string stays as it is and gives `None`.
pub assume_specification[ String::pop ](text: &mut String) -> (last: Option<char>)
    ensures
        match last {
            Some(c) => old(text)@.len() > 0 && c == old(text)@.last() && final(text)@
                == old(text)@.drop_last(),
            None => old(text)@.len() == 0 && final(text)@ == old(text)@,
        },
;

/// `text` without the characters at its end that satisfy `drop`.
pub open spec fn trim_end(text: Seq<char>, drop: spec_fn(char) -> bool) -> Seq<char>
    decreases text.len(),
{
    if text.len() > 0 && drop(text.last()) {
        trim_end(text.drop_last(), drop)
    } else {
        text
    }
}

/// `text` without the characters at its start that satisfy `drop`.
pub open spec fn trim_start(text: Seq<char>, drop: spec_fn(char) -> bool) -> Seq<char>
    decreases text.len(),
{
    if text.len() > 0 && drop(text.first()) {
        trim_start(text.drop_first(), drop)
    } else {
        text
    }
}

/// The characters with the Unicode property `White_Space`.
pub open spec fn is_white_space(c: char) -> bool {
    ||| '\u{9}' <= c <= '\u{d}'
    ||| c == ' '
    ||| c == '\u{85}'
    ||| c == '\u{a0}'
    ||| c == '\u{1680}'
    ||| '\u{2000}' <= c <= '\u{200a}'
    ||| c == '\u{2028}'
    ||| c == '\u{2029}'
    ||| c == '\u{202f}'
    ||| c == '\u{205f}'
    ||| c == '\u{3000}'
}

/// `text` without white space at either end.
pub open spec fn trimmed(text: Seq<char>) -> Seq<char> {
    trim_start(
        trim_end(text, |c: char| is_white_space(c)),
        |c: char| is_white_space(c),
    )
}

/// White space and nothing else.
pub open spec fn is_blank(text: Seq<char>) -> bool {
    forall|i: int| 0 <= i < text.len() ==> is_white_space(#[trigger] text[i])
}

/// An ASCII upper-case letter as the lower-case one, any other character as it
/// is.
pub open spec fn ascii_lower(c: char) -> char {
    if 'A' <= c <= 'Z' {
        (c as u8 + 32) as char
    } else {
        c
    }
}

/// `text` with its ASCII letters in lower case.
pub open spec fn ascii_lowercase(text: Seq<char>) -> Seq<char> {
    text.map_values(|c: char| ascii_lower(c))
}

/// The text of an optional string.
pub open spec fn option_view(text: Option<String>) -> Option<Seq<char>> {
    match text {
        Some(text) => Some(text@),
        None => None,
    }
}

/// The pieces of `text` between the occurrences of `separator`, in order; there
/// is one more of them than there are separators.
pub open spec fn split_on(text: Seq<char>, separator: char) -> Seq<Seq<char>>
    decreases text.len(),
{
    if text.len() == 0 {
        seq![Seq::empty()]
    } else {
        let pieces = split_on(text.drop_last(), separator);
        if text.last() == separator {
            pieces.push(Seq::empty())
        } else {
            pieces.drop_last().push(pieces.last().push(text.last()))
        }
    }
}

/// `pieces` one behind the other, with `separator` between neighbours.
pub open spec fn join_with(pieces: Seq<Seq<char>>, separator: char) -> Seq<char>
    decreases pieces.len(),
{
    if pieces.len() == 0 {
        Seq::empty()
    } else if pieces.len() == 1 {
        pieces[0]
    } else {
        join_with(pieces.drop_last(), separator).push(separator) + pieces.last()
    }
}

/// The characters of `text`, one by one.
pub(crate) fn chars_of(text: &str) -> (chars: Vec<char>)
    ensures
        chars@ == text@,
{
    let mut chars: Vec<char> = Vec::new();
    for c in it: text.chars()
        invariant
            chars@ == it.seq().take(it.index()),
            it.seq() == text@,
    {
        chars.push(c);
    }
    chars
}

/// `text` without the `dropped` characters at its end.
pub(crate) fn trim_end_char(text: &str, dropped: char) -> (trimmed: String)
    ensures
        trimmed@ == trim_end(text@, |c: char| c == dropped),
{
    let mut trimmed = text.to_owned();
    let ghost drop = |c: char| c == dropped;
    loop
        invariant
            drop == (|c: char| c == dropped),
            trim_end(trimmed@, drop) == trim_end(text@, drop),
        ensures
            trimmed@ == trim_end(text@, drop),
        decreases trimmed@.len(),
    {
        let ghost before = trimmed@;
        match trimmed.pop() {
            Some(c) => {
                if c != dropped {
                    trimmed.push(c);
                    assert(trimmed@ =~= before);
                    break;
                }
            },
            None => {
                break;
            },
        }
    }
    trimmed
}

/// Whether `c` is white space.
pub fn white_space(c: char) -> (white: bool)
    ensures
        white == is_white_space(c),
{
    match c {
        '\u{9}'..='\u{d}'
        | ' '
        | '\u{85}'
        | '\u{a0}'
        | '\u{1680}'
        | '\u{2000}'..='\u{200a}'
        | '\u{2028}'
        | '\u{2029}'
        | '\u{202f}'
        | '\u{205f}'
        | '\u{3000}' => true,
        _ => false,
    }
}

/// Whether `text` is white space and nothing else.
pub(crate) fn blank(text: &str) -> (all_white: bool)
    ensures
        all_white == is_blank(text@),
{
    let chars = chars_of(text);
    let mut i: usize = 0;
    while i < chars.len()
        invariant
            i <= chars@.len(),
            chars@ == text@,
            forall|j: int| 0 <= j < i ==> is_white_space(#[trigger] text@[j]),
        decreases chars@.len() - i,
    {
        if !white_space(chars[i]) {
            assert(!is_white_space(text@[i as int]));
            return false;
        }
        i += 1;
    }
    true
}

/// `text` without white space at either end.
pub(crate) fn trim(text: &str) -> (inner: String)
    ensures
        inner@ == trimmed(text@),
{
    let chars = chars_of(text);
    let ghost white = |c: char| is_white_space(c);
    let mut end: usize = chars.len();
    proof {
        assert(chars@.take(end as int) =~= chars@);
    }
    while end > 0 && white_space(chars[end - 1])
        invariant
            end <= chars@.len(),
            white == (|c: char| is_white_space(c)),
            trim_end(chars@.take(end as int), white) == trim_end(chars@, white),
        decreases end,
    {
        proof {
            assert(chars@.take(end as int).drop_last() =~= chars@.take(end - 1));
        }
        end -= 1;
    }
    let ghost kept = chars@.take(end as int);
    assert(kept == trim_end(chars@, white));
    let mut start: usize = 0;
    proof {
        assert(kept.skip(0) =~= kept);
    }
    while start < end && white_space(chars[start])
        invariant
            start <= end <= chars@.len(),
            kept == chars@.take(end as int),
            white == (|c: char| is_white_space(c)),
            trim_start(kept.skip(start as int), white) == trim_start(kept, white),
        decreases end - start,
    {
        proof {
            assert(kept.skip(start as int).drop_first() =~= kept.skip(start + 1));
        }
        start += 1;
    }
    assert(kept.skip(start as int) == trim_start(kept, white));
    let mut inner = String::new();
    let mut i: usize = start;
    while i < end
        invariant
            start <= i <= end <= chars@.len(),
            inner@ == chars@.subrange(start as int, i as int),
        decreases end - i,
    {
        inner.push(chars[i]);
        proof {
            assert(chars@.subrange(start as int, i + 1) =~= chars@.subrange(
                start as int,
                i as int,
            ).push(chars@[i as int]));
        }
        i += 1;
    }
    proof {
        assert(inner@ =~= kept.skip(start as int));
    }
    inner
}

/// `text` with its ASCII letters in lower case.
pub(crate) fn to_lowercase(text: &str) -> (lower: String)
    ensures
        lower@ == ascii_lowercase(text@),
{
    let mut lower = String::new();
    for c in it: text.chars()
        invariant
            lower@ == ascii_lowercase(it.seq().take(it.index())),
            it.seq() == text@,
    {
        let ghost before = it.seq().take(it.index());
        if 'A' <= c && c <= 'Z' {
            lower.push((c as u8 + 32) as char);
        } else {
            lower.push(c);
        }
        proof {
            assert(it.seq().take(it.index() + 1) =~= before.push(c));
            assert(lower@ =~= ascii_lowercase(before.push(c)));
        }
    }
    proof {
        assert(text@.take(text@.len() as int) =~= text@);
    }
    lower
}

/// Whether `text` reads `expected`.
pub(crate) fn reads(text: &String, expected: &str) -> (same: bool)
    ensures
        same == (text@ == expected@),
{
    *text == expected.to_owned()
}

/// The texts that `strings` hold.
pub open spec fn views(strings: Seq<String>) -> Seq<Seq<char>> {
    strings.map_values(|s: String| s@)
}

/// Cuts `text` at every `separator`.
pub(crate) fn split_text(text: &str, separator: char) -> (pieces: Vec<String>)
    ensures
        views(pieces@) == split_on(text@, separator),
{
    let chars = chars_of(text);
    let mut pieces: Vec<String> = Vec::new();
    let mut current = String::new();
    let mut i: usize = 0;
    proof {
        assert(chars@.take(0) =~= Seq::<char>::empty());
        assert(views(pieces@).push(current@) =~= seq![Seq::<char>::empty()]);
    }
    while i < chars.len()
        invariant
            i <= chars@.len(),
            chars@ == text@,
            views(pieces@).push(current@) == split_on(chars@.take(i as int), separator),
        decreases chars@.len() - i,
    {
        let c = chars[i];
        let ghost before = views(pieces@).push(current@);
        let ghost text_before = current@;
        proof {
            assert(chars@.take(i + 1).drop_last() =~= chars@.take(i as int));
            assert(chars@.take(i + 1).last() == c);
            assert(before.drop_last() =~= views(pieces@));
        }
        if c == separator {
            pieces.push(current);
            current = String::new();
            proof {
                assert(views(pieces@) =~= before);
            }
        } else {
            current.push(c);
        }
        i += 1;
    }
    proof {
        assert(chars@.take(i as int) =~= chars@);
    }
    let ghost last = current@;
    let ghost before = views(pieces@);
    pieces.push(current);
    proof {
        assert(views(pieces@) =~= before.push(last));
    }
    pieces
}

/// Trimming takes off exactly a tail of dropped characters behind a character
/// that is kept.
pub(crate) proof fn lemma_trim_end_tail(
    head: Seq<char>,
    tail: Seq<char>,
    drop: spec_fn(char) -> bool,
)
    requires
        head.len() == 0 || !drop(head.last()),
        forall|i: int| 0 <= i < tail.len() ==> drop(#[trigger] tail[i]),
    ensures
        trim_end(head + tail, drop) == head,
    decreases tail.len(),
{
    if tail.len() == 0 {
        assert(head + tail =~= head);
    } else {
        assert((head + tail).last() == tail[tail.len() - 1]);
        assert((head + tail).drop_last() =~= head + tail.drop_last());
        lemma_trim_end_tail(head, tail.drop_last(), drop);
    }
}

proof fn lemma_trim_start_keeps(text: Seq<char>, drop: spec_fn(char) -> bool)
    requires
        text.len() > 0,
        !drop(text.last()),
    ensures
        trim_start(text, drop).len() > 0,
    decreases text.len(),
{
    if drop(text.first()) {
        assert(text.drop_first().last() == text.last());
        lemma_trim_start_keeps(text.drop_first(), drop);
    }
}

/// White space is exactly what trimming leaves nothing of.
pub proof fn law_blank_text_trims_to_nothing(text: Seq<char>)
    ensures
        is_blank(text) <==> trimmed(text).len() == 0,
    decreases text.len(),
{
    let white = |c: char| is_white_space(c);
    if text.len() > 0 {
        let init = text.drop_last();
        assert(text.last() == text[text.len() - 1]);
        if is_white_space(text.last()) {
            law_blank_text_trims_to_nothing(init);
            assert(forall|i: int| 0 <= i < init.len() ==> #[trigger] init[i] == text[i]);
            assert(is_blank(init) ==> is_blank(text)) by {
                assert forall|i: int| is_blank(init) && 0 <= i < text.len() implies is_white_space(
                    #[trigger] text[i],
                ) by {
                    if i < init.len() {
                        assert(is_white_space(init[i]));
                    }
                }
            }
        } else {
            lemma_trim_start_keeps(text, white);
        }
    }
}

/// What contracts see of optional and of several strings is their texts.
pub proof fn law_views_hold_the_texts(text: String, strings: Seq<String>)
    ensures
        option_view(None) == None::<Seq<char>>,
        option_view(Some(text)) == Some(text@),
        views(strings).len() == strings.len(),
        forall|i: int| 0 <= i < strings.len() ==> #[trigger] views(strings)[i] == strings[i]@,
{
}

/// Trimming takes white space off both ends, all of it, and nothing else: what
/// stays stands between two places, with white space alone outside them and
/// something else at either edge inside.
pub proof fn law_trimming_takes_white_space_off(text: Seq<char>) -> (kept: (int, int))
    ensures
        0 <= kept.0 <= kept.1 <= text.len(),
        trimmed(text) == text.subrange(kept.0, kept.1),
        forall|i: int| 0 <= i < kept.0 ==> is_white_space(#[trigger] text[i]),
        forall|i: int| kept.1 <= i < text.len() ==> is_white_space(#[trigger] text[i]),
        kept.0 < kept.1 ==> !is_white_space(text[kept.0]) && !is_white_space(text[kept.1 - 1]),
    decreases text.len(),
{
    let white = |c: char| is_white_space(c);
    if text.len() > 0 && is_white_space(text.last()) {
        let init = text.drop_last();
        let kept = law_trimming_takes_white_space_off(init);
        assert(trimmed(text) == trimmed(init));
        assert(init.subrange(kept.0, kept.1) =~= text.subrange(kept.0, kept.1));
        assert forall|i: int| 0 <= i < kept.0 implies is_white_space(#[trigger] text[i]) by {
            assert(is_white_space(init[i]));
        }
        assert forall|i: int| kept.1 <= i < text.len() implies is_white_space(
            #[trigger] text[i],
        ) by {
            if i < init.len() {
                assert(is_white_space(init[i]));
            }
        }
        kept
    } else {
        let start = lemma_trim_start_skips(text);
        (start, text.len() as int)
    }
}

proof fn lemma_trim_start_skips(text: Seq<char>) -> (start: int)
    ensures
        0 <= start <= text.len(),
        trim_start(text, |c: char| is_white_space(c)) == text.subrange(start, text.len() as int),
        forall|i: int| 0 <= i < start ==> is_white_space(#[trigger] text[i]),
        start < text.len() ==> !is_white_space(text[start]),
    decreases text.len(),
{
    let white = |c: char| is_white_space(c);
    if text.len() > 0 && is_white_space(text.first()) {
        let rest = text.drop_first();
        let start = lemma_trim_start_skips(rest);
        assert(rest.subrange(start, rest.len() as int) =~= text.subrange(
            start + 1,
            text.len() as int,
        ));
        assert forall|i: int| 0 <= i < start + 1 implies is_white_space(#[trigger] text[i]) by {
            if i > 0 {
                assert(is_white_space(rest[i - 1]));
            }
        }
        start + 1
    } else {
        assert(text.subrange(0, text.len() as int) =~= text);
        0
    }
}

/// Cutting gives back what was joined: pieces without the separator, joined with
/// it, are the pieces of the joined text.
pub proof fn law_split_undoes_join(pieces: Seq<Seq<char>>, separator: char)
    requires
        pieces.len() >= 1,
        forall|k: int| 0 <= k < pieces.len() ==> !(#[trigger] pieces[k]).contains(separator),
    ensures
        split_on(join_with(pieces, separator), separator) == pieces,
{
    lemma_split_undoes_join(pieces, separator);
}

/// Cutting at a separator leaves at least one piece, and none that holds the
/// separator.
pub(crate) proof fn lemma_split_pieces(text: Seq<char>, separator: char)
    ensures
        split_on(text, separator).len() >= 1,
        forall|k: int|
            0 <= k < split_on(text, separator).len() ==> !(#[trigger] split_on(
                text,
                separator,
            )[k]).contains(separator),
    decreases text.len(),
{
    if text.len() > 0 {
        lemma_split_pieces(text.drop_last(), separator);
        let pieces = split_on(text.drop_last(), separator);
        assert forall|k: int| 0 <= k < split_on(text, separator).len() implies !(
        #[trigger] split_on(text, separator)[k]).contains(separator) by {
            let piece = split_on(text, separator)[k];
            if text.last() != separator && k == pieces.len() - 1 {
                assert(!pieces[k].contains(separator));
                assert forall|j: int| 0 <= j < piece.len() implies piece[j] != separator by {
                    if j < pieces[k].len() {
                        assert(pieces[k].contains(pieces[k][j]));
                    }
                }
            } else if k < pieces.len() {
                assert(piece == pieces[k]);
            }
        }
    }
}

/// Joining behind the last piece: with one more piece, or with a longer last
/// piece, the joined text grows at its end only.
pub(crate) proof fn lemma_join_grows(
    pieces: Seq<Seq<char>>,
    tail: Seq<char>,
    separator: char,
)
    requires
        pieces.len() >= 1,
    ensures
        join_with(pieces.push(tail), separator) == join_with(pieces, separator).push(separator)
            + tail,
        join_with(pieces.drop_last().push(pieces.last() + tail), separator) == join_with(
            pieces,
            separator,
        ) + tail,
{
    assert(pieces.push(tail).drop_last() =~= pieces);
    let longer = pieces.drop_last().push(pieces.last() + tail);
    assert(longer.drop_last() =~= pieces.drop_last());
    if pieces.len() >= 2 {
        let head = join_with(pieces.drop_last(), separator).push(separator);
        assert(head + (pieces.last() + tail) =~= (head + pieces.last()) + tail);
    }
}

/// Joining undoes cutting: the pieces of a text, joined again, are the text.
pub proof fn law_join_undoes_split(text: Seq<char>, separator: char)
    ensures
        join_with(split_on(text, separator), separator) == text,
    decreases text.len(),
{
    if text.len() > 0 {
        let init = text.drop_last();
        law_join_undoes_split(init, separator);
        lemma_split_pieces(init, separator);
        let pieces = split_on(init, separator);
        if text.last() == separator {
            lemma_join_grows(pieces, Seq::empty(), separator);
        } else {
            lemma_join_grows(pieces, seq![text.last()], separator);
            assert(pieces.last() + seq![text.last()] =~= pieces.last().push(text.last()));
        }
        assert(init.push(text.last()) =~= text);
    }
}

/// Cutting undoes joining, where no piece holds the separator.
pub(crate) proof fn lemma_split_undoes_join(pieces: Seq<Seq<char>>, separator: char)
    requires
        pieces.len() >= 1,
        forall|k: int| 0 <= k < pieces.len() ==> !(#[trigger] pieces[k]).contains(separator),
    ensures
        split_on(join_with(pieces, separator), separator) == pieces,
    decreases pieces.len(),
{
    let last = pieces.last();
    assert(!pieces[pieces.len() - 1].contains(separator));
    if pieces.len() == 1 {
        lemma_split_extends(Seq::empty(), last, separator);
        assert(Seq::<char>::empty() + last =~= last);
        assert(split_on(last, separator) =~= pieces);
    } else {
        let init = pieces.drop_last();
        assert forall|k: int| 0 <= k < init.len() implies !(#[trigger] init[k]).contains(
            separator,
        ) by {
            assert(init[k] == pieces[k]);
        }
        lemma_split_undoes_join(init, separator);
        let head = join_with(init, separator).push(separator);
        assert(head.drop_last() =~= join_with(init, separator));
        assert(split_on(head, separator) == init.push(Seq::empty()));
        lemma_split_extends(head, last, separator);
        assert(split_on(head + last, separator) =~= pieces) by {
            assert(init.push(Seq::<char>::empty()).drop_last() =~= init);
            assert(Seq::<char>::empty() + last =~= last);
            assert(init.push(last) =~= pieces);
        }
    }
}

/// Text without the separator lengthens the last piece.
pub(crate) proof fn lemma_split_extends(head: Seq<char>, tail: Seq<char>, separator: char)
    requires
        !tail.contains(separator),
    ensures
        split_on(head + tail, separator) == split_on(head, separator).drop_last().push(
            split_on(head, separator).last() + tail,
        ),
    decreases tail.len(),
{
    lemma_split_pieces(head, separator);
    let pieces = split_on(head, separator);
    if tail.len() == 0 {
        assert(head + tail =~= head);
        assert(pieces.last() + tail =~= pieces.last());
        assert(pieces.drop_last().push(pieces.last()) =~= pieces);
    } else {
        let init = tail.drop_last();
        assert(tail.contains(tail.last()));
        assert forall|c: char| init.contains(c) implies tail.contains(c) by {
            let j = choose|j: int| 0 <= j < init.len() && init[j] == c;
            assert(tail[j] == c);
        }
        lemma_split_extends(head, init, separator);
        assert((head + tail).drop_last() =~= head + init);
        assert((head + tail).last() == tail.last());
        let longer = pieces.drop_last().push(pieces.last() + init);
        assert(longer.drop_last() =~= pieces.drop_last());
        assert((pieces.last() + init).push(tail.last()) =~= pieces.last() + tail);
    }
}

} // verus!
