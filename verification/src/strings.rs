//! Finding, comparing and trimming texts.

use vstd::prelude::*;

use crate::text::text_chars;

verus! {

/// `String::push`.
///
/// Trusted: the character is added behind the text.
pub assume_specification [String::push](text: &mut String, c: char)
    ensures
        final(text)@ == old(text)@.push(c),
;

/// A character with the Unicode property `White_Space`.
pub open spec fn is_white_space(c: char) -> bool {
    let code = c as u32;
    ||| 0x09 <= code <= 0x0d
    ||| code == 0x20
    ||| code == 0x85
    ||| code == 0xa0
    ||| code == 0x1680
    ||| 0x2000 <= code <= 0x200a
    ||| code == 0x2028
    ||| code == 0x2029
    ||| code == 0x202f
    ||| code == 0x205f
    ||| code == 0x3000
}

/// A text without the white space at its ends.
pub open spec fn trimmed(text: Seq<char>) -> Seq<char>
    decreases text.len(),
{
    if text.len() == 0 {
        text
    } else if is_white_space(text.first()) {
        trimmed(text.drop_first())
    } else if is_white_space(text.last()) {
        trimmed(text.drop_last())
    } else {
        text
    }
}

/// Whether `pattern` stands in `text` from `at` on.
pub open spec fn occurs_at<T>(text: Seq<T>, pattern: Seq<T>, at: int) -> bool {
    &&& 0 <= at
    &&& at + pattern.len() <= text.len()
    &&& text.subrange(at, at + pattern.len()) == pattern
}

/// The last place before `end` where `pattern` stands in `text`.
pub open spec fn last_place<T>(text: Seq<T>, pattern: Seq<T>, end: nat) -> Option<nat>
    decreases end,
{
    if end == 0 {
        None
    } else if occurs_at(text, pattern, end - 1) {
        Some((end - 1) as nat)
    } else {
        last_place(text, pattern, (end - 1) as nat)
    }
}

/// What stands between the separators of a run of bytes or characters.
pub open spec fn pieces<T>(text: Seq<T>, separator: T) -> Seq<Seq<T>>
    decreases text.len(),
{
    if text.len() == 0 {
        seq![Seq::empty()]
    } else {
        let before = pieces(text.drop_last(), separator);
        if text.last() == separator {
            before.push(Seq::empty())
        } else {
            before.drop_last().push(before.last().push(text.last()))
        }
    }
}

/// There is always a piece.
pub(crate) proof fn lemma_pieces_are_not_empty<T>(text: Seq<T>, separator: T)
    ensures
        pieces(text, separator).len() > 0,
    decreases text.len(),
{
    if text.len() > 0 {
        lemma_pieces_are_not_empty(text.drop_last(), separator);
    }
}

/// Whether a character is white space.
pub(crate) fn white_space(c: char) -> (yes: bool)
    ensures
        yes == is_white_space(c),
{
    let code = c as u32;
    (0x09 <= code && code <= 0x0d) || code == 0x20 || code == 0x85 || code == 0xa0 || code == 0x1680
        || (0x2000 <= code && code <= 0x200a) || code == 0x2028 || code == 0x2029 || code == 0x202f
        || code == 0x205f || code == 0x3000
}

/// What `trimmed` leaves, by its ends.
proof fn lemma_trimmed_ends(text: Seq<char>, from: int, to: int)
    requires
        0 <= from <= to <= text.len(),
        forall|k: int| 0 <= k < from ==> is_white_space(#[trigger] text[k]),
        forall|k: int| to <= k < text.len() ==> is_white_space(#[trigger] text[k]),
        from < to ==> !is_white_space(text[from]) && !is_white_space(text[to - 1]),
    ensures
        trimmed(text) == text.subrange(from, to),
    decreases text.len(),
{
    if text.len() == 0 {
        assert(text.subrange(from, to) =~= text);
    } else if from > 0 {
        assert(is_white_space(text[0]));
        lemma_trimmed_ends(text.drop_first(), from - 1, to - 1);
        assert(text.drop_first().subrange(from - 1, to - 1) =~= text.subrange(from, to));
    } else if to < text.len() {
        if from == to {
            assert(is_white_space(text[0]));
            lemma_trimmed_ends(text.drop_first(), 0, 0);
            assert(text.drop_first().subrange(0, 0) =~= text.subrange(from, to));
        } else {
            assert(is_white_space(text[text.len() - 1]));
            lemma_trimmed_ends(text.drop_last(), from, to);
            assert(text.drop_last().subrange(from, to) =~= text.subrange(from, to));
        }
    } else {
        assert(text.subrange(from, to) =~= text);
    }
}

/// A text without the white space at its ends.
pub(crate) fn trim_text(text: &str) -> (rest: &str)
    ensures
        rest@ == trimmed(text@),
{
    let chars = text_chars(text);
    let mut from: usize = 0;
    while from < chars.len() && white_space(chars[from])
        invariant
            chars@ == text@,
            from <= chars.len(),
            forall|k: int| 0 <= k < from ==> is_white_space(#[trigger] chars@[k]),
        decreases chars.len() - from,
    {
        from = from + 1;
    }
    let mut to: usize = chars.len();
    while to > from && white_space(chars[to - 1])
        invariant
            chars@ == text@,
            from <= to <= chars.len(),
            forall|k: int| to <= k < chars@.len() ==> is_white_space(#[trigger] chars@[k]),
        decreases to,
    {
        to = to - 1;
    }
    proof {
        lemma_trimmed_ends(text@, from as int, to as int);
    }
    text.substring_char(from, to)
}

/// Whether two texts are the same.
pub(crate) fn same_text(a: &str, b: &str) -> (yes: bool)
    ensures
        yes == (a@ == b@),
{
    let left = text_chars(a);
    let right = text_chars(b);
    if left.len() != right.len() {
        return false;
    }
    for i in 0..left.len()
        invariant
            left@ == a@,
            right@ == b@,
            left@.len() == right@.len(),
            forall|k: int| 0 <= k < i ==> left@[k] == right@[k],
    {
        if left[i] != right[i] {
            return false;
        }
    }
    assert(a@ =~= b@);
    true
}

/// Whether `pattern` stands in `text` from `at` on.
pub(crate) fn chars_at(text: &Vec<char>, pattern: &Vec<char>, at: usize) -> (yes: bool)
    ensures
        yes == occurs_at(text@, pattern@, at as int),
{
    if at > text.len() || pattern.len() > text.len() - at {
        return false;
    }
    for i in 0..pattern.len()
        invariant
            at + pattern.len() <= text.len(),
            forall|k: int| 0 <= k < i ==> text@[at + k] == pattern@[k],
    {
        if text[at + i] != pattern[i] {
            assert(text@.subrange(at as int, at + pattern@.len())[i as int] != pattern@[i as int]);
            return false;
        }
    }
    assert(text@.subrange(at as int, at + pattern@.len()) =~= pattern@);
    true
}

/// The last place where `pattern` stands in `text`.
pub(crate) fn last_place_of(text: &Vec<char>, pattern: &Vec<char>) -> (place: Option<usize>)
    ensures
        match place {
            Some(at) => last_place(text@, pattern@, text@.len()) == Some(at as nat) && occurs_at(
                text@,
                pattern@,
                at as int,
            ),
            None => last_place(text@, pattern@, text@.len()) is None,
        },
{
    let mut end: usize = text.len();
    while end > 0
        invariant
            last_place(text@, pattern@, text@.len()) == last_place(text@, pattern@, end as nat),
        decreases end,
    {
        if chars_at(text, pattern, end - 1) {
            return Some(end - 1);
        }
        end = end - 1;
    }
    None
}

/// A text of one character, `n` times over.
pub open spec fn repeated(c: char, n: nat) -> Seq<char> {
    Seq::new(n, |i: int| c)
}

/// Add a character to a text, `n` times over.
pub(crate) fn push_repeated(text: &mut String, c: char, n: usize)
    ensures
        final(text)@ == old(text)@ + repeated(c, n as nat),
{
    assert(text@ =~= text@ + repeated(c, 0));
    for i in 0..n
        invariant
            text@ == old(text)@ + repeated(c, i as nat),
    {
        text.push(c);
        assert(text@ =~= old(text)@ + repeated(c, (i + 1) as nat));
    }
}

/// Trimming leaves nothing to trim.
pub proof fn law_trimming_is_complete(text: Seq<char>)
    ensures
        trimmed(trimmed(text)) == trimmed(text),
        trimmed(text).len() > 0 ==> !is_white_space(trimmed(text).first()) && !is_white_space(
            trimmed(text).last(),
        ),
    decreases text.len(),
{
    if text.len() > 0 {
        if is_white_space(text.first()) {
            law_trimming_is_complete(text.drop_first());
        } else if is_white_space(text.last()) {
            law_trimming_is_complete(text.drop_last());
        }
    }
}

/// Trimming takes white space from the ends of a text and nothing else.
pub proof fn law_trimming_takes_only_white_space(text: Seq<char>) -> (ends: (int, int))
    ensures
        0 <= ends.0 <= ends.1 <= text.len(),
        trimmed(text) == text.subrange(ends.0, ends.1),
        forall|k: int| 0 <= k < ends.0 ==> is_white_space(#[trigger] text[k]),
        forall|k: int| ends.1 <= k < text.len() ==> is_white_space(#[trigger] text[k]),
    decreases text.len(),
{
    if text.len() == 0 {
        assert(text.subrange(0, 0) =~= text);
        (0, 0)
    } else if is_white_space(text.first()) {
        let rest = text.drop_first();
        let ends = law_trimming_takes_only_white_space(rest);
        assert(rest.subrange(ends.0, ends.1) =~= text.subrange(ends.0 + 1, ends.1 + 1));
        assert forall|k: int| 0 <= k < ends.0 + 1 implies is_white_space(#[trigger] text[k]) by {
            if k > 0 {
                assert(rest[k - 1] == text[k]);
            }
        }
        assert forall|k: int| ends.1 + 1 <= k < text.len() implies is_white_space(
            #[trigger] text[k],
        ) by {
            assert(rest[k - 1] == text[k]);
        }
        (ends.0 + 1, ends.1 + 1)
    } else if is_white_space(text.last()) {
        let rest = text.drop_last();
        let ends = law_trimming_takes_only_white_space(rest);
        assert(rest.subrange(ends.0, ends.1) =~= text.subrange(ends.0, ends.1));
        assert forall|k: int| 0 <= k < ends.0 implies is_white_space(#[trigger] text[k]) by {
            assert(rest[k] == text[k]);
        }
        assert forall|k: int| ends.1 <= k < text.len() implies is_white_space(#[trigger] text[k])
            by {
            if k < rest.len() {
                assert(rest[k] == text[k]);
            }
        }
        (ends.0, ends.1)
    } else {
        assert(text.subrange(0, text.len() as int) =~= text);
        (0, text.len() as int)
    }
}

/// The last place is one where the pattern stands, and it stands nowhere behind
/// it. Where there is none, the pattern stands nowhere.
pub proof fn law_last_place_is_the_last<T>(text: Seq<T>, pattern: Seq<T>, end: nat, k: int)
    requires
        0 <= k < end,
        occurs_at(text, pattern, k),
    ensures
        last_place(text, pattern, end) matches Some(at) && k <= at < end && occurs_at(
            text,
            pattern,
            at as int,
        ),
    decreases end,
{
    if !occurs_at(text, pattern, end - 1) {
        law_last_place_is_the_last(text, pattern, (end - 1) as nat, k);
    }
}

/// A pattern stands at the place that is found for it.
pub proof fn law_found_place_holds_the_pattern<T>(text: Seq<T>, pattern: Seq<T>, end: nat)
    ensures
        last_place(text, pattern, end) matches Some(at) ==> at < end && occurs_at(
            text,
            pattern,
            at as int,
        ),
    decreases end,
{
    if end > 0 {
        law_found_place_holds_the_pattern(text, pattern, (end - 1) as nat);
    }
}

/// A run without the separator is a single piece.
pub proof fn law_run_without_separator_is_one_piece<T>(text: Seq<T>, separator: T)
    requires
        forall|k: int| 0 <= k < text.len() ==> #[trigger] text[k] != separator,
    ensures
        pieces(text, separator) == seq![text],
    decreases text.len(),
{
    if text.len() == 0 {
        assert(text =~= Seq::empty());
    } else {
        let shorter = text.drop_last();
        assert forall|k: int| 0 <= k < shorter.len() implies #[trigger] shorter[k] != separator by {
            assert(shorter[k] == text[k]);
        }
        law_run_without_separator_is_one_piece(shorter, separator);
        assert(text[text.len() - 1] != separator);
        assert(shorter.push(text.last()) =~= text);
        assert(seq![shorter].drop_last().push(text) =~= seq![text]);
    }
}

/// The pieces round a separator are those before it and those behind it.
pub proof fn law_separator_parts_the_pieces<T>(first: Seq<T>, then: Seq<T>, separator: T)
    ensures
        pieces(first.push(separator) + then, separator) == pieces(first, separator) + pieces(
            then,
            separator,
        ),
    decreases then.len(),
{
    let all = first.push(separator) + then;
    lemma_pieces_are_not_empty(then, separator);
    if then.len() == 0 {
        assert(all =~= first.push(separator));
        assert(all.drop_last() =~= first);
        assert(pieces(first, separator).push(Seq::empty()) =~= pieces(first, separator)
            + seq![Seq::<T>::empty()]);
    } else {
        let shorter = then.drop_last();
        law_separator_parts_the_pieces(first, shorter, separator);
        lemma_pieces_are_not_empty(shorter, separator);
        assert(all.drop_last() =~= first.push(separator) + shorter);
        assert(all.last() == then.last());
        let head = pieces(first, separator);
        let tail = pieces(shorter, separator);
        if then.last() == separator {
            assert((head + tail).push(Seq::empty()) =~= head + tail.push(Seq::empty()));
        } else {
            assert((head + tail).last() == tail.last());
            assert((head + tail).drop_last().push(tail.last().push(then.last())) =~= head + (
            tail.drop_last().push(tail.last().push(then.last()))));
        }
    }
}

/// White space is what Unicode counts as such: the controls from tab to carriage
/// return, the next-line control, and the blanks and separators of its blocks.
pub proof fn law_white_space_is_what_unicode_counts(c: char)
    ensures
        is_white_space(c) <==> seq![
            9u32,
            10,
            11,
            12,
            13,
            32,
            133,
            160,
            5760,
            8192,
            8193,
            8194,
            8195,
            8196,
            8197,
            8198,
            8199,
            8200,
            8201,
            8202,
            8232,
            8233,
            8239,
            8287,
            12288,
        ].contains(c as u32),
{
    let codes = seq![
        9u32,
        10,
        11,
        12,
        13,
        32,
        133,
        160,
        5760,
        8192,
        8193,
        8194,
        8195,
        8196,
        8197,
        8198,
        8199,
        8200,
        8201,
        8202,
        8232,
        8233,
        8239,
        8287,
        12288,
    ];
    let code = c as u32;
    if is_white_space(c) {
        if 9 <= code <= 13 {
            assert(codes[code - 9] == code);
        } else if code == 32 {
            assert(codes[5] == code);
        } else if code == 133 {
            assert(codes[6] == code);
        } else if code == 160 {
            assert(codes[7] == code);
        } else if code == 5760 {
            assert(codes[8] == code);
        } else if 8192 <= code <= 8202 {
            assert(codes[code - 8183] == code);
        } else if code == 8232 {
            assert(codes[20] == code);
        } else if code == 8233 {
            assert(codes[21] == code);
        } else if code == 8239 {
            assert(codes[22] == code);
        } else if code == 8287 {
            assert(codes[23] == code);
        } else {
            assert(codes[24] == code);
        }
    }
    if codes.contains(code) {
        let i = choose|i: int| 0 <= i < codes.len() && codes[i] == code;
        assert(codes[i] == code);
    }
}

} // verus!
