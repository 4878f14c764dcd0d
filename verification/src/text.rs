//! Text: decoding, trimming, splitting at a separator, and numbers in digits.
//!
//! Contracts speak of a text as the sequence of its characters.

use vstd::prelude::*;
use vstd::string::*;
use vstd::utf8::*;

verus! {

// ---------------------------------------------------------------------------------------------
// What std does
// ---------------------------------------------------------------------------------------------

/// Whether `c` has the Unicode property `White_Space`.
pub open spec fn is_white_space(c: char) -> bool {
    let v = c as u32;
    ||| 0x9 <= v <= 0xD
    ||| v == 0x20
    ||| v == 0x85
    ||| v == 0xA0
    ||| v == 0x1680
    ||| 0x2000 <= v <= 0x200A
    ||| v == 0x2028
    ||| v == 0x2029
    ||| v == 0x202F
    ||| v == 0x205F
    ||| v == 0x3000
}

/// `char::is_whitespace` tells whether a character has the Unicode property `White_Space`;
/// `is_white_space` lists the characters that have it.
pub assume_specification[ char::is_whitespace ](c: char) -> (white: bool)
    ensures
        white == is_white_space(c),
;

/// `String::push` appends one character.
pub assume_specification[ String::push ](s: &mut String, c: char)
    ensures
        final(s)@ == old(s)@.push(c),
;

/// What `String::from_utf8_lossy` makes of bytes that are not UTF-8.
pub uninterp spec fn repaired_utf8(bytes: Seq<u8>) -> Seq<char>;

/// The text in `bytes`: what they encode, or, where they are not UTF-8, what
/// `String::from_utf8_lossy` makes of them.
pub open spec fn lossy_text(bytes: Seq<u8>) -> Seq<char> {
    if valid_utf8(bytes) {
        decode_utf8(bytes)
    } else {
        repaired_utf8(bytes)
    }
}

/// `String::from_utf8_lossy` decodes UTF-8. Of other bytes it makes a text that depends on the
/// bytes alone; which characters stand for the malformed parts is left to `repaired_utf8`.
#[verifier::external_body]
pub(crate) fn decode_lossy(bytes: &[u8]) -> (text: String)
    ensures
        valid_utf8(bytes@) ==> text@ == decode_utf8(bytes@),
        !valid_utf8(bytes@) ==> text@ == repaired_utf8(bytes@),
{
    String::from_utf8_lossy(bytes).into_owned()
}

/// What `str::to_lowercase` makes of a text that is not ASCII.
pub uninterp spec fn unicode_lowercase(text: Seq<char>) -> Seq<char>;

/// `c`, with the letters `A` to `Z` in lower case.
pub open spec fn ascii_lowercase(c: char) -> char {
    if 'A' <= c <= 'Z' {
        ((c as u32) + 32) as char
    } else {
        c
    }
}

/// `text` in lower case.
pub open spec fn lowercase(text: Seq<char>) -> Seq<char> {
    if is_ascii_chars(text) {
        text.map_values(|c: char| ascii_lowercase(c))
    } else {
        unicode_lowercase(text)
    }
}

/// `str::to_lowercase` puts the letters `A` to `Z` of an ASCII text in lower case and keeps its
/// other characters. Of another text it makes one that depends on that text alone.
#[verifier::external_body]
pub(crate) fn lower_text(text: &str) -> (lower: String)
    ensures
        is_ascii_chars(text@) ==> lower@ == text@.map_values(|c: char| ascii_lowercase(c)),
        !is_ascii_chars(text@) ==> lower@ == unicode_lowercase(text@),
{
    text.to_lowercase()
}

/// In an ASCII text, upper and lower case make no difference to its lower-case form.
pub proof fn law_lowercase_ignores_case(a: Seq<char>, b: Seq<char>)
    requires
        is_ascii_chars(a),
        is_ascii_chars(b),
        a.len() == b.len(),
        forall|i: int| 0 <= i < a.len() ==> ascii_lowercase(#[trigger] a[i]) == ascii_lowercase(b[i]),
    ensures
        lowercase(a) == lowercase(b),
{
    assert(lowercase(a) =~= lowercase(b));
}

/// In the lower-case form of an ASCII text each of the letters `A` to `Z` has become the letter 32
/// places further on, and every other character has stayed.
pub proof fn law_lowercase_letter_by_letter(text: Seq<char>, i: int)
    requires
        is_ascii_chars(text),
        0 <= i < text.len(),
    ensures
        lowercase(text).len() == text.len(),
        65 <= text[i] as int <= 90 ==> lowercase(text)[i] as int == text[i] as int + 32,
        !(65 <= text[i] as int <= 90) ==> lowercase(text)[i] == text[i],
{
}

/// Encoded text is decoded to what it was.
pub proof fn law_encoded_text_is_decoded(text: Seq<char>)
    ensures
        lossy_text(encode_utf8(text)) == text,
{
    encode_utf8_valid_utf8(text);
    encode_utf8_decode_utf8(text);
}

// ---------------------------------------------------------------------------------------------
// Characters
// ---------------------------------------------------------------------------------------------

/// The characters of `text`, in order.
pub fn chars_of(text: &str) -> (chars: Vec<char>)
    ensures
        chars@ == text@,
{
    let mut chars: Vec<char> = Vec::new();
    for c in it: text.chars()
        invariant
            it.seq() == text@,
            chars@ == it.seq().take(it.index()),
    {
        chars.push(c);
        assert(it.seq().take(it.index() + 1) =~= it.seq().take(it.index()).push(c));
    }
    assert(text@.take(text@.len() as int) =~= text@);
    chars
}

/// Whether `a` and `b` are the same text.
pub fn same_text(a: &str, b: &str) -> (same: bool)
    ensures
        same == (a@ == b@),
{
    a.to_owned() == b.to_owned()
}

// ---------------------------------------------------------------------------------------------
// Trimming
// ---------------------------------------------------------------------------------------------

/// Whether trimming takes `c` away: white space, and with `nul` the character NUL too.
pub open spec fn strips(c: char, nul: bool) -> bool {
    is_white_space(c) || (nul && c == '\0')
}

/// `text` without the stripped characters at its start.
pub open spec fn trim_front(text: Seq<char>, nul: bool) -> Seq<char>
    decreases text.len(),
{
    if text.len() > 0 && strips(text[0], nul) {
        trim_front(text.drop_first(), nul)
    } else {
        text
    }
}

/// `text` without the stripped characters at its end.
pub open spec fn trim_back(text: Seq<char>, nul: bool) -> Seq<char>
    decreases text.len(),
{
    if text.len() > 0 && strips(text.last(), nul) {
        trim_back(text.drop_last(), nul)
    } else {
        text
    }
}

/// `text` without the stripped characters at either end.
pub open spec fn trimmed(text: Seq<char>, nul: bool) -> Seq<char> {
    trim_back(trim_front(text, nul), nul)
}

/// Trimming the front stops at the first character that is not stripped.
proof fn lemma_trim_front(text: Seq<char>, nul: bool, start: int)
    requires
        0 <= start <= text.len(),
        forall|k: int| 0 <= k < start ==> strips(#[trigger] text[k], nul),
        start < text.len() ==> !strips(text[start], nul),
    ensures
        trim_front(text, nul) == text.skip(start),
    decreases text.len(),
{
    if start > 0 {
        let rest = text.drop_first();
        assert forall|k: int| 0 <= k < start - 1 implies strips(#[trigger] rest[k], nul) by {
            assert(rest[k] == text[k + 1]);
        }
        lemma_trim_front(rest, nul, start - 1);
        assert(strips(text[0], nul));
        assert(rest.skip(start - 1) =~= text.skip(start));
    } else {
        assert(text.skip(0) =~= text);
    }
}

/// Trimming the back stops at the last character that is not stripped.
proof fn lemma_trim_back(text: Seq<char>, nul: bool, end: int)
    requires
        0 <= end <= text.len(),
        forall|k: int| end <= k < text.len() ==> strips(#[trigger] text[k], nul),
        end > 0 ==> !strips(text[end - 1], nul),
    ensures
        trim_back(text, nul) == text.take(end),
    decreases text.len(),
{
    if end < text.len() {
        assert(strips(text[text.len() - 1], nul));
        lemma_trim_back(text.drop_last(), nul, end);
        assert(text.drop_last().take(end) =~= text.take(end));
    } else {
        assert(text.take(end) =~= text);
    }
}

/// Where trimming starts and ends in `text`.
proof fn lemma_trimmed_range(text: Seq<char>, nul: bool, start: int, end: int)
    requires
        0 <= start <= end <= text.len(),
        forall|k: int| 0 <= k < start ==> strips(#[trigger] text[k], nul),
        forall|k: int| end <= k < text.len() ==> strips(#[trigger] text[k], nul),
        start < end ==> !strips(text[start], nul) && !strips(text[end - 1], nul),
        start == end ==> end == text.len(),
    ensures
        trimmed(text, nul) == text.subrange(start, end),
{
    lemma_trim_front(text, nul, start);
    let rest = text.skip(start);
    assert forall|k: int| end - start <= k < rest.len() implies strips(#[trigger] rest[k], nul) by {
        assert(rest[k] == text[k + start]);
    }
    lemma_trim_back(rest, nul, end - start);
    assert(rest.take(end - start) =~= text.subrange(start, end));
}

/// A text whose ends are not stripped is its own trimmed form.
pub proof fn lemma_trimmed_fixed(text: Seq<char>, nul: bool)
    requires
        text.len() > 0 ==> !strips(text[0], nul) && !strips(text.last(), nul),
    ensures
        trimmed(text, nul) == text,
{
    lemma_trimmed_range(text, nul, 0, text.len() as int);
    assert(text.subrange(0, text.len() as int) =~= text);
}

/// The ends of a trimmed text are not stripped.
pub proof fn lemma_trimmed_ends(text: Seq<char>, nul: bool)
    ensures
        trimmed(text, nul).len() > 0 ==> !strips(trimmed(text, nul)[0], nul) && !strips(
            trimmed(text, nul).last(),
            nul,
        ),
{
    lemma_trim_front_first(text, nul);
    lemma_trim_back_ends(trim_front(text, nul), nul);
}

proof fn lemma_trim_front_first(text: Seq<char>, nul: bool)
    ensures
        trim_front(text, nul).len() > 0 ==> !strips(trim_front(text, nul)[0], nul),
    decreases text.len(),
{
    if text.len() > 0 && strips(text[0], nul) {
        lemma_trim_front_first(text.drop_first(), nul);
    }
}

proof fn lemma_trim_back_ends(text: Seq<char>, nul: bool)
    ensures
        trim_back(text, nul).len() > 0 ==> !strips(trim_back(text, nul).last(), nul) && trim_back(
            text,
            nul,
        )[0] == text[0],
    decreases text.len(),
{
    if text.len() > 0 && strips(text.last(), nul) {
        lemma_trim_back_ends(text.drop_last(), nul);
    }
}

/// Trimming the front of a text never passes a character that is not stripped.
pub proof fn lemma_trim_front_stops(text: Seq<char>, nul: bool, at: int) -> (start: int)
    requires
        0 <= at < text.len(),
        !strips(text[at], nul),
    ensures
        0 <= start <= at,
        trim_front(text, nul) == text.skip(start),
    decreases text.len(),
{
    if strips(text[0], nul) {
        let rest = text.drop_first();
        let start = lemma_trim_front_stops(rest, nul, at - 1);
        assert(rest.skip(start) =~= text.skip(start + 1));
        start + 1
    } else {
        assert(text.skip(0) =~= text);
        0
    }
}

/// Whatever white space, and with `nul` NUL characters, stand around a text that neither starts
/// nor ends with them, trimming gives that text.
pub proof fn law_trim_undoes_padding(before: Seq<char>, core: Seq<char>, after: Seq<char>, nul: bool)
    requires
        forall|k: int|
            0 <= k < before.len() ==> is_white_space(#[trigger] before[k]) || (nul && before[k]
                == '\0'),
        forall|k: int|
            0 <= k < after.len() ==> is_white_space(#[trigger] after[k]) || (nul && after[k]
                == '\0'),
        core.len() > 0 ==> {
            &&& !is_white_space(core[0]) && !(nul && core[0] == '\0')
            &&& !is_white_space(core.last()) && !(nul && core.last() == '\0')
        },
    ensures
        trimmed(before + core + after, nul) == core,
{
    let text = before + core + after;
    if core.len() > 0 {
        let start = before.len() as int;
        let end = start + core.len();
        assert forall|k: int| 0 <= k < start implies strips(#[trigger] text[k], nul) by {
            assert(text[k] == before[k]);
        }
        assert forall|k: int| end <= k < text.len() implies strips(#[trigger] text[k], nul) by {
            assert(text[k] == after[k - end]);
        }
        assert(text[start] == core[0]);
        assert(text[end - 1] == core.last());
        lemma_trimmed_range(text, nul, start, end);
        assert(text.subrange(start, end) =~= core);
    } else {
        let end = text.len() as int;
        assert forall|k: int| 0 <= k < end implies strips(#[trigger] text[k], nul) by {
            if k < before.len() {
                assert(text[k] == before[k]);
            } else {
                assert(text[k] == after[k - before.len()]);
            }
        }
        lemma_trimmed_range(text, nul, end, end);
        assert(text.subrange(end, end) =~= core);
    }
}

/// Trimming takes away white space, and with `nul` NUL characters, at the ends and nothing else:
/// what is left stands between two parts that hold only those.
pub proof fn law_trim_takes_only_padding(text: Seq<char>, nul: bool) -> (parts: (
    Seq<char>,
    Seq<char>,
))
    ensures
        text == parts.0 + trimmed(text, nul) + parts.1,
        forall|k: int|
            0 <= k < parts.0.len() ==> is_white_space(#[trigger] parts.0[k]) || (nul && parts.0[k]
                == '\0'),
        forall|k: int|
            0 <= k < parts.1.len() ==> is_white_space(#[trigger] parts.1[k]) || (nul && parts.1[k]
                == '\0'),
        trimmed(text, nul).len() > 0 ==> {
            let core = trimmed(text, nul);
            &&& !is_white_space(core[0]) && !(nul && core[0] == '\0')
            &&& !is_white_space(core.last()) && !(nul && core.last() == '\0')
        },
{
    let front = lemma_trim_front_parts(text, nul);
    let back = lemma_trim_back_parts(trim_front(text, nul), nul);
    lemma_trimmed_ends(text, nul);
    assert(text =~= front + trimmed(text, nul) + back);
    assert forall|k: int| 0 <= k < front.len() implies is_white_space(#[trigger] front[k]) || (nul
        && front[k] == '\0') by {
        assert(strips(front[k], nul));
    }
    assert forall|k: int| 0 <= k < back.len() implies is_white_space(#[trigger] back[k]) || (nul
        && back[k] == '\0') by {
        assert(strips(back[k], nul));
    }
    (front, back)
}

proof fn lemma_trim_front_parts(text: Seq<char>, nul: bool) -> (front: Seq<char>)
    ensures
        text == front + trim_front(text, nul),
        forall|k: int| 0 <= k < front.len() ==> strips(#[trigger] front[k], nul),
    decreases text.len(),
{
    if text.len() > 0 && strips(text[0], nul) {
        let front = lemma_trim_front_parts(text.drop_first(), nul);
        let all = seq![text[0]] + front;
        assert(text =~= seq![text[0]] + text.drop_first());
        assert(text =~= all + trim_front(text.drop_first(), nul));
        all
    } else {
        assert(text =~= Seq::<char>::empty() + text);
        Seq::empty()
    }
}

proof fn lemma_trim_back_parts(text: Seq<char>, nul: bool) -> (back: Seq<char>)
    ensures
        text == trim_back(text, nul) + back,
        forall|k: int| 0 <= k < back.len() ==> strips(#[trigger] back[k], nul),
    decreases text.len(),
{
    if text.len() > 0 && strips(text.last(), nul) {
        let back = lemma_trim_back_parts(text.drop_last(), nul);
        let all = back.push(text.last());
        assert(text =~= text.drop_last().push(text.last()));
        assert(text =~= trim_back(text.drop_last(), nul) + all);
        all
    } else {
        assert(text =~= text + Seq::<char>::empty());
        Seq::empty()
    }
}

/// `text` without white space, and with `nul` without NUL characters, at either end.
pub fn trim(text: &str, nul: bool) -> (out: String)
    ensures
        out@ == trimmed(text@, nul),
{
    let chars = chars_of(text);
    let len: usize = chars.len();
    let mut start: usize = 0;
    while start < len && (chars[start].is_whitespace() || (nul && chars[start] == '\0'))
        invariant
            start <= len,
            len == chars@.len(),
            chars@ == text@,
            forall|k: int| 0 <= k < start ==> strips(#[trigger] text@[k], nul),
        decreases len - start,
    {
        start = start + 1;
    }
    let mut end: usize = len;
    while end > start && (chars[end - 1].is_whitespace() || (nul && chars[end - 1] == '\0'))
        invariant
            start <= end <= len,
            len == chars@.len(),
            chars@ == text@,
            start < len ==> !strips(text@[start as int], nul),
            forall|k: int| end <= k < len ==> strips(#[trigger] text@[k], nul),
        decreases end,
    {
        end = end - 1;
    }
    proof {
        lemma_trimmed_range(text@, nul, start as int, end as int);
    }
    text.substring_char(start, end).to_owned()
}

// ---------------------------------------------------------------------------------------------
// Fields
// ---------------------------------------------------------------------------------------------

/// The part of `text` before the first `sep`, or all of it where there is none.
pub open spec fn before_first(text: Seq<char>, sep: char) -> Seq<char>
    decreases text.len(),
{
    if text.len() == 0 || text[0] == sep {
        seq![]
    } else {
        seq![text[0]] + before_first(text.drop_first(), sep)
    }
}

/// The part of `text` after the last `sep`, or all of it where there is none.
pub open spec fn after_last(text: Seq<char>, sep: char) -> Seq<char>
    decreases text.len(),
{
    if text.len() == 0 || text.last() == sep {
        seq![]
    } else {
        after_last(text.drop_last(), sep).push(text.last())
    }
}

proof fn lemma_before_first(text: Seq<char>, sep: char, at: int)
    requires
        0 <= at <= text.len(),
        at < text.len() ==> text[at] == sep,
        forall|k: int| 0 <= k < at ==> text[k] != sep,
    ensures
        before_first(text, sep) == text.take(at),
    decreases text.len(),
{
    if at > 0 {
        let rest = text.drop_first();
        assert forall|k: int| 0 <= k < at - 1 implies rest[k] != sep by {
            assert(rest[k] == text[k + 1]);
        }
        lemma_before_first(rest, sep, at - 1);
        assert(seq![text[0]] + rest.take(at - 1) =~= text.take(at));
    } else {
        assert(text.take(0) =~= seq![]);
    }
}

/// Where no `sep` follows position `start`, and `start` is the beginning of `text` or stands
/// behind a `sep`, the last field is what starts there.
pub proof fn lemma_after_last(text: Seq<char>, sep: char, start: int)
    requires
        0 <= start <= text.len(),
        start > 0 ==> text[start - 1] == sep,
        forall|k: int| start <= k < text.len() ==> text[k] != sep,
    ensures
        after_last(text, sep) == text.skip(start),
    decreases text.len(),
{
    if start < text.len() {
        lemma_after_last(text.drop_last(), sep, start);
        assert(text.drop_last().skip(start).push(text.last()) =~= text.skip(start));
    } else {
        assert(text.skip(start) =~= seq![]);
    }
}

/// Before the first separator stands what was put there, and after the last one too.
pub proof fn law_fields_at_the_ends(head: Seq<char>, middle: Seq<char>, tail: Seq<char>, sep: char)
    requires
        !head.contains(sep),
        !tail.contains(sep),
    ensures
        before_first(head, sep) == head,
        before_first(head + seq![sep] + middle, sep) == head,
        after_last(tail, sep) == tail,
        after_last(middle + seq![sep] + tail, sep) == tail,
{
    let front = head + seq![sep] + middle;
    assert forall|k: int| 0 <= k < head.len() implies front[k] != sep && head[k] != sep by {
        assert(head.contains(head[k]));
    }
    lemma_before_first(head, sep, head.len() as int);
    lemma_before_first(front, sep, head.len() as int);
    assert(head.take(head.len() as int) =~= head);
    assert(front.take(head.len() as int) =~= head);
    let back = middle + seq![sep] + tail;
    let start = middle.len() + 1;
    assert forall|k: int| 0 <= k < tail.len() implies tail[k] != sep by {
        assert(tail.contains(tail[k]));
    }
    assert forall|k: int| start <= k < back.len() implies back[k] != sep by {
        assert(back[k] == tail[k - start]);
    }
    lemma_after_last(tail, sep, 0);
    lemma_after_last(back, sep, start as int);
    assert(tail.skip(0) =~= tail);
    assert(back.skip(start as int) =~= tail);
}

/// The parts of `text` between the occurrences of `sep`.
pub open spec fn fields(text: Seq<char>, sep: char) -> Seq<Seq<char>>
    decreases text.len(),
{
    if text.len() == 0 {
        seq![seq![]]
    } else {
        let earlier = fields(text.drop_last(), sep);
        if text.last() == sep {
            earlier.push(seq![])
        } else {
            earlier.drop_last().push(earlier.last().push(text.last()))
        }
    }
}

/// A text without separators is one field.
pub proof fn lemma_one_field(text: Seq<char>, sep: char)
    requires
        !text.contains(sep),
    ensures
        fields(text, sep) == seq![text],
    decreases text.len(),
{
    if text.len() > 0 {
        let rest = text.drop_last();
        assert(text.contains(text[text.len() - 1]));
        assert(!rest.contains(sep)) by {
            if rest.contains(sep) {
                let k = choose|k: int| 0 <= k < rest.len() && rest[k] == sep;
                assert(text[k] == sep);
            }
        }
        lemma_one_field(rest, sep);
        assert(fields(text, sep) =~= seq![text]) by {
            assert(rest.push(text.last()) =~= text);
        }
    } else {
        assert(text =~= seq![]);
        assert(fields(text, sep) =~= seq![text]);
    }
}

/// A separator and a text without separators add one field.
pub proof fn lemma_next_field(text: Seq<char>, sep: char, next: Seq<char>)
    requires
        !next.contains(sep),
    ensures
        fields(text + seq![sep] + next, sep) == fields(text, sep).push(next),
    decreases next.len(),
{
    let all = text + seq![sep] + next;
    if next.len() > 0 {
        let rest = next.drop_last();
        assert(next.contains(next[next.len() - 1]));
        assert(!rest.contains(sep)) by {
            if rest.contains(sep) {
                let k = choose|k: int| 0 <= k < rest.len() && rest[k] == sep;
                assert(next[k] == sep);
            }
        }
        lemma_next_field(text, sep, rest);
        assert(all.drop_last() =~= text + seq![sep] + rest);
        let earlier = fields(text, sep).push(rest);
        assert(earlier.drop_last() =~= fields(text, sep));
        assert(rest.push(next.last()) =~= next);
        assert(fields(all, sep) =~= fields(text, sep).push(next));
    } else {
        assert(all.drop_last() =~= text);
        assert(next =~= seq![]);
        assert(fields(all, sep) =~= fields(text, sep).push(next));
    }
}

/// The part of `text` before its first `sep`.
pub fn first_field(text: &str, sep: char) -> (field: String)
    ensures
        field@ == before_first(text@, sep),
{
    let chars = chars_of(text);
    let mut at: usize = 0;
    while at < chars.len() && chars[at] != sep
        invariant
            at <= chars@.len(),
            chars@ == text@,
            forall|k: int| 0 <= k < at ==> text@[k] != sep,
        decreases chars@.len() - at,
    {
        at = at + 1;
    }
    proof {
        lemma_before_first(text@, sep, at as int);
        assert(text@.subrange(0, at as int) =~= text@.take(at as int));
    }
    text.substring_char(0, at).to_owned()
}

/// The part of `text` after its last `sep`.
pub fn last_field(text: &str, sep: char) -> (field: String)
    ensures
        field@ == after_last(text@, sep),
{
    let chars = chars_of(text);
    let len: usize = chars.len();
    let mut start: usize = len;
    while start > 0 && chars[start - 1] != sep
        invariant
            start <= len,
            len == chars@.len(),
            chars@ == text@,
            forall|k: int| start <= k < len ==> text@[k] != sep,
        decreases start,
    {
        start = start - 1;
    }
    proof {
        lemma_after_last(text@, sep, start as int);
        assert(text@.subrange(start as int, len as int) =~= text@.skip(start as int));
    }
    text.substring_char(start, len).to_owned()
}

/// Whether `sep` occurs in `text`.
pub fn contains_char(text: &str, sep: char) -> (found: bool)
    ensures
        found == text@.contains(sep),
{
    let chars = chars_of(text);
    let mut at: usize = 0;
    while at < chars.len()
        invariant
            at <= chars@.len(),
            chars@ == text@,
            forall|k: int| 0 <= k < at ==> text@[k] != sep,
        decreases chars@.len() - at,
    {
        if chars[at] == sep {
            assert(text@[at as int] == sep);
            return true;
        }
        at = at + 1;
    }
    false
}

// ---------------------------------------------------------------------------------------------
// Numbers in digits
// ---------------------------------------------------------------------------------------------

/// The digit of value `d` (below 16).
pub open spec fn digit_char(d: nat) -> char {
    if d < 10 {
        (48 + d) as char
    } else {
        (87 + d) as char
    }
}

/// `n` in digits to the given base (2 to 16), without leading zeros.
pub open spec fn digits(n: nat, base: nat) -> Seq<char>
    decreases n,
{
    if base < 2 || n < base {
        seq![digit_char(n)]
    } else {
        proof {
            assert(n / base < n) by (nonlinear_arith)
                requires
                    n >= base,
                    base >= 2,
            ;
        }
        digits(n / base, base).push(digit_char(n % base))
    }
}

/// Whether `c` is one of the digits `0` to `9`.
pub open spec fn is_decimal_digit(c: char) -> bool {
    '0' <= c <= '9'
}

/// Whether `text` holds decimal digits only.
pub open spec fn all_decimal(text: Seq<char>) -> bool {
    forall|k: int| 0 <= k < text.len() ==> is_decimal_digit(#[trigger] text[k])
}

/// The number that the decimal digits of `text` write out.
pub open spec fn decimal_value(text: Seq<char>) -> int
    decreases text.len(),
{
    if text.len() == 0 {
        0
    } else {
        decimal_value(text.drop_last()) * 10 + (text.last() as int - 48)
    }
}

/// `text` without one leading plus sign.
pub open spec fn without_plus(text: Seq<char>) -> Seq<char> {
    if text.len() > 0 && text[0] == '+' {
        text.drop_first()
    } else {
        text
    }
}

/// The number that `text` writes in decimal, with or without a plus sign in front, if it does
/// so and the number fits 16 bits.
pub open spec fn parsed_u16(text: Seq<char>) -> Option<u16> {
    let number = without_plus(text);
    if number.len() > 0 && all_decimal(number) && decimal_value(number) <= 0xFFFF {
        Some(decimal_value(number) as u16)
    } else {
        None
    }
}

/// Decimal digits read back as the number that they write out.
pub proof fn lemma_decimal_round_trip(n: nat)
    ensures
        all_decimal(digits(n, 10)),
        digits(n, 10).len() > 0,
        decimal_value(digits(n, 10)) == n,
    decreases n,
{
    if n < 10 {
        assert(digits(n, 10).drop_last() =~= seq![]);
        reveal_with_fuel(decimal_value, 2);
    } else {
        lemma_decimal_round_trip(n / 10);
        assert(digits(n, 10).drop_last() =~= digits(n / 10, 10));
    }
}

/// The number that decimal digits write out does not shrink as digits follow.
proof fn lemma_decimal_value_grows(text: Seq<char>, upto: int)
    requires
        0 <= upto <= text.len(),
        all_decimal(text),
    ensures
        0 <= decimal_value(text.take(upto)) <= decimal_value(text),
    decreases text.len(),
{
    if upto < text.len() {
        assert(all_decimal(text.drop_last()));
        lemma_decimal_value_grows(text.drop_last(), upto);
        assert(text.drop_last().take(upto) =~= text.take(upto));
        assert(is_decimal_digit(text[text.len() - 1]));
    } else if text.len() > 0 {
        assert(text.take(upto) =~= text);
        assert(all_decimal(text.drop_last()));
        lemma_decimal_value_grows(text.drop_last(), text.len() - 1);
        assert(is_decimal_digit(text[text.len() - 1]));
    } else {
        assert(text.take(upto) =~= text);
    }
}

/// The value of the digit `c`, in any base up to 16.
pub open spec fn digit_value(c: char) -> int {
    if '0' <= c <= '9' {
        c as int - 48
    } else {
        c as int - 87
    }
}

/// The number that `text` writes out in the given base.
pub open spec fn number_value(text: Seq<char>, base: int) -> int
    decreases text.len(),
{
    if text.len() == 0 {
        0
    } else {
        number_value(text.drop_last(), base) * base + digit_value(text.last())
    }
}

/// Whether `text` writes `n` out in the given base, with as many digits as it takes and the
/// letters in lower case.
pub open spec fn writes_number(text: Seq<char>, n: int, base: int) -> bool {
    &&& text.len() > 0
    &&& text.len() > 1 ==> text[0] != '0'
    &&& forall|k: int|
        0 <= k < text.len() ==> ('0' <= #[trigger] text[k] <= '9' || 'a' <= text[k] <= 'f')
            && digit_value(text[k]) < base
    &&& number_value(text, base) == n
}

/// Digits write out the number that they stand for.
pub proof fn law_digits_write_number(n: nat, base: nat)
    requires
        2 <= base <= 16,
    ensures
        writes_number(digits(n, base), n as int, base as int),
        n > 0 ==> digits(n, base)[0] != '0',
    decreases n,
{
    let text = digits(n, base);
    reveal_with_fuel(number_value, 2);
    if n < base {
        assert(text =~= seq![digit_char(n)]);
        assert(text.drop_last() =~= seq![]);
        assert(number_value(text.drop_last(), base as int) * base == 0) by (nonlinear_arith)
            requires
                number_value(text.drop_last(), base as int) == 0,
        ;
    } else {
        let high = n / base;
        let low = n % base;
        assert(0 < high < n && 0 <= low < base && high * base + low == n) by (nonlinear_arith)
            requires
                n >= base,
                base >= 2,
                high == n / base,
                low == n % base,
        ;
        law_digits_write_number(high, base);
        let front = digits(high, base);
        assert(text =~= front.push(digit_char(low)));
        assert(text.drop_last() =~= front);
        assert(text[0] == front[0]);
        assert forall|k: int| 0 <= k < text.len() implies ('0' <= #[trigger] text[k] <= '9' || 'a'
            <= text[k] <= 'f') && digit_value(text[k]) < base by {
            if k < front.len() {
                assert(text[k] == front[k]);
            }
        }
    }
}

/// A text in decimal digits reads the same from the front: the first digit counts as many tens
/// as digits follow.
pub proof fn law_decimal_value_is_number(text: Seq<char>)
    requires
        forall|k: int| 0 <= k < text.len() ==> '0' <= #[trigger] text[k] <= '9',
    ensures
        decimal_value(text) == number_value(text, 10),
        all_decimal(text),
    decreases text.len(),
{
    if text.len() > 0 {
        assert('0' <= text[text.len() - 1] <= '9');
        law_decimal_value_is_number(text.drop_last());
    }
}

/// A 16-bit number is read back from its decimal digits, with any zeros and at most one plus sign
/// in front; a larger one is refused.
pub proof fn law_decimal_text_is_parsed(n: nat, zeros: nat, plus: bool)
    ensures
        ({
            let number = Seq::new(zeros, |k: int| '0') + digits(n, 10);
            let text = if plus {
                seq!['+'] + number
            } else {
                number
            };
            parsed_u16(text) == if n <= 0xFFFF {
                Some(n as u16)
            } else {
                None::<u16>
            }
        }),
{
    let number = Seq::new(zeros, |k: int| '0') + digits(n, 10);
    let text = if plus {
        seq!['+'] + number
    } else {
        number
    };
    lemma_decimal_round_trip(n);
    lemma_leading_zeros(n, zeros);
    assert(is_decimal_digit(number[0]));
    assert(without_plus(text) =~= number);
}

proof fn lemma_leading_zeros(n: nat, zeros: nat)
    ensures
        ({
            let number = Seq::new(zeros, |k: int| '0') + digits(n, 10);
            &&& number.len() > 0
            &&& all_decimal(number)
            &&& decimal_value(number) == n
        }),
    decreases n,
{
    let front = Seq::new(zeros, |k: int| '0');
    let number = front + digits(n, 10);
    lemma_decimal_round_trip(n);
    assert forall|k: int| 0 <= k < number.len() implies is_decimal_digit(#[trigger] number[k]) by {
        if k >= zeros {
            assert(number[k] == digits(n, 10)[k - zeros]);
        }
    }
    if n < 10 {
        lemma_zeros_are_nothing(zeros);
        assert(number.drop_last() =~= front);
    } else {
        lemma_leading_zeros(n / 10, zeros);
        assert(number.drop_last() =~= front + digits(n / 10, 10));
    }
}

proof fn lemma_zeros_are_nothing(zeros: nat)
    ensures
        decimal_value(Seq::new(zeros, |k: int| '0')) == 0,
    decreases zeros,
{
    if zeros > 0 {
        let front = Seq::new(zeros, |k: int| '0');
        lemma_zeros_are_nothing((zeros - 1) as nat);
        assert(front.drop_last() =~= Seq::new((zeros - 1) as nat, |k: int| '0'));
    }
}

/// A text that is empty, or has anything but decimal digits behind at most one plus sign, is no
/// number.
pub proof fn law_other_text_is_not_parsed(text: Seq<char>, at: int)
    requires
        text.len() == 0 || (text.len() == 1 && text[0] == '+') || {
            &&& 0 <= at < text.len()
            &&& !('0' <= text[at] <= '9')
            &&& !(at == 0 && text[at] == '+')
        },
    ensures
        parsed_u16(text) is None,
{
    let number = without_plus(text);
    if number.len() > 0 && all_decimal(number) {
        let k = if text[0] == '+' {
            at - 1
        } else {
            at
        };
        assert(number[k] == text[at]);
        assert(is_decimal_digit(number[k]));
    }
}

/// Appends `n` in digits to the given base.
pub fn put_number(out: &mut String, n: u16, base: u16)
    requires
        2 <= base <= 16,
    ensures
        final(out)@ == old(out)@ + digits(n as nat, base as nat),
    decreases n,
{
    if n >= base {
        assert(n / base < n) by (nonlinear_arith)
            requires
                n >= base,
                base >= 2,
        ;
        put_number(out, n / base, base);
    }
    assert(0 <= n % base < base) by (nonlinear_arith)
        requires
            base >= 2,
    ;
    assert(n < base ==> n % base == n) by (nonlinear_arith)
        requires
            base >= 2,
    ;
    let d: u8 = (n % base) as u8;
    let c: char = if d < 10 {
        (48 + d) as char
    } else {
        (87 + d) as char
    };
    out.push(c);
    assert(c == digit_char((n as nat) % (base as nat)));
    assert(out@ =~= old(out)@ + digits(n as nat, base as nat));
}

/// The number that `text` writes in decimal, if it does so and the number fits 16 bits.
pub fn parse_u16(text: &str) -> (number: Option<u16>)
    ensures
        number == parsed_u16(text@),
{
    let chars = chars_of(text);
    let len: usize = chars.len();
    let start: usize = if len > 0 && chars[0] == '+' {
        1
    } else {
        0
    };
    let ghost number = without_plus(text@);
    assert(number =~= chars@.skip(start as int));
    if start == len {
        return None;
    }
    let mut value: u32 = 0;
    let mut at: usize = start;
    assert(number.take(0) =~= seq![]);
    while at < len
        invariant
            start <= at <= len,
            len == chars@.len(),
            number == chars@.skip(start as int),
            number == without_plus(text@),
            value <= 0xFFFF,
            all_decimal(number.take(at - start)),
            value == decimal_value(number.take(at - start)),
        decreases len - at,
    {
        let c: char = chars[at];
        let ghost k = at - start;
        assert(number[k] == c);
        if !('0' <= c && c <= '9') {
            assert(!is_decimal_digit(number[k]));
            return None;
        }
        let ghost next = number.take(k + 1);
        proof {
            assert(next.drop_last() =~= number.take(k));
            assert(next.last() == c);
            assert forall|j: int| 0 <= j < next.len() implies is_decimal_digit(
                #[trigger] next[j],
            ) by {
                if j < k {
                    assert(next[j] == number.take(k)[j]);
                }
            }
        }
        value = value * 10 + (c as u32 - 48);
        if value > 0xFFFF {
            proof {
                if all_decimal(number) {
                    lemma_decimal_value_grows(number, k + 1);
                }
            }
            return None;
        }
        at = at + 1;
    }
    assert(number.take(len - start) =~= number);
    Some(value as u16)
}

} // verus!
