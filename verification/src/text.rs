//! Byte offsets into UTF-8 text, and the grapheme cluster boundaries among them.
//!
//! Cursor positions are byte offsets into a line's text. This module says
//! which offsets a cursor may take (the grapheme cluster boundaries), how to
//! move between them, and how text is cut and joined at such offsets.

use unicode_segmentation::UnicodeSegmentation;
use vstd::prelude::*;
use vstd::string::StringSliceAdditionalSpecFns;
use vstd::string::StringExecFns;
use vstd::utf8::*;

verus! {

/// The length of `text` in bytes, once encoded as UTF-8.
pub open spec fn byte_len(text: Seq<char>) -> nat {
    encode_utf8(text).len()
}

/// True when byte offset `i` of `text` lies between two characters, or at either end.
pub open spec fn on_char_boundary(text: Seq<char>, i: int) -> bool {
    0 <= i <= byte_len(text) && is_char_boundary(encode_utf8(text), i)
}

/// The characters of `text` that are encoded before byte offset `i`.
pub open spec fn text_before(text: Seq<char>, i: int) -> Seq<char> {
    decode_utf8(encode_utf8(text).subrange(0, i))
}

/// The characters of `text` that are encoded from byte offset `i` on.
pub open spec fn text_from(text: Seq<char>, i: int) -> Seq<char> {
    decode_utf8(encode_utf8(text).subrange(i, byte_len(text) as int))
}

/// The characters of `text` that are encoded in the bytes `[from, to)`.
pub open spec fn text_between(text: Seq<char>, from: int, to: int) -> Seq<char> {
    decode_utf8(encode_utf8(text).subrange(from, to))
}

/// The encoding of a concatenation is the concatenation of the encodings.
pub proof fn lemma_encode_concat(a: Seq<char>, b: Seq<char>)
    ensures
        encode_utf8(a + b) == encode_utf8(a) + encode_utf8(b),
        byte_len(a + b) == byte_len(a) + byte_len(b),
    decreases a.len(),
{
    if a.len() == 0 {
        assert(a + b =~= b);
        assert(encode_utf8(a) + encode_utf8(b) =~= encode_utf8(b));
    } else {
        lemma_encode_concat(a.drop_first(), b);
        assert((a + b).drop_first() =~= a.drop_first() + b);
        assert((a + b)[0] == a[0]);
        assert(encode_utf8(a + b) =~= encode_scalar(a[0] as u32) + encode_utf8(
            a.drop_first() + b,
        ));
        assert(encode_utf8(a + b) =~= encode_utf8(a) + encode_utf8(b));
    }
}

/// In valid UTF-8, an offset is a character boundary exactly when it is the end
/// or the byte that it points at does not continue a character.
pub proof fn lemma_char_boundary_by_byte(bytes: Seq<u8>, i: int)
    requires
        valid_utf8(bytes),
    ensures
        is_char_boundary(bytes, i) <==> 0 <= i <= bytes.len() && (i == bytes.len()
            || !is_continuation_byte(bytes[i])),
{
    if 0 <= i < bytes.len() {
        is_char_boundary_iff_not_is_continuation_byte(bytes, i);
    } else if i == bytes.len() {
        is_char_boundary_start_end_of_seq(bytes);
    } else {
    }
}

/// The character boundaries of a concatenation are those of its two parts.
pub proof fn lemma_boundary_in_concat(a: Seq<char>, b: Seq<char>, i: int)
    ensures
        i <= byte_len(a) ==> (on_char_boundary(a + b, i) <==> on_char_boundary(a, i)),
        i >= byte_len(a) ==> (on_char_boundary(a + b, i) <==> on_char_boundary(
            b,
            i - byte_len(a),
        )),
{
    let ea = encode_utf8(a);
    let eb = encode_utf8(b);
    let eab = encode_utf8(a + b);
    lemma_encode_concat(a, b);
    encode_utf8_valid_utf8(a);
    encode_utf8_valid_utf8(b);
    encode_utf8_valid_utf8(a + b);
    lemma_char_boundary_by_byte(ea, i);
    lemma_char_boundary_by_byte(eb, i - ea.len());
    lemma_char_boundary_by_byte(eab, i);
    if eb.len() > 0 {
        lemma_char_boundary_by_byte(eb, 0);
    }
}

/// Cutting text at a character boundary and joining the two parts gives the text back.
pub proof fn lemma_split_join(text: Seq<char>, i: int)
    requires
        on_char_boundary(text, i),
    ensures
        text_before(text, i) + text_from(text, i) == text,
        encode_utf8(text_before(text, i)) == encode_utf8(text).subrange(0, i),
        encode_utf8(text_from(text, i)) == encode_utf8(text).subrange(i, byte_len(text) as int),
        byte_len(text_before(text, i)) == i,
        byte_len(text_from(text, i)) == byte_len(text) - i,
{
    let bytes = encode_utf8(text);
    encode_utf8_valid_utf8(text);
    valid_utf8_split(bytes, i);
    decode_utf8_split(bytes, i);
    encode_utf8_decode_utf8(text);
    decode_utf8_encode_utf8(bytes.subrange(0, i));
    decode_utf8_encode_utf8(bytes.subrange(i, bytes.len() as int));
}

/// Cutting a concatenation where its two parts meet gives the two parts back.
pub proof fn lemma_join_split(a: Seq<char>, b: Seq<char>)
    ensures
        on_char_boundary(a + b, byte_len(a) as int),
        text_before(a + b, byte_len(a) as int) == a,
        text_from(a + b, byte_len(a) as int) == b,
{
    let n = byte_len(a) as int;
    lemma_encode_concat(a, b);
    lemma_boundary_in_concat(a, b, n);
    encode_utf8_valid_utf8(a);
    is_char_boundary_start_end_of_seq(encode_utf8(a));
    assert(encode_utf8(a + b).subrange(0, n) =~= encode_utf8(a));
    assert(encode_utf8(a + b).subrange(n, byte_len(a + b) as int) =~= encode_utf8(b));
    encode_utf8_decode_utf8(a);
    encode_utf8_decode_utf8(b);
}

/// Cutting text at two character boundaries gives three parts that join to the text.
pub proof fn lemma_split_twice(text: Seq<char>, i: int, j: int)
    requires
        on_char_boundary(text, i),
        on_char_boundary(text, j),
        i <= j,
    ensures
        on_char_boundary(text_before(text, j), i),
        text_before(text_before(text, j), i) == text_before(text, i),
        text_from(text_before(text, j), i) == text_between(text, i, j),
        on_char_boundary(text_from(text, i), j - i),
        text_before(text_from(text, i), j - i) == text_between(text, i, j),
        text_from(text_from(text, i), j - i) == text_from(text, j),
        byte_len(text_between(text, i, j)) == j - i,
        encode_utf8(text_between(text, i, j)) == encode_utf8(text).subrange(i, j),
{
    let bytes = encode_utf8(text);
    let n = bytes.len() as int;
    lemma_split_join(text, i);
    lemma_split_join(text, j);
    lemma_boundary_in_concat(text_before(text, j), text_from(text, j), i);
    lemma_boundary_in_concat(text_before(text, i), text_from(text, i), j);
    assert(bytes.subrange(0, j).subrange(0, i) =~= bytes.subrange(0, i));
    assert(bytes.subrange(0, j).subrange(i, j) =~= bytes.subrange(i, j));
    assert(bytes.subrange(i, n).subrange(0, j - i) =~= bytes.subrange(i, j));
    assert(bytes.subrange(i, n).subrange(j - i, n - i) =~= bytes.subrange(j, n));
    lemma_split_join(text_before(text, j), i);
}

/// Calls `String::push`, which appends the character to the end of the string.
#[verifier::external_body]
fn string_push(text: &mut String, c: char)
    ensures
        final(text)@ == old(text)@.push(c),
{
    text.push(c)
}

/// Cuts `text` at byte offset `at`: `text` keeps what lies before, and what
/// lies from there on is returned.
pub fn split_text(text: &mut String, at: usize) -> (tail: String)
    requires
        on_char_boundary(old(text)@, at as int),
    ensures
        final(text)@ == text_before(old(text)@, at as int),
        tail@ == text_from(old(text)@, at as int),
{
    let (before, from) = text.as_str().split_at(at);
    let head = before.to_owned();
    let tail = from.to_owned();
    proof {
        encode_utf8_decode_utf8(head@);
        encode_utf8_decode_utf8(tail@);
    }
    *text = head;
    tail
}

/// Appends `tail` to `text`.
pub fn join_text(text: &mut String, tail: &str)
    ensures
        final(text)@ == old(text)@ + tail@,
        byte_len(final(text)@) == byte_len(old(text)@) + byte_len(tail@),
{
    proof {
        lemma_encode_concat(text@, tail@);
    }
    text.append(tail);
}

/// The text that holds the one character `c`.
pub fn char_text(c: char) -> (text: String)
    ensures
        text@ == seq![c],
{
    let mut text = String::new();
    string_push(&mut text, c);
    assert(text@ =~= seq![c]);
    text
}

/// The byte offsets at which the extended grapheme clusters of `text` start, in
/// the order in which the segmentation of `text` yields them.
pub uninterp spec fn grapheme_starts(text: Seq<char>) -> Seq<usize>;

/// True for a text of printable ASCII characters, U+0020 to U+007E.
pub open spec fn is_plain(text: Seq<char>) -> bool {
    forall|k: int| 0 <= k < text.len() ==> ' ' <= #[trigger] text[k] <= '~'
}

/// The offsets from zero up to `n`, without `n`.
pub open spec fn offsets(n: int) -> Seq<usize> {
    Seq::new(n as nat, |k: int| k as usize)
}

/// True when the segmentation of `text` is known as far as the text is
/// plain: in a text of printable ASCII characters every character is a
/// grapheme cluster of its own.
pub open spec fn segmented(text: Seq<char>) -> bool {
    is_plain(text) ==> grapheme_starts(text) == offsets(text.len() as int)
}

/// Calls `UnicodeSegmentation::grapheme_indices` for extended clusters and
/// keeps the offset of each cluster; the result is what [`grapheme_starts`]
/// names. Of the offsets one thing is claimed: in a text of printable ASCII
/// characters a cluster starts at every byte. The segmentation gives each
/// character from U+0020 to U+007E the same category, and breaks between any
/// two characters of that category.
#[verifier::external_body]
fn grapheme_offsets(text: &str) -> (starts: Vec<usize>)
    ensures
        starts@ == grapheme_starts(text@),
        is_plain(text@) ==> starts@ == offsets(text@.len() as int),
{
    text.grapheme_indices(true).map(|(i, _)| i).collect()
}

/// Offset zero, followed by those of `starts` that lie on a character boundary
/// of the text encoded as `bytes`, after the offset kept last and before the end.
pub open spec fn kept_starts(starts: Seq<usize>, bytes: Seq<u8>) -> Seq<usize>
    decreases starts.len(),
{
    if starts.len() == 0 {
        seq![0usize]
    } else {
        let kept = kept_starts(starts.drop_last(), bytes);
        let s = starts.last();
        if kept.last() < s && s < bytes.len() && is_char_boundary(bytes, s as int) {
            kept.push(s)
        } else {
            kept
        }
    }
}

/// The grapheme cluster boundaries of `text` in increasing order, where
/// `starts` are the offsets at which its grapheme clusters start: zero, the
/// starts that are kept, and the end of the text.
pub open spec fn boundaries_in(starts: Seq<usize>, text: Seq<char>) -> Seq<usize> {
    let bytes = encode_utf8(text);
    let kept = kept_starts(starts, bytes);
    if bytes.len() > 0 {
        kept.push(bytes.len() as usize)
    } else {
        kept
    }
}

/// The grapheme cluster boundaries of `text` in increasing order: the start of
/// each cluster, and the end of the text.
pub open spec fn boundaries(text: Seq<char>) -> Seq<usize> {
    boundaries_in(grapheme_starts(text), text)
}

/// True for a sequence of offsets that starts at zero, increases strictly and
/// ends at `len`.
pub open spec fn is_break_list(b: Seq<usize>, len: int) -> bool {
    &&& b.len() > 0
    &&& b[0] == 0
    &&& b.last() == len
    &&& forall|j: int, k: int| 0 <= j < k < b.len() ==> b[j] < b[k]
}

/// True when byte offset `i` is a grapheme cluster boundary of `text`.
pub open spec fn is_boundary(text: Seq<char>, i: int) -> bool {
    exists|k: int| 0 <= k < boundaries(text).len() && #[trigger] boundaries(text)[k] == i
}

/// The last offset of `b` that is at most `i`, or zero where there is none.
pub open spec fn last_at_most(b: Seq<usize>, i: int) -> int
    decreases b.len(),
{
    if b.len() == 0 {
        0
    } else if b.last() <= i {
        b.last() as int
    } else {
        last_at_most(b.drop_last(), i)
    }
}

/// The first offset of `b` that is greater than `i`, or `i` where there is none.
pub open spec fn first_above(b: Seq<usize>, i: int) -> int
    decreases b.len(),
{
    if b.len() == 0 {
        i
    } else if b[0] > i {
        b[0] as int
    } else {
        first_above(b.drop_first(), i)
    }
}

/// The nearest grapheme cluster boundary of `text` at or before offset `i`.
pub open spec fn floor_boundary(text: Seq<char>, i: int) -> int {
    last_at_most(boundaries(text), i)
}

/// The nearest grapheme cluster boundary of `text` before offset `i`.
pub open spec fn prev_boundary(text: Seq<char>, i: int) -> int {
    last_at_most(boundaries(text), i - 1)
}

/// The nearest grapheme cluster boundary of `text` after offset `i`.
pub open spec fn next_boundary(text: Seq<char>, i: int) -> int {
    first_above(boundaries(text), i)
}

proof fn lemma_kept_starts(starts: Seq<usize>, bytes: Seq<u8>)
    requires
        valid_utf8(bytes),
    ensures
        ({
            let kept = kept_starts(starts, bytes);
            &&& kept.len() > 0
            &&& kept[0] == 0
            &&& forall|j: int, k: int| 0 <= j < k < kept.len() ==> kept[j] < kept[k]
            &&& forall|k: int|
                0 <= k < kept.len() ==> kept[k] <= bytes.len() && is_char_boundary(
                    bytes,
                    #[trigger] kept[k] as int,
                )
            &&& forall|k: int| 0 < k < kept.len() ==> #[trigger] kept[k] < bytes.len()
        }),
    decreases starts.len(),
{
    if starts.len() > 0 {
        lemma_kept_starts(starts.drop_last(), bytes);
    }
}

/// Boundaries start at zero, increase strictly, end at the text's length and
/// lie on character boundaries, whatever the starts of the clusters are.
pub proof fn lemma_break_list(starts: Seq<usize>, text: Seq<char>)
    requires
        byte_len(text) <= usize::MAX,
    ensures
        is_break_list(boundaries_in(starts, text), byte_len(text) as int),
        forall|k: int|
            0 <= k < boundaries_in(starts, text).len() ==> on_char_boundary(
                text,
                #[trigger] boundaries_in(starts, text)[k] as int,
            ),
{
    let bytes = encode_utf8(text);
    let b = boundaries_in(starts, text);
    encode_utf8_valid_utf8(text);
    lemma_kept_starts(starts, bytes);
    is_char_boundary_start_end_of_seq(bytes);
    assert(b[0] == 0);
    assert(b[b.len() - 1] == bytes.len());
}

/// The boundaries of a text start at zero, increase strictly, end at the
/// text's length and lie on character boundaries.
pub proof fn lemma_boundaries(text: Seq<char>)
    requires
        byte_len(text) <= usize::MAX,
    ensures
        is_break_list(boundaries(text), byte_len(text) as int),
        forall|k: int|
            0 <= k < boundaries(text).len() ==> on_char_boundary(
                text,
                #[trigger] boundaries(text)[k] as int,
            ),
        is_boundary(text, 0),
        is_boundary(text, byte_len(text) as int),
{
    let b = boundaries(text);
    lemma_break_list(grapheme_starts(text), text);
    assert(b[0] == 0);
    assert(b[b.len() - 1] == byte_len(text));
}

/// A boundary lies within the text, on a character boundary.
pub proof fn lemma_boundary_in_text(text: Seq<char>, i: int)
    requires
        byte_len(text) <= usize::MAX,
        is_boundary(text, i),
    ensures
        on_char_boundary(text, i),
{
    lemma_boundaries(text);
}

/// In an increasing list, the offset at `j` is the last one at most `i` when
/// it is at most `i` and its successor, if any, is not.
pub proof fn lemma_last_at_most(b: Seq<usize>, i: int, j: int)
    requires
        forall|p: int, q: int| 0 <= p < q < b.len() ==> b[p] < b[q],
        0 <= j < b.len(),
        b[j] <= i,
        j + 1 < b.len() ==> b[j + 1] > i,
    ensures
        last_at_most(b, i) == b[j],
    decreases b.len(),
{
    if j + 1 < b.len() {
        assert(b[j + 1] <= b.last());
        lemma_last_at_most(b.drop_last(), i, j);
    }
}

/// In an increasing list, the offset at `j` is the first one above `i` when
/// it is above `i` and its predecessor, if any, is not.
pub proof fn lemma_first_above(b: Seq<usize>, i: int, j: int)
    requires
        forall|p: int, q: int| 0 <= p < q < b.len() ==> b[p] < b[q],
        0 <= j < b.len(),
        b[j] > i,
        j > 0 ==> b[j - 1] <= i,
    ensures
        first_above(b, i) == b[j],
    decreases b.len(),
{
    if j > 0 {
        assert(b[0] <= b[j - 1]);
        let rest = b.drop_first();
        assert(forall|p: int| 0 <= p < rest.len() ==> rest[p] == b[p + 1]);
        lemma_first_above(rest, i, j - 1);
    }
}

/// The boundary at or before an offset is a boundary, is at most the offset,
/// and no boundary lies between the two. A boundary is its own.
pub proof fn lemma_floor_boundary(text: Seq<char>, i: int)
    requires
        byte_len(text) <= usize::MAX,
        0 <= i,
    ensures
        is_boundary(text, floor_boundary(text, i)),
        0 <= floor_boundary(text, i) <= i,
        floor_boundary(text, i) <= byte_len(text),
        forall|j: int| floor_boundary(text, i) < j <= i ==> !is_boundary(text, j),
        is_boundary(text, i) ==> floor_boundary(text, i) == i,
{
    let b = boundaries(text);
    lemma_boundaries(text);
    let k = lemma_last_at_most_index(b, i);
    assert forall|j: int| floor_boundary(text, i) < j <= i implies !is_boundary(text, j) by {
        if is_boundary(text, j) {
            let m = choose|m: int| 0 <= m < b.len() && #[trigger] b[m] == j;
            if m <= k {
                assert(m == k || b[m] < b[k]);
            } else {
                assert(k + 1 == m || b[k + 1] < b[m]);
            }
        }
    }
}

/// The index in an increasing list that starts at zero of the last offset at most `i`.
proof fn lemma_last_at_most_index(b: Seq<usize>, i: int) -> (k: int)
    requires
        b.len() > 0,
        b[0] == 0,
        0 <= i,
        forall|p: int, q: int| 0 <= p < q < b.len() ==> b[p] < b[q],
    ensures
        0 <= k < b.len(),
        b[k] == last_at_most(b, i),
        b[k] <= i,
        k + 1 < b.len() ==> b[k + 1] > i,
    decreases b.len(),
{
    if b.last() <= i {
        b.len() - 1
    } else {
        let rest = b.drop_last();
        assert(rest.len() > 0);
        lemma_last_at_most_index(rest, i)
    }
}

/// The boundary before a positive offset is a boundary, lies before the
/// offset, and no boundary lies between the two.
pub proof fn lemma_prev_boundary(text: Seq<char>, i: int)
    requires
        byte_len(text) <= usize::MAX,
        0 < i,
    ensures
        is_boundary(text, prev_boundary(text, i)),
        0 <= prev_boundary(text, i) < i,
        prev_boundary(text, i) <= byte_len(text),
        forall|j: int| prev_boundary(text, i) < j < i ==> !is_boundary(text, j),
{
    lemma_floor_boundary(text, i - 1);
}

/// The boundary after an offset before the end is a boundary, lies after the
/// offset, and no boundary lies between the two.
pub proof fn lemma_next_boundary(text: Seq<char>, i: int)
    requires
        byte_len(text) <= usize::MAX,
        0 <= i < byte_len(text),
    ensures
        is_boundary(text, next_boundary(text, i)),
        i < next_boundary(text, i) <= byte_len(text),
        forall|j: int| i < j < next_boundary(text, i) ==> !is_boundary(text, j),
{
    let b = boundaries(text);
    lemma_boundaries(text);
    let k = lemma_last_at_most_index(b, i);
    assert(k + 1 < b.len()) by {
        if k + 1 >= b.len() {
            assert(b[k] == b.last());
        }
    }
    lemma_first_above(b, i, k + 1);
    assert forall|j: int| i < j < next_boundary(text, i) implies !is_boundary(text, j) by {
        if is_boundary(text, j) {
            let m = choose|m: int| 0 <= m < b.len() && #[trigger] b[m] == j;
            if m <= k {
                assert(m == k || b[m] < b[k]);
            } else {
                assert(k + 1 == m || b[k + 1] < b[m]);
            }
        }
    }
}

/// Kept of the offsets up to `m` are those offsets, where `m` is at least
/// one and every offset lies on a character boundary before the end.
proof fn lemma_kept_offsets(m: int, bytes: Seq<u8>)
    requires
        1 <= m <= bytes.len(),
        m <= usize::MAX,
        forall|k: int| 0 <= k < m ==> is_char_boundary(bytes, k),
    ensures
        kept_starts(offsets(m), bytes) == offsets(m),
    decreases m,
{
    assert(offsets(m).drop_last() =~= offsets(m - 1));
    assert(offsets(m).last() == (m - 1) as usize);
    if m == 1 {
        assert(kept_starts(offsets(0), bytes) =~= seq![0usize]);
        assert(offsets(1) =~= seq![0usize]);
    } else {
        lemma_kept_offsets(m - 1, bytes);
        assert(offsets(m - 1).last() == (m - 2) as usize);
        assert(offsets(m - 1).push((m - 1) as usize) =~= offsets(m));
    }
}

/// In a text of printable ASCII characters whose segmentation is known, every
/// byte offset up to the length is a grapheme cluster boundary, and the text
/// has as many bytes as characters: the boundary at or before an offset is the
/// offset, the boundary before it is one less, the boundary after it one more.
pub proof fn lemma_plain_boundaries(text: Seq<char>)
    requires
        is_plain(text),
        segmented(text),
        byte_len(text) <= usize::MAX,
    ensures
        byte_len(text) == text.len(),
        boundaries(text) == offsets(text.len() as int + 1),
        forall|i: int| 0 <= i <= text.len() ==> is_boundary(text, i),
        forall|i: int| 0 <= i <= text.len() ==> floor_boundary(text, i) == i,
        forall|i: int| 0 < i <= text.len() ==> prev_boundary(text, i) == i - 1,
        forall|i: int| 0 <= i < text.len() ==> next_boundary(text, i) == i + 1,
{
    let n = text.len() as int;
    let bytes = encode_utf8(text);
    assert(is_ascii_chars(text)) by {
        assert forall|k: int| 0 <= k < text.len() implies '\0' <= #[trigger] text[k]
            <= '\u{7f}' by {
            assert(' ' <= text[k] <= '~');
        }
    }
    is_ascii_chars_encode_utf8(text);
    encode_utf8_valid_utf8(text);
    assert forall|k: int| 0 <= k <= n implies is_char_boundary(bytes, k) by {
        lemma_char_boundary_by_byte(bytes, k);
        if k < n {
            assert(bytes[k] == text[k] as u8);
            assert(' ' <= text[k] <= '~');
        }
    }
    if n > 0 {
        lemma_kept_offsets(n, bytes);
        assert(offsets(n).push(n as usize) =~= offsets(n + 1));
    } else {
        assert(kept_starts(offsets(0), bytes) =~= seq![0usize]);
        assert(offsets(1) =~= seq![0usize]);
    }
    let b = boundaries(text);
    assert(b == offsets(n + 1));
    assert forall|i: int| 0 <= i <= n implies is_boundary(text, i) by {
        assert(b[i] == i);
    }
    assert forall|i: int| 0 <= i <= n implies floor_boundary(text, i) == i by {
        lemma_floor_boundary(text, i);
    }
    assert forall|i: int| 0 < i <= n implies prev_boundary(text, i) == i - 1 by {
        lemma_prev_boundary(text, i);
        assert(is_boundary(text, i - 1));
    }
    assert forall|i: int| 0 <= i < n implies next_boundary(text, i) == i + 1 by {
        lemma_next_boundary(text, i);
        assert(is_boundary(text, i + 1));
    }
}

/// The length of `text` in bytes.
pub fn text_len(text: &str) -> (n: usize)
    ensures
        n == byte_len(text@),
{
    text.as_bytes().len()
}

/// The grapheme cluster boundaries of `text`, in increasing order.
pub fn boundaries_of(text: &str) -> (b: Vec<usize>)
    ensures
        b@ == boundaries(text@),
        is_break_list(b@, byte_len(text@) as int),
        segmented(text@),
{
    let starts = grapheme_offsets(text);
    boundaries_from(&starts, text)
}

/// The grapheme cluster boundaries of `text`, in increasing order, where
/// `starts` are the offsets at which its grapheme clusters start. A start is
/// kept only if it lies on a character boundary, after the start kept last
/// and before the end of the text; so the boundaries begin with zero, increase
/// strictly, and end with the length of the text, whatever the starts are.
pub fn boundaries_from(starts: &Vec<usize>, text: &str) -> (b: Vec<usize>)
    ensures
        b@ == boundaries_in(starts@, text@),
        is_break_list(b@, byte_len(text@) as int),
{
    let len = text_len(text);
    let ghost bytes = encode_utf8(text@);
    let mut b: Vec<usize> = Vec::new();
    b.push(0);
    let mut last: usize = 0;
    let mut i: usize = 0;
    assert(starts@.take(0) =~= Seq::<usize>::empty());
    while i < starts.len()
        invariant
            i <= starts@.len(),
            bytes == text.spec_bytes(),
            len == bytes.len(),
            b@ == kept_starts(starts@.take(i as int), bytes),
            b@.len() > 0,
            last == b@.last(),
        decreases starts@.len() - i,
    {
        let s = starts[i];
        assert(starts@.take(i + 1).drop_last() =~= starts@.take(i as int));
        assert(starts@.take(i + 1).last() == s);
        if last < s && s < len && text.is_char_boundary(s) {
            b.push(s);
            last = s;
        }
        i += 1;
    }
    assert(starts@.take(i as int) =~= starts@);
    if len > 0 {
        b.push(len);
    }
    proof {
        lemma_break_list(starts@, text@);
    }
    b
}

/// The index in `b` of the last offset that is at most `i`.
pub fn floor_index(b: &Vec<usize>, i: usize) -> (k: usize)
    requires
        b@.len() > 0,
        b@[0] == 0,
        forall|p: int, q: int| 0 <= p < q < b@.len() ==> b@[p] < b@[q],
    ensures
        k < b@.len(),
        b@[k as int] == last_at_most(b@, i as int),
        b@[k as int] <= i,
        k + 1 < b@.len() ==> b@[k + 1] > i,
{
    let n = b.len();
    let mut k: usize = 0;
    while k + 1 < n && b[k + 1] <= i
        invariant
            n == b@.len(),
            k < b@.len(),
            b@[k as int] <= i,
            forall|p: int, q: int| 0 <= p < q < b@.len() ==> b@[p] < b@[q],
        decreases b@.len() - k,
    {
        k += 1;
    }
    proof {
        lemma_last_at_most(b@, i as int, k as int);
    }
    k
}

/// The nearest grapheme cluster boundary of `text` at or before offset `i`.
pub fn snap_to_boundary(text: &str, i: usize) -> (r: usize)
    ensures
        r == floor_boundary(text@, i as int),
        is_boundary(text@, r as int),
        r <= i,
        r <= byte_len(text@),
        is_boundary(text@, i as int) ==> r == i,
        segmented(text@),
{
    let b = boundaries_of(text);
    let k = floor_index(&b, i);
    proof {
        lemma_floor_boundary(text@, i as int);
    }
    b[k]
}

/// The nearest grapheme cluster boundary of `text` before offset `i`; zero for
/// offset zero.
pub fn boundary_before(text: &str, i: usize) -> (r: usize)
    ensures
        i > 0 ==> r == prev_boundary(text@, i as int) && r < i,
        i == 0 ==> r == 0,
        is_boundary(text@, r as int),
        r <= byte_len(text@),
        segmented(text@),
{
    let b = boundaries_of(text);
    if i == 0 {
        proof {
            lemma_boundaries(text@);
        }
        return 0;
    }
    let k = floor_index(&b, i - 1);
    proof {
        lemma_prev_boundary(text@, i as int);
    }
    b[k]
}

/// The nearest grapheme cluster boundary of `text` after offset `i`; the end of
/// the text where `i` is at or past it.
pub fn boundary_after(text: &str, i: usize) -> (r: usize)
    ensures
        i < byte_len(text@) ==> r == next_boundary(text@, i as int) && i < r,
        i >= byte_len(text@) ==> r == byte_len(text@),
        is_boundary(text@, r as int),
        r <= byte_len(text@),
        segmented(text@),
{
    let b = boundaries_of(text);
    let len = text_len(text);
    proof {
        lemma_boundaries(text@);
    }
    if i >= len {
        return len;
    }
    let k = floor_index(&b, i);
    proof {
        lemma_next_boundary(text@, i as int);
        if k + 1 >= b@.len() {
            assert(b@[k as int] == b@.last());
        }
        lemma_first_above(b@, i as int, k + 1);
    }
    let n = b.len();
    assert(k + 1 < n);
    b[k + 1]
}

/// Tells whether offset `i` is a grapheme cluster boundary of `text`.
pub fn is_boundary_of(text: &str, i: usize) -> (r: bool)
    ensures
        r == is_boundary(text@, i as int),
        segmented(text@),
{
    let b = boundaries_of(text);
    let k = floor_index(&b, i);
    proof {
        lemma_floor_boundary(text@, i as int);
    }
    b[k] == i
}

} // verus!

verus! {

/// The offset of the first newline byte at or after offset `from`, or the
/// number of bytes where there is none.
pub open spec fn newline_from(bytes: Seq<u8>, from: int) -> int
    decreases bytes.len() - from,
{
    if from < 0 || from >= bytes.len() {
        bytes.len() as int
    } else if bytes[from] == 0x0A {
        from
    } else {
        newline_from(bytes, from + 1)
    }
}

/// Where the line that starts at `start` ends when the next newline is at
/// `newline`: before the newline, and before a carriage return in front of it.
pub open spec fn line_end(bytes: Seq<u8>, start: int, newline: int) -> int {
    if start < newline < bytes.len() && bytes[newline - 1] == 0x0D {
        newline - 1
    } else {
        newline
    }
}

/// The byte ranges of the lines that start at or after offset `from`. Lines
/// end at a newline, or a carriage return and a newline, or at the end of
/// the text; nothing follows a newline at the end of the text.
pub open spec fn line_ranges(bytes: Seq<u8>, from: int) -> Seq<(int, int)>
    decreases bytes.len() - from,
{
    if from < 0 || from >= bytes.len() {
        Seq::empty()
    } else {
        let newline = newline_from(bytes, from);
        let rest = if from <= newline < bytes.len() {
            line_ranges(bytes, newline + 1)
        } else {
            Seq::empty()
        };
        seq![(from, line_end(bytes, from, newline))] + rest
    }
}

/// The lines of `text`, without their line endings.
pub open spec fn text_lines(text: Seq<char>) -> Seq<Seq<char>> {
    let ranges = line_ranges(encode_utf8(text), 0);
    Seq::new(ranges.len(), |k: int| text_between(text, ranges[k].0, ranges[k].1))
}

proof fn lemma_newline_from(bytes: Seq<u8>, from: int)
    requires
        0 <= from <= bytes.len(),
    ensures
        from <= newline_from(bytes, from) <= bytes.len(),
        newline_from(bytes, from) < bytes.len() ==> bytes[newline_from(bytes, from)] == 0x0A,
    decreases bytes.len() - from,
{
    if from < bytes.len() && bytes[from] != 0x0A {
        lemma_newline_from(bytes, from + 1);
    }
}

/// In valid UTF-8, a byte below 0x80 is a character of its own: the offsets
/// before and behind it are character boundaries.
proof fn lemma_around_ascii(bytes: Seq<u8>, i: int)
    requires
        valid_utf8(bytes),
        0 <= i < bytes.len(),
        bytes[i] < 0x80,
    ensures
        is_char_boundary(bytes, i),
        is_char_boundary(bytes, i + 1),
{
    lemma_char_boundary_by_byte(bytes, i);
    valid_utf8_split(bytes, i);
    let from = bytes.subrange(i, bytes.len() as int);
    assert(from[0] == bytes[i]);
    let rest = pop_first_scalar(from);
    assert(rest =~= bytes.subrange(i + 1, bytes.len() as int));
    if rest.len() > 0 {
        lemma_char_boundary_by_byte(rest, 0);
        assert(rest[0] == bytes[i + 1]);
    }
    lemma_char_boundary_by_byte(bytes, i + 1);
}

/// Split a text into its lines, without their line endings
pub fn split_lines(text: &str) -> (lines: Vec<String>)
    ensures
        lines@.len() == text_lines(text@).len(),
        forall|k: int| 0 <= k < lines@.len() ==> (#[trigger] lines@[k])@ == text_lines(text@)[k],
{
    let bytes = text.as_bytes();
    let n = bytes.len();
    let mut lines: Vec<String> = Vec::new();
    let ghost mut done: Seq<(int, int)> = Seq::empty();
    let mut from: usize = 0;
    proof {
        encode_utf8_valid_utf8(text@);
        is_char_boundary_start_end_of_seq(bytes@);
        assert(done + line_ranges(bytes@, 0) =~= line_ranges(bytes@, 0));
    }
    while from < n
        invariant
            from <= n,
            n == bytes@.len(),
            bytes@ == encode_utf8(text@),
            valid_utf8(bytes@),
            is_char_boundary(bytes@, from as int),
            line_ranges(bytes@, 0) == done + line_ranges(bytes@, from as int),
            lines@.len() == done.len(),
            forall|k: int|
                0 <= k < done.len() ==> (#[trigger] lines@[k])@ == text_between(
                    text@,
                    done[k].0,
                    done[k].1,
                ),
        decreases n - from,
    {
        let mut newline = from;
        while newline < n && bytes[newline] != 0x0A
            invariant
                from <= newline <= n,
                n == bytes@.len(),
                newline_from(bytes@, from as int) == newline_from(bytes@, newline as int),
            decreases n - newline,
        {
            newline += 1;
        }
        let end = if from < newline && newline < n && bytes[newline - 1] == 0x0D {
            newline - 1
        } else {
            newline
        };
        proof {
            if newline < n {
                lemma_around_ascii(bytes@, newline as int);
            } else {
                is_char_boundary_start_end_of_seq(bytes@);
            }
            if end < newline {
                lemma_around_ascii(bytes@, end as int);
            }
            valid_utf8_split(bytes@, end as int);
            lemma_char_boundary_by_byte(bytes@, from as int);
            lemma_char_boundary_by_byte(bytes@.subrange(0, end as int), from as int);
        }
        let (head, _) = text.split_at(end);
        let (_, piece) = head.split_at(from);
        let line = piece.to_owned();
        proof {
            assert(piece.spec_bytes() =~= bytes@.subrange(from as int, end as int));
            encode_utf8_decode_utf8(piece@);
            assert(line@ == text_between(text@, from as int, end as int));
        }
        let ghost seen = lines@;
        lines.push(line);
        proof {
            let range = (from as int, end as int);
            lemma_newline_from(bytes@, from as int);
            assert(line_ranges(bytes@, from as int) == seq![range] + line_ranges(
                bytes@,
                newline + 1,
            ));
            assert(done + (seq![range] + line_ranges(bytes@, newline + 1)) =~= done.push(range)
                + line_ranges(bytes@, newline + 1));
            done = done.push(range);
            assert forall|k: int| 0 <= k < done.len() implies (#[trigger] lines@[k])@
                == text_between(text@, done[k].0, done[k].1) by {
                if k < seen.len() {
                    assert(lines@[k] == seen[k]);
                }
            }
        }
        if newline < n {
            from = newline + 1;
        } else {
            proof {
                assert(line_ranges(bytes@, newline + 1) =~= line_ranges(bytes@, n as int));
            }
            from = n;
        }
    }
    proof {
        assert(done + line_ranges(bytes@, from as int) =~= done);
    }
    lines
}

} // verus!
