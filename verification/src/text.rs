//! Character positions and byte positions in UTF-8 text.
//!
//! A `String` is modelled by its characters (`Seq<char>`); its bytes are
//! `encode_utf8` of them. A cursor into the text is a byte position; the
//! functions here relate it to the number of characters before it.

use vstd::prelude::*;
use vstd::utf8::*;

verus! {

/// The number of bytes that the first `k` characters of `text` take in UTF-8.
pub open spec fn byte_offset(text: Seq<char>, k: int) -> int {
    encode_utf8(text.take(k)).len() as int
}

/// `index` is the byte position at which a character of `text` starts, or
/// the end of the text.
pub open spec fn on_char_boundary(text: Seq<char>, index: int) -> bool {
    exists|k: int| 0 <= k <= text.len() && #[trigger] byte_offset(text, k) == index
}

/// The number of characters of `text` before the byte position `index`,
/// which is a character boundary.
pub open spec fn char_index(text: Seq<char>, index: int) -> int {
    choose|k: int| 0 <= k <= text.len() && byte_offset(text, k) == index
}

/// A count lowered by `n`, and by no more than to zero.
pub open spec fn lowered(count: usize, n: int) -> usize {
    if count >= n {
        (count - n) as usize
    } else {
        0
    }
}

/// The start of the run of ASCII spaces that ends at character position `k`.
pub open spec fn space_run_start(text: Seq<char>, k: int) -> int
    decreases k,
{
    if 0 < k <= text.len() && text[k - 1] == ' ' {
        space_run_start(text, k - 1)
    } else {
        k
    }
}

/// The start of the run of characters other than the ASCII space that ends
/// at character position `k`.
pub open spec fn word_run_start(text: Seq<char>, k: int) -> int
    decreases k,
{
    if 0 < k <= text.len() && text[k - 1] != ' ' {
        word_run_start(text, k - 1)
    } else {
        k
    }
}

/// The character position one step from `k`, forward or backward; `None`
/// where the text ends.
pub open spec fn stepped(text: Seq<char>, k: int, forward: bool) -> Option<int> {
    if forward {
        if k < text.len() {
            Some(k + 1)
        } else {
            None
        }
    } else {
        if k > 0 {
            Some(k - 1)
        } else {
            None
        }
    }
}

/// Whether the character at position `k` is the ASCII space; `None` where
/// there is no character.
pub open spec fn space_at_position(text: Seq<char>, k: int) -> Option<bool> {
    if 0 <= k < text.len() {
        Some(text[k] == ' ')
    } else {
        None
    }
}

/// How far a cursor at `k` has to go to the end of the text in the given
/// direction.
pub open spec fn distance_to_end(text: Seq<char>, k: int, forward: bool) -> int {
    if forward {
        text.len() - k
    } else {
        k
    }
}

/// The first part of a word motion from position `k`: the cursor steps at
/// least once, if it can, and goes on while it stands on an ASCII space.
/// The result is where it stops, and whether the motion goes on: it does
/// not where the cursor stepped onto the end of the text.
pub open spec fn skip_spaces(text: Seq<char>, k: int, forward: bool) -> (int, bool)
    decreases distance_to_end(text, k, forward),
{
    match stepped(text, k, forward) {
        None => (k, true),
        Some(next) => match space_at_position(text, next) {
            None => (next, false),
            Some(true) => if 0 <= k <= text.len() {
                skip_spaces(text, next, forward)
            } else {
                (next, true)
            },
            Some(false) => (next, true),
        },
    }
}

/// The second part of a word motion from position `k`: the cursor steps
/// until it stands on an ASCII space. The result is where it stops, and
/// whether it found a space before the text ended.
pub open spec fn seek_space(text: Seq<char>, k: int, forward: bool) -> (int, bool)
    decreases distance_to_end(text, k, forward),
{
    match stepped(text, k, forward) {
        None => (k, false),
        Some(next) => match space_at_position(text, next) {
            None => (next, false),
            Some(true) => (next, true),
            Some(false) => if 0 <= k <= text.len() {
                seek_space(text, next, forward)
            } else {
                (next, false)
            },
        },
    }
}

/// A word motion from position `k`: over a run of spaces, then to the next
/// space. The result is where the cursor stops, and whether it found that
/// space.
pub open spec fn word_motion(text: Seq<char>, k: int, forward: bool) -> (int, bool) {
    let (stop, goes_on) = skip_spaces(text, k, forward);
    if goes_on {
        seek_space(text, stop, forward)
    } else {
        (stop, false)
    }
}

/// The position after the run of ASCII spaces that starts at position `k`.
pub open spec fn space_run_end(text: Seq<char>, k: int) -> int
    decreases text.len() - k,
{
    if 0 <= k < text.len() && text[k] == ' ' {
        space_run_end(text, k + 1)
    } else {
        k
    }
}

/// How far back a cursor at position `k` goes when it moves a word back:
/// one step back, then a word motion backward.
pub open spec fn word_left_reach(text: Seq<char>, k: int) -> int {
    let start = match stepped(text, k, false) {
        Some(previous) => previous,
        None => k,
    };
    word_motion(text, start, false).0
}

/// Where a cursor at position `k` stands after it moved a word back: as far
/// back as [`word_left_reach`] says, and one step forward again where it
/// stopped on a space.
pub open spec fn word_left(text: Seq<char>, k: int) -> int {
    let stop = word_left_reach(text, k);
    if space_at_position(text, stop) == Some(true) {
        stop + 1
    } else {
        stop
    }
}

/// Where a cursor at position `k` stands after it moved a word forward: a
/// word motion forward, then over the spaces that follow.
pub open spec fn word_right(text: Seq<char>, k: int) -> int {
    space_run_end(text, word_motion(text, k, true).0)
}

/// What the start of a run of spaces is: from it to `k` there are only
/// ASCII spaces, and before it there is none.
pub proof fn lemma_space_run_start(text: Seq<char>, k: int)
    requires
        0 <= k <= text.len(),
    ensures
        0 <= space_run_start(text, k) <= k,
        forall|j: int| space_run_start(text, k) <= j < k ==> text[j] == ' ',
        space_run_start(text, k) > 0 ==> text[space_run_start(text, k) - 1] != ' ',
    decreases k,
{
    if k > 0 && text[k - 1] == ' ' {
        lemma_space_run_start(text, k - 1);
    }
}

/// What the start of a word is: from it to `k` there is no ASCII space, and
/// before it there is one, or nothing.
pub proof fn lemma_word_run_start(text: Seq<char>, k: int)
    requires
        0 <= k <= text.len(),
    ensures
        0 <= word_run_start(text, k) <= k,
        forall|j: int| word_run_start(text, k) <= j < k ==> text[j] != ' ',
        word_run_start(text, k) > 0 ==> text[word_run_start(text, k) - 1] == ' ',
    decreases k,
{
    if k > 0 && text[k - 1] != ' ' {
        lemma_word_run_start(text, k - 1);
    }
}

/// What the end of a run of spaces is: from `k` to it there are only ASCII
/// spaces, and at it there is none.
pub proof fn lemma_space_run_end(text: Seq<char>, k: int)
    requires
        0 <= k <= text.len(),
    ensures
        k <= space_run_end(text, k) <= text.len(),
        forall|j: int| k <= j < space_run_end(text, k) ==> text[j] == ' ',
        space_run_end(text, k) < text.len() ==> text[space_run_end(text, k)] != ' ',
    decreases text.len() - k,
{
    if k < text.len() && text[k] == ' ' {
        lemma_space_run_end(text, k + 1);
    }
}

/// Where a word motion stops: inside the text and in the direction of the
/// motion; where it found its space, it stands on one.
pub proof fn lemma_word_motion(text: Seq<char>, k: int, forward: bool)
    requires
        0 <= k <= text.len(),
    ensures
        0 <= word_motion(text, k, forward).0 <= text.len(),
        forward ==> k <= word_motion(text, k, forward).0,
        !forward ==> word_motion(text, k, forward).0 <= k,
        word_motion(text, k, forward).1 ==> space_at_position(
            text,
            word_motion(text, k, forward).0,
        ) == Some(true),
{
    lemma_skip_spaces(text, k, forward);
    let (stop, goes_on) = skip_spaces(text, k, forward);
    if goes_on {
        lemma_seek_space(text, stop, forward);
    }
}

/// A word motion goes at least as far as its first step, in either of its
/// parts.
pub proof fn lemma_motion_passes_step(text: Seq<char>, k: int, forward: bool)
    requires
        0 <= k <= text.len(),
    ensures
        stepped(text, k, forward) matches Some(next) ==> {
            &&& forward ==> next <= skip_spaces(text, k, forward).0 && next <= seek_space(
                text,
                k,
                forward,
            ).0
            &&& !forward ==> skip_spaces(text, k, forward).0 <= next && seek_space(
                text,
                k,
                forward,
            ).0 <= next
        },
        skip_spaces(text, k, forward).1 ==> {
            &&& forward ==> skip_spaces(text, k, forward).0 <= word_motion(text, k, forward).0
            &&& !forward ==> word_motion(text, k, forward).0 <= skip_spaces(text, k, forward).0
        },
{
    match stepped(text, k, forward) {
        None => {},
        Some(next) => {
            lemma_skip_spaces(text, next, forward);
            lemma_seek_space(text, next, forward);
        },
    }
    lemma_skip_spaces(text, k, forward);
    lemma_seek_space(text, skip_spaces(text, k, forward).0, forward);
}

/// Where the first part of a word motion stops.
proof fn lemma_skip_spaces(text: Seq<char>, k: int, forward: bool)
    requires
        0 <= k <= text.len(),
    ensures
        0 <= skip_spaces(text, k, forward).0 <= text.len(),
        forward ==> k <= skip_spaces(text, k, forward).0,
        !forward ==> skip_spaces(text, k, forward).0 <= k,
    decreases distance_to_end(text, k, forward),
{
    match stepped(text, k, forward) {
        None => {},
        Some(next) => {
            if space_at_position(text, next) == Some(true) {
                lemma_skip_spaces(text, next, forward);
            }
        },
    }
}

/// Where the second part of a word motion stops.
proof fn lemma_seek_space(text: Seq<char>, k: int, forward: bool)
    requires
        0 <= k <= text.len(),
    ensures
        0 <= seek_space(text, k, forward).0 <= text.len(),
        forward ==> k <= seek_space(text, k, forward).0,
        !forward ==> seek_space(text, k, forward).0 <= k,
        seek_space(text, k, forward).1 ==> space_at_position(
            text,
            seek_space(text, k, forward).0,
        ) == Some(true),
    decreases distance_to_end(text, k, forward),
{
    match stepped(text, k, forward) {
        None => {},
        Some(next) => {
            if space_at_position(text, next) == Some(false) {
                lemma_seek_space(text, next, forward);
            }
        },
    }
}

/// Encoding distributes over concatenation.
pub proof fn lemma_encode_concat(a: Seq<char>, b: Seq<char>)
    ensures
        encode_utf8(a + b) == encode_utf8(a) + encode_utf8(b),
    decreases a.len(),
{
    if a.len() == 0 {
        assert(a + b =~= b);
        assert(encode_utf8(a) + encode_utf8(b) =~= encode_utf8(b));
    } else {
        assert((a + b).drop_first() =~= a.drop_first() + b);
        lemma_encode_concat(a.drop_first(), b);
        assert(encode_utf8(a + b) =~= encode_utf8(a) + encode_utf8(b));
    }
}

/// Two texts with the same bytes are the same text.
pub proof fn lemma_encode_injective(a: Seq<char>, b: Seq<char>)
    requires
        encode_utf8(a) == encode_utf8(b),
    ensures
        a == b,
{
    encode_utf8_decode_utf8(a);
    encode_utf8_decode_utf8(b);
}

/// A single character's text is encoded as that character's scalar.
pub proof fn lemma_encode_single(c: char)
    ensures
        encode_utf8(seq![c]) == encode_scalar(c as u32),
        1 <= encode_scalar(c as u32).len() <= 4,
{
    reveal_with_fuel(encode_utf8, 2);
    assert(seq![c].drop_first() =~= Seq::<char>::empty());
    assert(encode_utf8(seq![c]) =~= encode_scalar(c as u32));
}

/// The bytes of a text are those of its first `k` characters followed by
/// those of the rest.
pub proof fn lemma_encode_split(text: Seq<char>, k: int)
    requires
        0 <= k <= text.len(),
    ensures
        encode_utf8(text) == encode_utf8(text.take(k)) + encode_utf8(text.skip(k)),
        encode_utf8(text).subrange(0, byte_offset(text, k)) == encode_utf8(text.take(k)),
        encode_utf8(text).subrange(byte_offset(text, k), encode_utf8(text).len() as int)
            == encode_utf8(text.skip(k)),
        0 <= byte_offset(text, k) <= encode_utf8(text).len(),
{
    assert(text =~= text.take(k) + text.skip(k));
    lemma_encode_concat(text.take(k), text.skip(k));
    let head = encode_utf8(text.take(k));
    let tail = encode_utf8(text.skip(k));
    assert((head + tail).subrange(0, head.len() as int) =~= head);
    assert((head + tail).subrange(head.len() as int, (head + tail).len() as int) =~= tail);
}

/// The byte offsets of the two ends of a text.
pub proof fn lemma_offset_ends(text: Seq<char>)
    ensures
        byte_offset(text, 0) == 0,
        byte_offset(text, text.len() as int) == encode_utf8(text).len(),
{
    assert(text.take(0) =~= Seq::<char>::empty());
    assert(text.take(text.len() as int) =~= text);
}

/// One character further, the byte offset grows by that character's
/// encoded length.
pub proof fn lemma_offset_step(text: Seq<char>, k: int)
    requires
        0 <= k < text.len(),
    ensures
        byte_offset(text, k + 1) == byte_offset(text, k) + encode_scalar(text[k] as u32).len(),
        1 <= encode_scalar(text[k] as u32).len() <= 4,
{
    assert(text.take(k + 1) =~= text.take(k) + seq![text[k]]);
    lemma_encode_concat(text.take(k), seq![text[k]]);
    lemma_encode_single(text[k]);
}

/// Byte offsets grow strictly with the character position.
pub proof fn lemma_offset_increasing(text: Seq<char>, i: int, j: int)
    requires
        0 <= i <= j <= text.len(),
    ensures
        byte_offset(text, i) + (j - i) <= byte_offset(text, j),
        byte_offset(text, j) <= byte_offset(text, i) + 4 * (j - i),
    decreases j - i,
{
    if i < j {
        lemma_offset_increasing(text, i, j - 1);
        lemma_offset_step(text, j - 1);
    }
}

/// The byte offset of a character position is a character boundary with
/// that many characters before it.
pub proof fn lemma_char_index(text: Seq<char>, k: int)
    requires
        0 <= k <= text.len(),
    ensures
        on_char_boundary(text, byte_offset(text, k)),
        char_index(text, byte_offset(text, k)) == k,
{
    let j = char_index(text, byte_offset(text, k));
    if j < k {
        lemma_offset_increasing(text, j, k);
    }
    if k < j {
        lemma_offset_increasing(text, k, j);
    }
}

/// A character boundary is the byte offset of the characters before it.
pub proof fn lemma_char_index_on_boundary(text: Seq<char>, index: int)
    requires
        on_char_boundary(text, index),
    ensures
        0 <= char_index(text, index) <= text.len(),
        byte_offset(text, char_index(text, index)) == index,
{
}

/// The byte offset of position `k > 0` is the length of the first character
/// plus the offset of `k - 1` in the rest.
proof fn lemma_offset_shift(text: Seq<char>, k: int)
    requires
        1 <= k <= text.len(),
    ensures
        byte_offset(text, k) == encode_scalar(text[0] as u32).len() + byte_offset(
            text.drop_first(),
            k - 1,
        ),
{
    assert(text.take(k).drop_first() =~= text.drop_first().take(k - 1));
    assert(text.take(k)[0] == text[0]);
}

/// A byte position is a character boundary of the encoded text exactly when
/// it is the byte offset of a character position.
pub proof fn lemma_boundary_iff(text: Seq<char>, index: int)
    ensures
        is_char_boundary(encode_utf8(text), index) <==> on_char_boundary(text, index),
    decreases text.len(),
{
    let bytes = encode_utf8(text);
    encode_utf8_valid_utf8(text);
    lemma_offset_ends(text);
    if index == 0 {
        assert(byte_offset(text, 0) == index);
    } else if index < 0 || bytes.len() < index {
        assert forall|k: int| 0 <= k <= text.len() implies #[trigger] byte_offset(text, k)
            != index by {
            lemma_encode_split(text, k);
        }
    } else {
        assert(text.len() > 0);
        let rest = text.drop_first();
        encode_utf8_first_scalar(text);
        assert(pop_first_scalar(bytes) =~= encode_utf8(rest));
        let first = length_of_first_scalar(bytes);
        lemma_boundary_iff(rest, index - first);
        if on_char_boundary(rest, index - first) {
            let k = choose|k: int| 0 <= k <= rest.len() && #[trigger] byte_offset(rest, k) == index - first;
            lemma_offset_shift(text, k + 1);
            assert(byte_offset(text, k + 1) == index);
        }
        if on_char_boundary(text, index) {
            let k = choose|k: int| 0 <= k <= text.len() && #[trigger] byte_offset(text, k) == index;
            assert(k >= 1);
            lemma_offset_shift(text, k);
            assert(byte_offset(rest, k - 1) == index - first);
        }
    }
}

/// Only the ASCII space is encoded with a first byte of `0x20`.
proof fn lemma_first_byte_space(v: u32)
    by (bit_vector)
    requires
        is_scalar(v),
    ensures
        has_width_1_encoding(v) ==> (leading_byte_width_1(v) == 0x20u8 <==> v == 0x20u32),
        has_width_2_encoding(v) ==> leading_byte_width_2(v) != 0x20u8,
        has_width_3_encoding(v) ==> leading_byte_width_3(v) != 0x20u8,
        has_width_4_encoding(v) ==> leading_byte_width_4(v) != 0x20u8,
{
}

/// Only the ASCII space is encoded with a last byte of `0x20`.
proof fn lemma_last_byte_space(v: u32)
    by (bit_vector)
    requires
        is_scalar(v),
    ensures
        !has_width_1_encoding(v) ==> last_continuation_byte(v) != 0x20u8,
{
}

/// The first and the last byte of a character's encoding are `0x20` only
/// for the ASCII space.
pub proof fn lemma_scalar_space(c: char)
    ensures
        (encode_scalar(c as u32)[0] == 0x20u8) <==> c == ' ',
        (encode_scalar(c as u32).last() == 0x20u8) <==> c == ' ',
        1 <= encode_scalar(c as u32).len() <= 4,
{
    let v = c as u32;
    char_is_scalar(c);
    lemma_first_byte_space(v);
    lemma_last_byte_space(v);
    assert((' ' as u32) == 0x20u32);
    if v == 0x20u32 {
        char_u32_cast(c, v);
        char_u32_cast(' ', 0x20u32);
    }
}

/// The byte at which character `k` starts is `0x20` exactly when that
/// character is the ASCII space.
pub proof fn lemma_space_at(text: Seq<char>, k: int)
    requires
        0 <= k < text.len(),
    ensures
        0 <= byte_offset(text, k) < encode_utf8(text).len(),
        (encode_utf8(text)[byte_offset(text, k)] == 0x20u8) <==> text[k] == ' ',
{
    lemma_encode_split(text, k);
    let rest = text.skip(k);
    assert(rest.drop_first() =~= text.skip(k + 1));
    assert(rest[0] == text[k]);
    lemma_scalar_space(text[k]);
    let head = encode_utf8(text.take(k));
    let tail = encode_utf8(rest);
    assert(tail == encode_scalar(text[k] as u32) + encode_utf8(rest.drop_first()));
    assert((head + tail)[head.len() as int] == tail[0]);
}

/// The byte before the one at which position `k` starts is `0x20` exactly
/// when the character before that position is the ASCII space.
pub proof fn lemma_space_before(text: Seq<char>, k: int)
    requires
        0 < k <= text.len(),
    ensures
        0 < byte_offset(text, k) <= encode_utf8(text).len(),
        (encode_utf8(text)[byte_offset(text, k) - 1] == 0x20u8) <==> text[k - 1] == ' ',
{
    lemma_encode_split(text, k);
    lemma_offset_step(text, k - 1);
    lemma_scalar_space(text[k - 1]);
    assert(text.take(k) =~= text.take(k - 1) + seq![text[k - 1]]);
    lemma_encode_concat(text.take(k - 1), seq![text[k - 1]]);
    lemma_encode_single(text[k - 1]);
    let head = encode_utf8(text.take(k));
    let tail = encode_utf8(text.skip(k));
    let scalar = encode_scalar(text[k - 1] as u32);
    assert(head == encode_utf8(text.take(k - 1)) + scalar);
    assert(head.last() == scalar.last());
    assert((head + tail)[head.len() - 1] == head.last());
}


/// The width of `text` in terminal columns, as the Unicode tables that the
/// library is linked with give it.
pub uninterp spec fn display_width(text: Seq<char>) -> usize;

/// `UnicodeWidthStr::width` of the `unicode-width` crate: the number of
/// terminal columns that `text` takes. The result depends on the text alone;
/// nothing more is claimed of it.
#[verifier::external_body]
pub(crate) fn text_width(text: &String) -> (width: usize)
    ensures
        width == display_width(text@),
{
    unicode_width::UnicodeWidthStr::width(text.as_str())
}

/// `String::insert`: puts the encoding of `c` at byte position `index`,
/// between the bytes before that position and those from it on. The position
/// has to be a character boundary.
#[verifier::external_body]
pub(crate) fn string_insert(text: &mut String, index: usize, c: char)
    requires
        is_char_boundary(encode_utf8(old(text)@), index as int),
    ensures
        encode_utf8(final(text)@) == encode_utf8(old(text)@).subrange(0, index as int)
            + encode_scalar(c as u32) + encode_utf8(old(text)@).subrange(
            index as int,
            encode_utf8(old(text)@).len() as int,
        ),
{
    text.insert(index, c)
}

/// `String::remove`: takes out the character that starts at byte position
/// `index` and returns it; the bytes before and after it stay. The position
/// has to be a character boundary before the end.
#[verifier::external_body]
pub(crate) fn string_remove(text: &mut String, index: usize) -> (c: char)
    requires
        index < encode_utf8(old(text)@).len(),
        is_char_boundary(encode_utf8(old(text)@), index as int),
    ensures
        c as u32 == decode_first_scalar(
            encode_utf8(old(text)@).subrange(index as int, encode_utf8(old(text)@).len() as int),
        ),
        encode_utf8(final(text)@) == encode_utf8(old(text)@).subrange(0, index as int)
            + encode_utf8(old(text)@).subrange(
            index + length_of_first_scalar(
                encode_utf8(old(text)@).subrange(
                    index as int,
                    encode_utf8(old(text)@).len() as int,
                ),
            ),
            encode_utf8(old(text)@).len() as int,
        ),
{
    text.remove(index)
}

/// `String::truncate`: keeps the first `len` bytes. The position has to be a
/// character boundary of the text.
#[verifier::external_body]
pub(crate) fn string_truncate(text: &mut String, len: usize)
    requires
        len <= encode_utf8(old(text)@).len(),
        is_char_boundary(encode_utf8(old(text)@), len as int),
    ensures
        encode_utf8(final(text)@) == encode_utf8(old(text)@).subrange(0, len as int),
{
    text.truncate(len)
}

/// The length of `text` in bytes.
pub fn byte_len(text: &String) -> (len: usize)
    ensures
        len == encode_utf8(text@).len(),
        len == byte_offset(text@, text@.len() as int),
{
    proof {
        lemma_offset_ends(text@);
    }
    text.as_str().as_bytes().len()
}

/// The number of bytes that `c` takes in UTF-8.
pub fn char_len_utf8(c: char) -> (len: usize)
    ensures
        len == encode_scalar(c as u32).len(),
        1 <= len <= 4,
{
    let code = c as u32;
    if code < 0x80 {
        1
    } else if code < 0x800 {
        2
    } else if code < 0x10000 {
        3
    } else {
        4
    }
}

/// The byte position at which the character before position `k` starts,
/// found by stepping back from `cursor` to the nearest character boundary.
pub(crate) fn previous_boundary(text: &String, cursor: usize, Ghost(k): Ghost<int>) -> (start:
    usize)
    requires
        0 < k <= text@.len(),
        cursor == byte_offset(text@, k),
    ensures
        start == byte_offset(text@, k - 1),
        start < cursor,
{
    proof {
        lemma_offset_step(text@, k - 1);
        lemma_encode_split(text@, k - 1);
    }
    let mut index = cursor - 1;
    while !text.as_str().is_char_boundary(index)
        invariant
            0 < k <= text@.len(),
            cursor == byte_offset(text@, k),
            byte_offset(text@, k - 1) <= index < cursor,
        decreases index,
    {
        proof {
            lemma_boundary_iff(text@, index as int);
        }
        index = index - 1;
    }
    proof {
        lemma_boundary_iff(text@, index as int);
        let j = choose|j: int| 0 <= j <= text@.len() && #[trigger] byte_offset(text@, j) == index;
        if j >= k {
            lemma_offset_increasing(text@, k, j);
        }
        if j < k - 1 {
            lemma_offset_increasing(text@, j, k - 1);
        }
    }
    index
}

/// The byte position at which the character after position `k` starts (the
/// end of the text after the last one), found by stepping forward from
/// `cursor` to the nearest character boundary.
pub(crate) fn next_boundary(text: &String, cursor: usize, Ghost(k): Ghost<int>) -> (end: usize)
    requires
        0 <= k < text@.len(),
        cursor == byte_offset(text@, k),
    ensures
        end == byte_offset(text@, k + 1),
        cursor < end,
{
    let len = byte_len(text);
    proof {
        lemma_offset_step(text@, k);
        lemma_encode_split(text@, k + 1);
    }
    let mut index = cursor + 1;
    while index < len && !text.as_str().is_char_boundary(index)
        invariant
            0 <= k < text@.len(),
            cursor == byte_offset(text@, k),
            len == encode_utf8(text@).len(),
            cursor < index <= byte_offset(text@, k + 1) <= len,
        decreases len - index,
    {
        proof {
            lemma_boundary_iff(text@, index as int);
        }
        index = index + 1;
    }
    proof {
        if index < len {
            lemma_boundary_iff(text@, index as int);
            let j = choose|j: int|
                0 <= j <= text@.len() && #[trigger] byte_offset(text@, j) == index;
            if j > k + 1 {
                lemma_offset_increasing(text@, k + 1, j);
            }
            if j <= k {
                lemma_offset_increasing(text@, j, k);
            }
        }
    }
    index
}

/// Puts `c` before the character at position `k`, which starts at byte
/// `cursor`.
pub(crate) fn insert_char(text: &mut String, cursor: usize, c: char, Ghost(k): Ghost<int>)
    requires
        0 <= k <= old(text)@.len(),
        cursor == byte_offset(old(text)@, k),
    ensures
        final(text)@ == old(text)@.insert(k, c),
        byte_offset(final(text)@, k + 1) == cursor + encode_scalar(c as u32).len(),
        cursor + encode_scalar(c as u32).len() <= usize::MAX,
        final(text)@.len() <= usize::MAX,
{
    let ghost before = text@;
    proof {
        lemma_boundary_iff(before, cursor as int);
        lemma_encode_split(before, k);
    }
    string_insert(text, cursor, c);
    proof {
        let target = before.insert(k, c);
        assert(target =~= before.take(k) + seq![c] + before.skip(k));
        lemma_encode_single(c);
        lemma_encode_concat(before.take(k), seq![c]);
        lemma_encode_concat(before.take(k) + seq![c], before.skip(k));
        lemma_encode_injective(text@, target);
        assert(target.take(k + 1) =~= before.take(k) + seq![c]);
    }
    let len = byte_len(text);
    proof {
        lemma_encode_split(text@, k + 1);
        lemma_offset_increasing(text@, 0, text@.len() as int);
        lemma_offset_ends(text@);
    }
}

/// Takes out the character at position `k`, which starts at byte `start`,
/// and returns it.
pub(crate) fn remove_char(text: &mut String, start: usize, Ghost(k): Ghost<int>) -> (c: char)
    requires
        0 <= k < old(text)@.len(),
        start == byte_offset(old(text)@, k),
    ensures
        c == old(text)@[k],
        final(text)@ == old(text)@.remove(k),
{
    let ghost before = text@;
    proof {
        lemma_boundary_iff(before, start as int);
        lemma_encode_split(before, k);
        lemma_encode_split(before, k + 1);
        lemma_offset_step(before, k);
        encode_utf8_first_scalar(before.skip(k));
    }
    let c = string_remove(text, start);
    proof {
        char_u32_cast(c, c as u32);
        char_u32_cast(before[k], before[k] as u32);
        let target = before.remove(k);
        assert(target =~= before.take(k) + before.skip(k + 1));
        lemma_encode_concat(before.take(k), before.skip(k + 1));
        lemma_encode_injective(text@, target);
    }
    c
}

/// Drops the characters from position `k` on, which starts at byte `cursor`.
pub(crate) fn truncate_at(text: &mut String, cursor: usize, Ghost(k): Ghost<int>)
    requires
        0 <= k <= old(text)@.len(),
        cursor == byte_offset(old(text)@, k),
    ensures
        final(text)@ == old(text)@.take(k),
{
    let ghost before = text@;
    proof {
        lemma_boundary_iff(before, cursor as int);
        lemma_encode_split(before, k);
    }
    string_truncate(text, cursor);
    proof {
        lemma_encode_injective(text@, before.take(k));
    }
}

/// Whether the character before position `k`, which starts at byte `cursor`,
/// is the ASCII space. Decided on the byte before the cursor.
pub(crate) fn space_before(text: &String, cursor: usize, Ghost(k): Ghost<int>) -> (space: bool)
    requires
        0 < k <= text@.len(),
        cursor == byte_offset(text@, k),
    ensures
        space == (text@[k - 1] == ' '),
{
    proof {
        lemma_space_before(text@, k);
    }
    let bytes = text.as_str().as_bytes();
    bytes[cursor - 1] == 0x20
}

/// Whether the character at position `k`, which starts at byte `cursor`, is
/// the ASCII space; `None` at the end of the text. Decided on the byte at the
/// cursor.
pub(crate) fn space_at(text: &String, cursor: usize, Ghost(k): Ghost<int>) -> (space: Option<
    bool,
>)
    requires
        0 <= k <= text@.len(),
        cursor == byte_offset(text@, k),
    ensures
        k == text@.len() ==> space is None,
        k < text@.len() ==> space == Some(text@[k] == ' '),
{
    proof {
        lemma_offset_ends(text@);
        if k < text@.len() {
            lemma_space_at(text@, k);
        }
    }
    let bytes = text.as_str().as_bytes();
    if cursor < bytes.len() {
        Some(bytes[cursor] == 0x20)
    } else {
        None
    }
}

} // verus!
