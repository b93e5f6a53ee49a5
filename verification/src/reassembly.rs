//! Best-effort recovery of text from a byte stream that arrives in chunks
//! cut at arbitrary places.
//!
//! Bytes are collected in a buffer. Whenever the buffer as a whole is valid
//! UTF-8 it is released entirely. Otherwise everything before the last byte
//! that is not a continuation byte is released and the rest, a sequence that
//! may still be completed by the next chunk, is held back. The cut is a
//! heuristic: it looks at the shape of single bytes only, so what is released
//! from a malformed stream need not be valid UTF-8.

use vstd::prelude::*;
use vstd::utf8::{
    is_char_boundary, is_char_boundary_iff_not_is_continuation_byte,
    is_char_boundary_start_end_of_seq, is_continuation_byte, partial_valid_partial_invalid_utf8,
    valid_utf8, valid_utf8_split,
};

verus! {

/// Index of the last byte of `buf` that is not a continuation byte, or 0
/// where every byte is one.
pub open spec fn last_lead(buf: Seq<u8>) -> int
    decreases buf.len(),
{
    if buf.len() == 0 {
        0
    } else if !is_continuation_byte(buf.last()) {
        buf.len() - 1
    } else {
        last_lead(buf.drop_last())
    }
}

/// How many leading bytes of `buf` are released.
pub open spec fn release_len(buf: Seq<u8>) -> int {
    if valid_utf8(buf) {
        buf.len() as int
    } else {
        last_lead(buf)
    }
}

/// The bytes released from `buf` as text, if any are. A buffer that is valid
/// as a whole is released even when empty; a cut that would release nothing
/// releases nothing.
pub open spec fn released(buf: Seq<u8>) -> Option<Seq<u8>> {
    if valid_utf8(buf) {
        Some(buf)
    } else if last_lead(buf) > 0 {
        Some(buf.take(last_lead(buf)))
    } else {
        None
    }
}

/// The bytes of `buf` that are held back.
pub open spec fn held_back(buf: Seq<u8>) -> Seq<u8> {
    buf.skip(release_len(buf))
}

/// `last_lead` lies within the buffer, points at a byte that starts a
/// sequence unless there is none, and only continuation bytes follow it.
pub proof fn lemma_last_lead(buf: Seq<u8>)
    ensures
        0 <= last_lead(buf) <= buf.len(),
        buf.len() > 0 ==> last_lead(buf) < buf.len(),
        forall|j: int| last_lead(buf) < j < buf.len() ==> is_continuation_byte(#[trigger] buf[j]),
        last_lead(buf) > 0 ==> !is_continuation_byte(buf[last_lead(buf)]),
    decreases buf.len(),
{
    if buf.len() > 0 && is_continuation_byte(buf.last()) {
        let front = buf.drop_last();
        lemma_last_lead(front);
        assert forall|j: int| last_lead(buf) < j < buf.len() implies is_continuation_byte(
            #[trigger] buf[j],
        ) by {
            if j < front.len() {
                assert(buf[j] == front[j]);
            }
        }
    }
}

/// Released and held-back bytes together are the buffer: nothing is lost
/// and nothing is repeated.
pub proof fn lemma_release_partitions(buf: Seq<u8>)
    ensures
        match released(buf) {
            Some(text) => text + held_back(buf) == buf,
            None => held_back(buf) == buf,
        },
{
    lemma_last_lead(buf);
    if let Some(text) = released(buf) {
        assert(text + held_back(buf) =~= buf);
    } else {
        assert(held_back(buf) =~= buf);
    }
}

/// A buffer that is not valid as a whole and holds a single started
/// sequence, that is one byte that is not a continuation byte and behind it
/// continuation bytes only, is held back entirely: nothing is released
/// before the sequence is complete.
pub proof fn lemma_started_sequence_is_held(buf: Seq<u8>)
    requires
        !valid_utf8(buf),
        forall|j: int| 0 < j < buf.len() ==> is_continuation_byte(#[trigger] buf[j]),
    ensures
        released(buf) is None,
        held_back(buf) == buf,
{
    lemma_last_lead(buf);
    assert(held_back(buf) =~= buf);
}

/// What follows a valid beginning of valid UTF-8 is valid UTF-8.
pub proof fn lemma_rest_of_text_is_text(whole: Seq<u8>, n: int)
    requires
        valid_utf8(whole),
        0 <= n <= whole.len(),
        valid_utf8(whole.take(n)),
    ensures
        valid_utf8(whole.skip(n)),
{
    if !valid_utf8(whole.skip(n)) {
        partial_valid_partial_invalid_utf8(whole, n);
    }
}

/// On well-formed input the cut is exact. Of the first `n` bytes of valid
/// UTF-8, what is released is valid UTF-8, what follows the released bytes
/// is valid UTF-8, and what is held back is the beginning of it.
pub proof fn lemma_release_of_text(whole: Seq<u8>, n: int)
    requires
        valid_utf8(whole),
        0 <= n <= whole.len(),
    ensures
        0 <= release_len(whole.take(n)) <= n,
        match released(whole.take(n)) {
            Some(text) => valid_utf8(text),
            None => release_len(whole.take(n)) == 0,
        },
        valid_utf8(whole.take(release_len(whole.take(n)))),
        valid_utf8(whole.skip(release_len(whole.take(n)))),
        held_back(whole.take(n)) == whole.skip(release_len(whole.take(n))).take(
            n - release_len(whole.take(n)),
        ),
{
    let buf = whole.take(n);
    let cut = release_len(buf);
    lemma_last_lead(buf);
    if valid_utf8(buf) {
        lemma_rest_of_text_is_text(whole, n);
    } else {
        // The buffer ends within a character, so it is not empty, and the
        // text starts with a byte that is not a continuation byte.
        is_char_boundary_start_end_of_seq(whole);
        is_char_boundary_iff_not_is_continuation_byte(whole, 0);
        assert(buf[0] == whole[0]);
        assert(buf[cut] == whole[cut]);
        assert(!is_continuation_byte(whole[cut]));
        is_char_boundary_iff_not_is_continuation_byte(whole, cut);
        valid_utf8_split(whole, cut);
        assert(whole.take(cut) =~= whole.subrange(0, cut));
        assert(whole.skip(cut) =~= whole.subrange(cut, whole.len() as int));
        assert(buf.take(cut) =~= whole.take(cut));
    }
    assert(held_back(buf) =~= whole.skip(cut).take(n - cut));
}

/// Whether `bytes` is valid UTF-8. The answer is that of
/// `core::str::from_utf8`.
///
/// Not proved: that `core::str::from_utf8` succeeds on exactly the byte
/// strings that `valid_utf8` holds of, which is what its documentation
/// says of it.
#[verifier::external_body]
fn is_utf8(bytes: &[u8]) -> (ok: bool)
    ensures
        ok == valid_utf8(bytes@),
{
    core::str::from_utf8(bytes).is_ok()
}

/// Finds the last byte that is not a continuation byte.
fn find_last_lead(buf: &Vec<u8>) -> (at: usize)
    ensures
        at == last_lead(buf@),
{
    let mut i: usize = buf.len();
    assert(buf@.take(i as int) =~= buf@);
    while i > 0
        invariant
            i <= buf.len(),
            last_lead(buf@) == last_lead(buf@.take(i as int)),
        decreases i,
    {
        let byte: u8 = buf[i - 1];
        if byte < 0x80 || byte > 0xbf {
            return i - 1;
        }
        assert(buf@.take(i as int).drop_last() =~= buf@.take(i - 1));
        i -= 1;
    }
    0
}

/// Appends `data` to `buffer`.
pub fn append_bytes(buffer: &mut Vec<u8>, data: &Vec<u8>)
    ensures
        final(buffer)@ == old(buffer)@ + data@,
{
    let mut i: usize = 0;
    while i < data.len()
        invariant
            i <= data.len(),
            buffer@ == old(buffer)@ + data@.take(i as int),
        decreases data.len() - i,
    {
        buffer.push(data[i]);
        assert(data@.take(i + 1) =~= data@.take(i as int).push(data@[i as int]));
        i += 1;
    }
    assert(data@.take(i as int) =~= data@);
}

/// Takes out of `buffer` the bytes that can be released as text and leaves
/// the rest in it.
pub fn release_text(buffer: &mut Vec<u8>) -> (text: Option<Vec<u8>>)
    ensures
        match text {
            Some(bytes) => released(old(buffer)@) == Some(bytes@),
            None => released(old(buffer)@) is None,
        },
        final(buffer)@ == held_back(old(buffer)@),
{
    if is_utf8(buffer.as_slice()) {
        let mut whole: Vec<u8> = Vec::new();
        core::mem::swap(buffer, &mut whole);
        assert(buffer@ =~= held_back(whole@));
        Some(whole)
    } else {
        let at: usize = find_last_lead(buffer);
        proof {
            lemma_last_lead(buffer@);
        }
        if at > 0 {
            let mut rest = buffer.split_off(at);
            core::mem::swap(buffer, &mut rest);
            Some(rest)
        } else {
            assert(buffer@ =~= held_back(buffer@));
            None
        }
    }
}

} // verus!
