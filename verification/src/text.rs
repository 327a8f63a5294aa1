//! Bytes read as text, and text stripped of the white space around it.
//!
//! The three functions at the end of this file are not verified: each
//! hands its argument to a function of the standard library, and its
//! contract says what the documentation of that function says.
use vstd::prelude::*;
use vstd::utf8::{decode_utf8, valid_utf8};

verus! {

/// Whether a character is white space to `str::trim`: whether it has the
/// Unicode property `White_Space`, as `char::is_whitespace` tells.
pub uninterp spec fn is_whitespace(c: char) -> bool;

/// What `String::from_utf8_lossy` makes of a byte string: its text, with a
/// replacement character in place of whatever is not UTF-8.
pub uninterp spec fn lossy_text(bytes: Seq<u8>) -> Seq<char>;

/// The text without the white space at its start.
pub open spec fn trimmed_start(s: Seq<char>) -> Seq<char>
    decreases s.len(),
{
    if s.len() > 0 && is_whitespace(s[0]) {
        trimmed_start(s.skip(1))
    } else {
        s
    }
}

/// The text without the white space at its end.
pub open spec fn trimmed_end(s: Seq<char>) -> Seq<char>
    decreases s.len(),
{
    if s.len() > 0 && is_whitespace(s.last()) {
        trimmed_end(s.drop_last())
    } else {
        s
    }
}

/// The text without the white space at either end.
pub open spec fn trimmed(s: Seq<char>) -> Seq<char> {
    trimmed_end(trimmed_start(s))
}

/// Trimming at the start leaves the end of the text: all that is cut is
/// white space, and what is left does not start with white space.
pub proof fn lemma_trimmed_start(s: Seq<char>)
    ensures
        ({
            let t = trimmed_start(s);
            let cut = s.len() - t.len();
            &&& 0 <= cut
            &&& t == s.skip(cut)
            &&& forall|i: int| 0 <= i < cut ==> is_whitespace(s[i])
            &&& t.len() > 0 ==> !is_whitespace(t.first())
        }),
    decreases s.len(),
{
    if s.len() > 0 && is_whitespace(s[0]) {
        let rest = s.skip(1);
        lemma_trimmed_start(rest);
        let t = trimmed_start(s);
        let cut = s.len() - t.len();
        assert(t =~= s.skip(cut));
        assert forall|i: int| 0 <= i < cut implies is_whitespace(s[i]) by {
            if i > 0 {
                assert(s[i] == rest[i - 1]);
            }
        }
    } else {
        assert(s =~= s.skip(0));
    }
}

/// Trimming at the end leaves the start of the text: all that is cut is
/// white space, and what is left does not end with white space.
pub proof fn lemma_trimmed_end(s: Seq<char>)
    ensures
        ({
            let t = trimmed_end(s);
            &&& t.len() <= s.len()
            &&& t == s.take(t.len() as int)
            &&& forall|i: int| t.len() <= i < s.len() ==> is_whitespace(s[i])
            &&& t.len() > 0 ==> !is_whitespace(t.last())
        }),
    decreases s.len(),
{
    if s.len() > 0 && is_whitespace(s.last()) {
        let rest = s.drop_last();
        lemma_trimmed_end(rest);
        let t = trimmed_end(s);
        assert(t =~= s.take(t.len() as int));
        assert forall|i: int| t.len() <= i < s.len() implies is_whitespace(s[i]) by {
            if i < s.len() - 1 {
                assert(s[i] == rest[i]);
            }
        }
    } else {
        assert(s =~= s.take(s.len() as int));
    }
}

/// What trimming leaves is a stretch of the text with nothing but white
/// space before and after it. It neither starts nor ends with white space,
/// and trimming it again changes nothing.
pub proof fn lemma_trimmed(s: Seq<char>)
    ensures
        ({
            let t = trimmed(s);
            let from = s.len() - trimmed_start(s).len();
            &&& 0 <= from <= from + t.len() <= s.len()
            &&& t == s.subrange(from, from + t.len())
            &&& forall|i: int| 0 <= i < from ==> is_whitespace(s[i])
            &&& forall|i: int| from + t.len() <= i < s.len() ==> is_whitespace(s[i])
            &&& t.len() > 0 ==> !is_whitespace(t.first()) && !is_whitespace(t.last())
            &&& trimmed(t) == t
        }),
{
    let mid = trimmed_start(s);
    let t = trimmed(s);
    let from = s.len() - mid.len();
    lemma_trimmed_start(s);
    lemma_trimmed_end(mid);
    assert(t =~= s.subrange(from, from + t.len()));
    assert forall|i: int| from + t.len() <= i < s.len() implies is_whitespace(s[i]) by {
        assert(s[i] == mid[i - from]);
    }
    if t.len() > 0 {
        assert(t.first() == mid.first());
    }
    assert(trimmed_start(t) == t);
    assert(trimmed_end(t) == t);
}

/// Whether `n` is the length of the longest prefix of `bytes` that is
/// UTF-8.
pub open spec fn is_valid_up_to(bytes: Seq<u8>, n: int) -> bool {
    &&& 0 <= n <= bytes.len()
    &&& valid_utf8(bytes.take(n))
    &&& forall|m: int| n < m <= bytes.len() ==> !valid_utf8(#[trigger] bytes.take(m))
}

/// Calls `str::trim`, which returns the text without the white space at
/// its start and at its end: what is left neither starts nor ends with a
/// character that is white space.
#[verifier::external_body]
pub(crate) fn trim(text: &str) -> (out: &str)
    ensures
        out@ == trimmed(text@),
        out@.len() > 0 ==> !is_whitespace(out@.first()) && !is_whitespace(out@.last()),
{
    text.trim()
}

/// Calls `String::from_utf8_lossy`. Bytes that are UTF-8 come out as the
/// text they encode; of other bytes the contract only names the result.
#[verifier::external_body]
pub(crate) fn decode_lossy(bytes: &[u8]) -> (out: String)
    ensures
        out@ == lossy_text(bytes@),
        valid_utf8(bytes@) ==> out@ == decode_utf8(bytes@),
{
    String::from_utf8_lossy(bytes).into_owned()
}

/// Calls `String::from_utf8`, which returns the text that the bytes encode
/// when they are UTF-8, and an error otherwise. Of the error only
/// `valid_up_to` is kept: the length of the longest prefix that is UTF-8.
#[verifier::external_body]
pub(crate) fn decode_strict(bytes: Vec<u8>) -> (r: Result<String, usize>)
    ensures
        match r {
            Ok(text) => valid_utf8(bytes@) && text@ == decode_utf8(bytes@),
            Err(n) => !valid_utf8(bytes@) && is_valid_up_to(bytes@, n as int),
        },
{
    match String::from_utf8(bytes) {
        Ok(text) => Ok(text),
        Err(error) => Err(error.utf8_error().valid_up_to()),
    }
}

} // verus!
