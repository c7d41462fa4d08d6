//! The saved session: the pattern and the text to match, stored as one
//! string separated by the control character U+0003.
use vstd::prelude::*;
use vstd::utf8::{decode_utf8, encode_utf8, valid_utf8};
use crate::text::{push_char, push_text};

verus! {

#[verifier::external_type_specification]
#[verifier::external_body]
pub struct ExUtf8Error(std::str::Utf8Error);

/// Why a saved session could not be read back.
#[derive(Debug, Clone, Copy, PartialEq, Eq, Structural)]
pub enum StateError {
    /// One of the two parts is not valid UTF-8.
    InvalidUtf8,
}

/// The separator between the pattern and the text.
pub open spec fn separator() -> char {
    '\u{3}'
}

/// The saved form of a session.
pub open spec fn encoded(pattern: Seq<char>, text: Seq<char>) -> Seq<char> {
    pattern + seq![separator()] + text
}

/// The saved form of a session: the pattern, U+0003, then the text.
pub fn encode_state(pattern: &str, text_to_match: &str) -> (r: String)
    ensures
        r@ == encoded(pattern@, text_to_match@),
{
    let mut s = String::new();
    push_text(&mut s, pattern);
    push_char(&mut s, '\u{3}');
    push_text(&mut s, text_to_match);
    s
}

/// The index of the first separator byte at or after `from`, or the
/// length when there is none.
pub open spec fn sep_index(b: Seq<u8>, from: int) -> int
    decreases b.len() - from,
{
    if from < 0 || from >= b.len() {
        b.len() as int
    } else if b[from] == 3 {
        from
    } else {
        sep_index(b, from + 1)
    }
}

/// The bytes before the first separator.
pub open spec fn first_part(b: Seq<u8>) -> Seq<u8> {
    b.subrange(0, sep_index(b, 0))
}

/// The bytes between the first separator and the next one (or the end).
pub open spec fn second_part(b: Seq<u8>) -> Seq<u8> {
    let s = sep_index(b, 0);
    b.subrange(s + 1, sep_index(b, s + 1))
}

/// The session read back from its saved bytes: both parts decoded, if
/// both are UTF-8.
pub open spec fn decoded(b: Seq<u8>) -> Option<(Seq<char>, Seq<char>)> {
    if valid_utf8(first_part(b)) && valid_utf8(second_part(b)) {
        Some((decode_utf8(first_part(b)), decode_utf8(second_part(b))))
    } else {
        None
    }
}

/// Calls `std::str::from_utf8`, which succeeds exactly on UTF-8 bytes and
/// then gives the string they encode, and copies that string.
#[verifier::external_body]
fn utf8_string(v: &[u8]) -> (r: Result<String, std::str::Utf8Error>)
    ensures
        r is Ok <==> valid_utf8(v@),
        r matches Ok(s) ==> s@ == decode_utf8(v@),
{
    match std::str::from_utf8(v) {
        Ok(s) => Ok(s.to_string()),
        Err(e) => Err(e),
    }
}

proof fn lemma_sep_index_bounds(b: Seq<u8>, from: int)
    requires
        0 <= from,
    ensures
        from <= b.len() ==> from <= sep_index(b, from) <= b.len(),
        from > b.len() ==> sep_index(b, from) == b.len(),
        sep_index(b, from) < b.len() ==> b[sep_index(b, from)] == 3,
        forall|k: int| from <= k < sep_index(b, from) ==> b[k] != 3,
    decreases b.len() - from,
{
    if from < b.len() && b[from] != 3 {
        lemma_sep_index_bounds(b, from + 1);
    }
}

/// The bytes `from..to` of `data`.
fn copy_range(data: &[u8], from: usize, to: usize) -> (r: Vec<u8>)
    requires
        from <= to <= data@.len(),
    ensures
        r@ == data@.subrange(from as int, to as int),
{
    let mut out: Vec<u8> = Vec::new();
    let mut k = from;
    while k < to
        invariant
            from <= k <= to,
            to <= data@.len(),
            out@ == data@.subrange(from as int, k as int),
        decreases to - k,
    {
        out.push(data[k]);
        k += 1;
    }
    out
}

/// The index of the first separator byte at or after `from`, or the
/// length.
fn find_sep(data: &[u8], from: usize) -> (r: usize)
    requires
        from <= data@.len(),
    ensures
        r == sep_index(data@, from as int),
{
    let mut k = from;
    while k < data.len()
        invariant
            from <= k <= data@.len(),
            sep_index(data@, from as int) == sep_index(data@, k as int),
        decreases data@.len() - k,
    {
        if data[k] == 3 {
            return k;
        }
        k += 1;
    }
    k
}

/// Reads a saved session back: the pattern is what comes before the first
/// separator, the text what comes between it and the next one (or the
/// end).
pub fn decode_state(data: &[u8]) -> (r: Result<(String, String), StateError>)
    requires
        data@.contains(3u8),
    ensures
        match r {
            Ok((p, t)) => decoded(data@) == Some((p@, t@)),
            Err(e) => decoded(data@) is None && e == StateError::InvalidUtf8,
        },
{
    let len = data.len();
    let first = find_sep(data, 0);
    proof {
        lemma_sep_index_bounds(data@, 0);
        let k = choose|k: int| 0 <= k < data@.len() && data@[k] == 3u8;
        assert(data@[k] == 3u8);
        assert(first < len);
    }
    let second = find_sep(data, first + 1);
    proof {
        lemma_sep_index_bounds(data@, first + 1);
    }
    let p = copy_range(data, 0, first);
    let t = copy_range(data, first + 1, second);
    let ps = utf8_string(p.as_slice());
    let ts = utf8_string(t.as_slice());
    match (ps, ts) {
        (Ok(a), Ok(b)) => Ok((a, b)),
        _ => Err(StateError::InvalidUtf8),
    }
}

// ---------------------------------------------------------------------------
// Saving and reading back
// ---------------------------------------------------------------------------

proof fn lemma_encode_concat(a: Seq<char>, b: Seq<char>)
    ensures
        encode_utf8(a + b) == encode_utf8(a) + encode_utf8(b),
    decreases a.len(),
{
    if a.len() > 0 {
        assert((a + b).drop_first() =~= a.drop_first() + b);
        assert((a + b)[0] == a[0]);
        lemma_encode_concat(a.drop_first(), b);
        assert(encode_utf8(a + b) =~= encode_utf8(a) + encode_utf8(b));
    } else {
        assert(a + b =~= b);
        assert(encode_utf8(a) + encode_utf8(b) =~= encode_utf8(b));
    }
}

proof fn lemma_scalar_no_sep(c: char)
    requires
        c != separator(),
    ensures
        !vstd::utf8::encode_scalar(c as u32).contains(3u8),
{
    let u = c as u32;
    let e = vstd::utf8::encode_scalar(u);
    if vstd::utf8::has_width_1_encoding(u) {
        assert(e =~= seq![vstd::utf8::leading_byte_width_1(u)]);
        assert(u != 3u32);
        assert(((u & 0x7Fu32) as u8) != 3u8) by (bit_vector)
            requires
                u != 3u32,
                u <= 0x7Fu32,
        ;
        assert(!e.contains(3u8)) by {
            if e.contains(3u8) {
                let k = choose|k: int| 0 <= k < e.len() && e[k] == 3u8;
                assert(k == 0);
            }
        }
    } else {
        assert forall|x: u8| (0x80u8 | x) != 3u8 by {
            assert((0x80u8 | x) != 3u8) by (bit_vector);
        }
        assert forall|x: u8| (0xC0u8 | x) != 3u8 by {
            assert((0xC0u8 | x) != 3u8) by (bit_vector);
        }
        assert forall|x: u8| (0xE0u8 | x) != 3u8 by {
            assert((0xE0u8 | x) != 3u8) by (bit_vector);
        }
        assert forall|x: u8| (0xF0u8 | x) != 3u8 by {
            assert((0xF0u8 | x) != 3u8) by (bit_vector);
        }
        assert forall|k: int| 0 <= k < e.len() implies e[k] != 3u8 by {}
    }
}

proof fn lemma_encode_no_sep(s: Seq<char>)
    requires
        !s.contains(separator()),
    ensures
        !encode_utf8(s).contains(3u8),
    decreases s.len(),
{
    if s.len() > 0 {
        assert(!s.drop_first().contains(separator())) by {
            if s.drop_first().contains(separator()) {
                let k = choose|k: int| 0 <= k < s.drop_first().len() && s.drop_first()[k] == separator();
                assert(s[k + 1] == separator());
            }
        }
        assert(s[0] != separator()) by {
            if s[0] == separator() {
                assert(s.contains(separator()));
            }
        }
        lemma_scalar_no_sep(s[0]);
        lemma_encode_no_sep(s.drop_first());
        let a = vstd::utf8::encode_scalar(s[0] as u32);
        let b = encode_utf8(s.drop_first());
        assert forall|k: int| 0 <= k < (a + b).len() implies (a + b)[k] != 3u8 by {
            if k < a.len() {
                assert(!a.contains(3u8));
                assert((a + b)[k] == a[k]);
            } else {
                assert(!b.contains(3u8));
                assert((a + b)[k] == b[k - a.len()]);
            }
        }
    }
}

proof fn lemma_sep_index_skip(b: Seq<u8>, from: int, to: int)
    requires
        0 <= from <= to <= b.len(),
        forall|k: int| from <= k < to ==> b[k] != 3u8,
    ensures
        sep_index(b, from) == sep_index(b, to),
    decreases to - from,
{
    if from < to {
        lemma_sep_index_skip(b, from + 1, to);
    }
}

/// A session whose pattern and text hold no U+0003 reads back, from the
/// bytes of its saved form, as the same pattern and text.
pub proof fn lemma_state_roundtrip(pattern: Seq<char>, text: Seq<char>)
    requires
        !pattern.contains(separator()),
        !text.contains(separator()),
    ensures
        decoded(encode_utf8(encoded(pattern, text))) == Some((pattern, text)),
{
    broadcast use vstd::utf8::encode_utf8_decode_utf8, vstd::utf8::encode_utf8_valid_utf8;

    let ep = encode_utf8(pattern);
    let et = encode_utf8(text);
    let es = encode_utf8(seq![separator()]);
    lemma_encode_concat(pattern + seq![separator()], text);
    lemma_encode_concat(pattern, seq![separator()]);
    assert(es =~= seq![3u8]) by {
        let one = seq![separator()];
        assert(one.drop_first() =~= Seq::<char>::empty());
        assert(one[0] as u32 == 3u32);
        assert(vstd::utf8::has_width_1_encoding(3u32));
        assert(((3u32 & 0x7Fu32) as u8) == 3u8) by (bit_vector);
        assert(vstd::utf8::encode_scalar(3u32) =~= seq![3u8]);
        assert(encode_utf8(one) =~= vstd::utf8::encode_scalar(one[0] as u32) + encode_utf8(one.drop_first()));
    }
    let b = encode_utf8(encoded(pattern, text));
    assert(b =~= ep + seq![3u8] + et);
    lemma_encode_no_sep(pattern);
    lemma_encode_no_sep(text);
    let n = ep.len() as int;
    assert forall|k: int| 0 <= k < n implies b[k] != 3u8 by {
        assert(b[k] == ep[k]);
    }
    lemma_sep_index_skip(b, 0, n);
    assert(sep_index(b, 0) == n);
    assert forall|k: int| n + 1 <= k < b.len() implies b[k] != 3u8 by {
        assert(b[k] == et[k - n - 1]);
    }
    lemma_sep_index_skip(b, n + 1, b.len() as int);
    assert(first_part(b) =~= ep);
    assert(second_part(b) =~= et);
}

} // verus!
