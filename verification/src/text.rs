//! Bytes-to-text conversions: the one trusted UTF-8 decoding step, and what
//! ASCII byte sequences mean as text.

use vstd::prelude::*;

use vstd::utf8::{
    decode_utf8, encode_utf8, encode_utf8_decode_utf8, encode_utf8_valid_utf8, is_ascii_chars,
    is_ascii_chars_encode_utf8, valid_utf8,
};

verus! {

/// Relies on `String::from_utf8` of std: it succeeds exactly on valid UTF-8
/// and decodes it, byte-faithfully, to the text the bytes encode.
#[verifier::external_body]
pub fn string_from_utf8(bytes: Vec<u8>) -> (r: Option<String>)
    ensures
        r is Some <==> valid_utf8(bytes@),
        match r {
            Some(s) => s@ == decode_utf8(bytes@),
            None => true,
        },
{
    match String::from_utf8(bytes) {
        Ok(s) => Some(s),
        Err(_) => None,
    }
}

/// The text that a sequence of ASCII bytes spells: each byte read as the
/// character with the same value.
pub open spec fn ascii_view(b: Seq<u8>) -> Seq<char> {
    Seq::new(b.len(), |i: int| b[i] as char)
}

/// Whether `b` is one of the ASCII white-space bytes that are stripped from
/// the ends of the container's salt line.
pub open spec fn is_ascii_space(b: u8) -> bool {
    b == 0x20 || b == 0x09 || b == 0x0a || b == 0x0d
}

/// Where the white space at the front of `s` ends.
pub open spec fn spec_trim_start_idx(s: Seq<u8>) -> int
    decreases s.len(),
{
    if s.len() == 0 {
        0
    } else if !is_ascii_space(s[0]) {
        0
    } else {
        1 + spec_trim_start_idx(s.subrange(1, s.len() as int))
    }
}

/// Where the white space at the back of `s` begins.
pub open spec fn spec_trim_end_idx(s: Seq<u8>) -> int
    decreases s.len(),
{
    if s.len() == 0 {
        0
    } else if !is_ascii_space(s.last()) {
        s.len() as int
    } else {
        spec_trim_end_idx(s.drop_last())
    }
}

/// `s` with ASCII white space stripped from both ends (and nothing else).
pub open spec fn spec_trim_ascii(s: Seq<u8>) -> Seq<u8> {
    if spec_trim_start_idx(s) <= spec_trim_end_idx(s) {
        s.subrange(spec_trim_start_idx(s), spec_trim_end_idx(s))
    } else {
        Seq::empty()
    }
}

/// The trim indexes stay within the sequence.
pub proof fn lemma_trim_idx_bounds(s: Seq<u8>)
    ensures
        0 <= spec_trim_start_idx(s) <= s.len(),
        0 <= spec_trim_end_idx(s) <= s.len(),
    decreases s.len(),
{
    if s.len() > 0 {
        lemma_trim_idx_bounds(s.subrange(1, s.len() as int));
        lemma_trim_idx_bounds(s.drop_last());
    }
}

/// The front trim index is exactly the first non-space position.
pub proof fn lemma_trim_start_idx(s: Seq<u8>, i: int)
    requires
        0 <= i <= s.len(),
        forall|k: int| 0 <= k < i ==> is_ascii_space(#[trigger] s[k]),
        i < s.len() ==> !is_ascii_space(s[i]),
    ensures
        spec_trim_start_idx(s) == i,
    decreases i,
{
    if i > 0 {
        let tail = s.subrange(1, s.len() as int);
        assert(is_ascii_space(s[0]));
        assert forall|k: int| 0 <= k < i - 1 implies is_ascii_space(#[trigger] tail[k]) by {
            assert(tail[k] == s[k + 1]);
        }
        lemma_trim_start_idx(tail, i - 1);
    }
}

/// The back trim index is exactly one past the last non-space position.
pub proof fn lemma_trim_end_idx(s: Seq<u8>, j: int)
    requires
        0 <= j <= s.len(),
        forall|k: int| j <= k < s.len() ==> is_ascii_space(#[trigger] s[k]),
        j > 0 ==> !is_ascii_space(s[j - 1]),
    ensures
        spec_trim_end_idx(s) == j,
    decreases s.len() - j,
{
    if j < s.len() {
        let front = s.drop_last();
        assert(is_ascii_space(s.last()));
        assert forall|k: int| j <= k < front.len() implies is_ascii_space(#[trigger] front[k]) by {
            assert(front[k] == s[k]);
        }
        lemma_trim_end_idx(front, j);
    }
}

/// Trimming text that has no white space at either end changes nothing.
pub proof fn lemma_trim_identity(s: Seq<u8>)
    requires
        s.len() > 0 ==> !is_ascii_space(s[0]),
        s.len() > 0 ==> !is_ascii_space(s.last()),
    ensures
        spec_trim_ascii(s) == s,
{
    lemma_trim_start_idx(s, 0);
    lemma_trim_end_idx(s, s.len() as int);
    assert(s.subrange(0, s.len() as int) =~= s);
}

/// The first byte of `v` equal to `target`, by scanning from the front.
pub fn find_byte(v: &[u8], target: u8) -> (r: Option<usize>)
    ensures
        match r {
            Some(i) => v@.index_of_first(target) == Some(i as int),
            None => v@.index_of_first(target) == None::<int>,
        },
{
    let mut i: usize = 0;
    while i < v.len()
        invariant
            i <= v@.len(),
            forall|k: int| 0 <= k < i ==> v@[k] != target,
        decreases v@.len() - i,
    {
        if v[i] == target {
            proof {
                v@.index_of_first_ensures(target);
                assert(v@.contains(target)) by {
                    assert(v@[i as int] == target);
                }
            }
            return Some(i);
        }
        i = i + 1;
    }
    proof {
        v@.index_of_first_ensures(target);
        if v@.contains(target) {
            let w = choose|k: int| 0 <= k < v@.len() && v@[k] == target;
            assert(v@[w] != target);
        }
    }
    None
}

/// Whether `b` is one of the white-space bytes trimming strips.
fn is_space_byte(b: u8) -> (r: bool)
    ensures
        r == is_ascii_space(b),
{
    b == 0x20 || b == 0x09 || b == 0x0a || b == 0x0d
}

/// `v` with ASCII white space stripped from both ends, as the salt line of a
/// container is before the salt is decoded.
pub fn trim_ascii_bytes(v: &Vec<u8>) -> (r: Vec<u8>)
    ensures
        r@ == spec_trim_ascii(v@),
{
    let mut i: usize = 0;
    while i < v.len() && is_space_byte(v[i])
        invariant
            i <= v@.len(),
            forall|k: int| 0 <= k < i ==> is_ascii_space(#[trigger] v@[k]),
        decreases v@.len() - i,
    {
        i = i + 1;
    }
    let mut j: usize = v.len();
    while j > i && is_space_byte(v[j - 1])
        invariant
            i <= j <= v@.len(),
            forall|k: int| j <= k < v@.len() ==> is_ascii_space(#[trigger] v@[k]),
        decreases j,
    {
        j = j - 1;
    }
    let r = vstd::slice::slice_to_vec(vstd::slice::slice_subrange(v.as_slice(), i, j));
    proof {
        lemma_trim_idx_bounds(v@);
        if i == j {
            lemma_trim_start_idx(v@, i as int);
            assert(r@ =~= spec_trim_ascii(v@));
        } else {
            lemma_trim_start_idx(v@, i as int);
            lemma_trim_end_idx(v@, j as int);
        }
    }
    r
}

/// ASCII bytes are valid UTF-8 and decode to themselves, character for
/// character.
pub proof fn lemma_ascii_bytes_utf8(b: Seq<u8>)
    requires
        forall|i: int| 0 <= i < b.len() ==> #[trigger] b[i] < 0x80,
    ensures
        valid_utf8(b),
        decode_utf8(b) == ascii_view(b),
{
    let chars = ascii_view(b);
    assert forall|i: int| 0 <= i < chars.len() implies '\0' <= #[trigger] chars[i] <= '\u{7f}' by {
        assert(b[i] < 0x80);
        assert(chars[i] == b[i] as char);
    }
    assert(is_ascii_chars(chars));
    is_ascii_chars_encode_utf8(chars);
    assert forall|i: int| 0 <= i < chars.len() implies #[trigger] encode_utf8(chars)[i] == b[i] by {
        assert(chars[i] as u8 == encode_utf8(chars)[i]);
    }
    assert(encode_utf8(chars) =~= b);
    encode_utf8_valid_utf8(chars);
    encode_utf8_decode_utf8(chars);
}

} // verus!
