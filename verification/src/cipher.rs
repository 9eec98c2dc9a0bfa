//! The stream cipher underneath every container: an XChaCha20 keystream,
//! addressed by byte position, XORed over the data. A [`CipherStream`] keeps
//! the running position so that the header record and the payload of one
//! container are transformed by a single continuous keystream.

use vstd::prelude::*;

use chacha20::cipher::{KeyIvInit, StreamCipher as StreamCipherTrait, StreamCipherSeek};

verus! {

/// The keystream positions this library uses stay below this bound
/// (64 GiB); the cipher itself runs out of keystream only far above it.
pub const MAX_STREAM: u64 = 0x10_0000_0000;

/// The byte of the XChaCha20 keystream at position `i` for the given key and
/// nonce. The keystream is a function of these three values alone; nothing
/// more is assumed about its bytes.
pub uninterp spec fn keystream_byte(key: Seq<u8>, nonce: Seq<u8>, i: int) -> u8;

/// `data` XORed with the keystream for `key` and `nonce`, starting at
/// keystream position `pos`. Applying it twice at the same position restores
/// `data`: see [`lemma_apply_twice`].
pub open spec fn spec_apply_keystream(
    key: Seq<u8>,
    nonce: Seq<u8>,
    pos: int,
    data: Seq<u8>,
) -> Seq<u8> {
    Seq::new(data.len(), |i: int| data[i] ^ keystream_byte(key, nonce, pos + i))
}

/// XORing with the keystream is an involution: transforming the same bytes
/// twice at the same position gives them back. This is what makes every
/// encryption reversible by the matching decryption.
pub proof fn lemma_apply_twice(key: Seq<u8>, nonce: Seq<u8>, pos: int, data: Seq<u8>)
    ensures
        spec_apply_keystream(key, nonce, pos, spec_apply_keystream(key, nonce, pos, data))
            == data,
{
    let once = spec_apply_keystream(key, nonce, pos, data);
    let twice = spec_apply_keystream(key, nonce, pos, once);
    assert forall|i: int| 0 <= i < data.len() implies twice[i] == data[i] by {
        let d = data[i];
        let k = keystream_byte(key, nonce, pos + i);
        assert((d ^ k) ^ k == d) by (bit_vector);
    }
    assert(twice =~= data);
}

/// The keystream transform of a concatenation splits at the seam: the second
/// part is transformed at the position the first part ends. This is why
/// chunk-by-chunk transformation equals one-shot transformation.
pub proof fn lemma_apply_concat(key: Seq<u8>, nonce: Seq<u8>, pos: int, a: Seq<u8>, b: Seq<u8>)
    ensures
        spec_apply_keystream(key, nonce, pos, a + b) == spec_apply_keystream(key, nonce, pos, a)
            + spec_apply_keystream(key, nonce, pos + a.len(), b),
{
    assert(spec_apply_keystream(key, nonce, pos, a + b) =~= spec_apply_keystream(
        key,
        nonce,
        pos,
        a,
    ) + spec_apply_keystream(key, nonce, pos + a.len(), b));
}

/// A piece of the keystream transform is the transform of the piece, started
/// at the piece's own position.
pub proof fn lemma_apply_subrange(
    key: Seq<u8>,
    nonce: Seq<u8>,
    pos: int,
    data: Seq<u8>,
    a: int,
    b: int,
)
    requires
        0 <= a <= b <= data.len(),
    ensures
        spec_apply_keystream(key, nonce, pos, data).subrange(a, b) == spec_apply_keystream(
            key,
            nonce,
            pos + a,
            data.subrange(a, b),
        ),
{
    assert(spec_apply_keystream(key, nonce, pos, data).subrange(a, b) =~= spec_apply_keystream(
        key,
        nonce,
        pos + a,
        data.subrange(a, b),
    ));
}

/// Relies on `chacha20::XChaCha20` with `cipher`'s `KeyIvInit::new_from_slices`,
/// `StreamCipherSeek::seek` and `StreamCipher::apply_keystream`: the cipher's
/// keystream is a deterministic function of key, nonce and byte position, so
/// seeking to `pos` and applying XORs `data[i]` with the keystream byte at
/// `pos + i`. Positions below [`MAX_STREAM`] are far inside the range the
/// cipher's 32-bit block counter serves.
#[verifier::external_body]
fn xchacha20_apply(key: &[u8], nonce: &[u8], pos: u64, data: &mut Vec<u8>)
    requires
        key@.len() == 32,
        nonce@.len() == 24,
        pos + old(data)@.len() <= MAX_STREAM,
    ensures
        final(data)@.len() == old(data)@.len(),
        forall|i: int|
            0 <= i < old(data)@.len() ==> final(data)@[i] == old(data)@[i] ^ keystream_byte(
                key@,
                nonce@,
                pos + i,
            ),
{
    let mut cipher = chacha20::XChaCha20::new_from_slices(key, nonce)
        .expect("key and nonce lengths are checked by the caller");
    cipher.seek(pos);
    cipher.apply_keystream(data.as_mut_slice());
}

/// A stream cipher instance: a key, a nonce and the current keystream
/// position. Successive [`CipherStream::apply_keystream`] calls consume the
/// keystream in order, exactly as one long transformation would.
pub struct CipherStream {
    key: Vec<u8>,
    nonce: Vec<u8>,
    pos: u64,
}

impl CipherStream {
    /// The cipher's key bytes.
    pub closed spec fn key(self) -> Seq<u8> {
        self.key@
    }

    /// The cipher's nonce bytes.
    pub closed spec fn nonce(self) -> Seq<u8> {
        self.nonce@
    }

    /// The keystream position: how many keystream bytes were consumed.
    pub closed spec fn pos(self) -> int {
        self.pos as int
    }

    /// A usable cipher: proper key and nonce widths, position in range.
    pub open spec fn wf(self) -> bool {
        &&& self.key().len() == 32
        &&& self.nonce().len() == 24
        &&& 0 <= self.pos() <= MAX_STREAM
    }

    /// A fresh cipher at keystream position zero.
    pub fn new(key: Vec<u8>, nonce: Vec<u8>) -> (r: Self)
        requires
            key@.len() == 32,
            nonce@.len() == 24,
        ensures
            r.wf(),
            r.key() == key@,
            r.nonce() == nonce@,
            r.pos() == 0,
    {
        CipherStream { key, nonce, pos: 0 }
    }

    /// The current keystream position.
    pub fn position(&self) -> (r: u64)
        ensures
            r == self.pos(),
    {
        self.pos
    }

    /// Transform `data` in place with the next `data.len()` keystream bytes,
    /// advancing the position past them.
    pub fn apply_keystream(&mut self, data: &mut Vec<u8>)
        requires
            old(self).wf(),
            old(self).pos() + old(data)@.len() <= MAX_STREAM,
        ensures
            final(self).wf(),
            final(self).key() == old(self).key(),
            final(self).nonce() == old(self).nonce(),
            final(self).pos() == old(self).pos() + old(data)@.len(),
            final(data)@ == spec_apply_keystream(
                old(self).key(),
                old(self).nonce(),
                old(self).pos(),
                old(data)@,
            ),
    {
        xchacha20_apply(self.key.as_slice(), self.nonce.as_slice(), self.pos, data);
        proof {
            assert(data@ =~= spec_apply_keystream(
                old(self).key(),
                old(self).nonce(),
                old(self).pos(),
                old(data)@,
            ));
        }
        self.pos = self.pos + data.len() as u64;
    }
}

} // verus!
