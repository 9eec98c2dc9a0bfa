//! Key derivation and parameter generation: a fresh B64 salt token and a
//! fresh 24-byte nonce for every encryption, and a 32-byte key derived from
//! the password and the salt by a memory-hard hash with default parameters.

use vstd::prelude::*;

use crate::errors::{CryptoError, Error};
use crate::text::is_ascii_space;

verus! {

/// Width of the nonce persisted at the front of every container.
pub const NONCE_SIZE: usize = 24;

/// Width of the derived key: the cipher's key length.
pub const KEY_SIZE: usize = 32;

/// Longest password the key derivation accepts, in bytes.
pub const MAX_PASSWORD: usize = 0xFFFF_FFFF;

/// Width of the B64 salt token this library generates: 16 random bytes,
/// encoded as 22 characters.
pub const SALT_LENGTH: usize = 22;

/// The 32-byte key that the memory-hard hash (with its default cost
/// parameters) derives from `password` and the B64 salt text `salt`. The key
/// is a function of these two values alone: deriving twice from the same
/// password and salt gives the same key.
pub uninterp spec fn derived_key(password: Seq<u8>, salt: Seq<u8>) -> Seq<u8>;

/// Whether the bytes `salt` are a salt token the key derivation accepts:
/// UTF-8 text of 11 to 64 B64 characters. Key derivation succeeds exactly on
/// such tokens.
pub uninterp spec fn is_valid_salt(salt: Seq<u8>) -> bool;

/// Whether `b` is a character of the B64 alphabet (the unpadded base64
/// variant of the PHC string format).
pub open spec fn is_b64_byte(b: u8) -> bool {
    ||| 0x41 <= b <= 0x5a  // 'A'..='Z'
    ||| 0x61 <= b <= 0x7a  // 'a'..='z'
    ||| 0x30 <= b <= 0x39  // '0'..='9'
    ||| b == 0x2b  // '+'
    ||| b == 0x2f  // '/'
}

/// Relies on `getrandom::fill`, `phc::Salt::new` and
/// `phc::SaltString`'s B64 encoding: 16 random bytes become a 22-character
/// B64 token, which the key derivation accepts (`Salt::from_b64` takes 11 to
/// 64 B64 characters, and a 22-character token decodes to 16 bytes, within
/// the hash's salt bounds). `None` only when the random source fails.
#[verifier::external_body]
fn generate_salt_raw() -> (r: Option<Vec<u8>>)
    ensures
        match r {
            Some(s) => {
                &&& s@.len() == SALT_LENGTH
                &&& forall|i: int| 0 <= i < s@.len() ==> is_b64_byte(#[trigger] s@[i])
                &&& is_valid_salt(s@)
            },
            None => true,
        },
{
    let mut bytes = [0u8; 16];
    if getrandom::fill(&mut bytes).is_err() {
        return None;
    }
    let salt = argon2::password_hash::phc::Salt::new(&bytes)
        .expect("a 16-byte salt is within the accepted bounds");
    let token = salt.to_salt_string();
    Some(token.as_bytes().to_vec())
}

/// Relies on `getrandom::fill`: 24 fresh bytes from the operating system's
/// random source. Nothing is assumed about their values. `None` only when
/// the random source fails.
#[verifier::external_body]
fn generate_nonce_raw() -> (r: Option<Vec<u8>>)
    ensures
        match r {
            Some(n) => n@.len() == NONCE_SIZE,
            None => true,
        },
{
    let mut nonce = [0u8; NONCE_SIZE];
    match getrandom::fill(&mut nonce) {
        Ok(()) => Some(nonce.to_vec()),
        Err(_) => None,
    }
}

/// Relies on `phc::Salt::from_b64` and `argon2::Argon2::hash_password_into`
/// with default parameters: derivation succeeds exactly when `salt` is UTF-8
/// text that `from_b64` accepts (11 to 64 B64 characters, which decode to at
/// least the hash's 8-byte minimum salt), and the derived 32 bytes are a
/// function of the password and the salt text alone. Allocation of the
/// hash's working memory is assumed to succeed, as allocation is throughout.
#[verifier::external_body]
fn derive_key_raw(password: &[u8], salt: &[u8]) -> (r: Option<Vec<u8>>)
    requires
        password@.len() <= MAX_PASSWORD,
    ensures
        r is Some <==> is_valid_salt(salt@),
        match r {
            Some(k) => k@ == derived_key(password@, salt@) && k@.len() == KEY_SIZE,
            None => true,
        },
{
    let text = match core::str::from_utf8(salt) {
        Ok(t) => t,
        Err(_) => return None,
    };
    let parsed = match argon2::password_hash::phc::Salt::from_b64(text) {
        Ok(s) => s,
        Err(_) => return None,
    };
    let mut key = [0u8; KEY_SIZE];
    match argon2::Argon2::default().hash_password_into(password, &parsed, &mut key) {
        Ok(()) => Some(key.to_vec()),
        Err(_) => None,
    }
}

/// The per-operation cryptographic material: the salt text persisted
/// unencrypted in the container, the nonce persisted after it, and the
/// derived key, which is never persisted.
pub struct EncryptionParameters {
    /// B64 salt text, the container's first (newline-terminated) line.
    pub salt: Vec<u8>,
    /// Raw nonce bytes, persisted right after the salt line.
    pub nonce: Vec<u8>,
    /// The key derived from password and salt.
    pub key: Vec<u8>,
}

impl EncryptionParameters {
    /// Parameters a container can be framed around: the salt is non-empty
    /// text without newline or surrounding white space (so the salt line
    /// parses back to exactly this salt), and nonce and key have the
    /// cipher's widths.
    pub open spec fn wf(self) -> bool {
        &&& 0 < self.salt@.len()
        &&& forall|i: int| 0 <= i < self.salt@.len() ==> !is_ascii_space(#[trigger] self.salt@[i])
        &&& self.nonce@.len() == NONCE_SIZE
        &&& self.key@.len() == KEY_SIZE
    }
}

/// Fresh parameters for one encryption: a new salt and a new nonce from the
/// random source, and the key derived from them. Only a failing random
/// source is an error; the key is always derived from the fresh salt.
pub fn make_params(password: &[u8]) -> (r: Result<EncryptionParameters, Error>)
    requires
        password@.len() <= MAX_PASSWORD,
    ensures
        match r {
            Ok(p) => {
                &&& p.wf()
                &&& p.salt@.len() == SALT_LENGTH
                &&& is_valid_salt(p.salt@)
                &&& p.key@ == derived_key(password@, p.salt@)
            },
            Err(e) => e == Error::Crypto(CryptoError::RandomSource),
        },
{
    let salt = match generate_salt_raw() {
        Some(s) => s,
        None => {
            return Err(Error::Crypto(CryptoError::RandomSource));
        },
    };
    let nonce = match generate_nonce_raw() {
        Some(n) => n,
        None => {
            return Err(Error::Crypto(CryptoError::RandomSource));
        },
    };
    let key = match derive_key_raw(password, salt.as_slice()) {
        Some(k) => k,
        None => {
            // A fresh salt is always a valid token, so derivation cannot
            // refuse it; nothing reaches this arm.
            return Err(Error::Crypto(CryptoError::RandomSource));
        },
    };
    proof {
        assert forall|i: int| 0 <= i < salt@.len() implies !is_ascii_space(#[trigger] salt@[i]) by {
            assert(is_b64_byte(salt@[i]));
        }
    }
    Ok(EncryptionParameters { salt, nonce, key })
}

/// The key for decrypting a container that persisted `salt`: derived again
/// from the password and that salt. Fails exactly when the salt is not a
/// token the key derivation accepts.
pub fn derive_key_checked(password: &[u8], salt: &[u8]) -> (r: Result<Vec<u8>, Error>)
    requires
        password@.len() <= MAX_PASSWORD,
    ensures
        r is Ok <==> is_valid_salt(salt@),
        match r {
            Ok(k) => k@ == derived_key(password@, salt@) && k@.len() == KEY_SIZE,
            Err(e) => e == Error::Crypto(CryptoError::InvalidSalt),
        },
{
    match derive_key_raw(password, salt) {
        Some(key) => Ok(key),
        None => Err(Error::Crypto(CryptoError::InvalidSalt)),
    }
}

} // verus!
