//! The container format and the operations over it. A container is the
//! ordered concatenation of a plaintext salt line, a plaintext nonce, one
//! fixed-width encrypted header record and the encrypted payload — header
//! and payload transformed by one continuous keystream. Encrypting builds
//! that concatenation; decrypting takes it apart and undoes the keystream.

use vstd::prelude::*;

use crate::FILE_HEADER_SIZE;
use crate::cipher::{CipherStream, MAX_STREAM, lemma_apply_concat, lemma_apply_twice, spec_apply_keystream};
use crate::errors::{CryptoError, Error, FormatError};
use crate::header::{
    FileHeader, FileHeaderV, lemma_header_record_len, lemma_header_round_trip, spec_header_fits,
    spec_header_parse, spec_header_record, spec_method_tag,
};
use crate::kdf::{
    EncryptionParameters, MAX_PASSWORD, NONCE_SIZE, SALT_LENGTH, derive_key_checked, derived_key,
    is_valid_salt, make_params,
};
use crate::stream::{DecryptingReader, EncryptingWriter};
use crate::text::{find_byte, is_ascii_space, lemma_trim_identity, spec_trim_ascii, trim_ascii_bytes};
use vstd::slice::{slice_subrange, slice_to_vec};
use vstd::string::StringExecFns;

verus! {

/// Where a container's salt line ends: the first newline byte, if any.
pub open spec fn spec_salt_end(c: Seq<u8>) -> Option<int> {
    c.index_of_first(10u8)
}

/// The salt a container persists: its first line, trimmed of surrounding
/// ASCII white space.
pub open spec fn container_salt(c: Seq<u8>) -> Seq<u8> {
    match spec_salt_end(c) {
        Some(nl) => spec_trim_ascii(c.subrange(0, nl)),
        None => Seq::empty(),
    }
}

/// The nonce a container persists: the bytes right after the salt line.
pub open spec fn container_nonce(c: Seq<u8>) -> Seq<u8> {
    match spec_salt_end(c) {
        Some(nl) => c.subrange(nl + 1, nl + 1 + NONCE_SIZE as int),
        None => Seq::empty(),
    }
}

/// The container written for `content` under header `h` with the given salt
/// line, nonce and key: salt line, nonce, then header record and content
/// transformed by one keystream from position zero.
pub open spec fn spec_container(
    content: Seq<u8>,
    h: FileHeaderV,
    salt: Seq<u8>,
    nonce: Seq<u8>,
    key: Seq<u8>,
) -> Seq<u8> {
    salt + seq![10u8] + nonce + spec_apply_keystream(key, nonce, 0, spec_header_record(h) + content)
}

/// What decrypting container bytes `c` with `password` yields: the header
/// and the payload, or the first failure — no salt line, a salt the key
/// derivation rejects, a container too short for nonce or header record, or
/// a header record that does not decode.
pub open spec fn spec_decrypt(c: Seq<u8>, password: Seq<u8>) -> Result<
    (FileHeaderV, Seq<u8>),
    Error,
> {
    match spec_salt_end(c) {
        None => Err(Error::Format(FormatError::MissingSaltLine)),
        Some(nl) => {
            let salt = spec_trim_ascii(c.subrange(0, nl));
            if !is_valid_salt(salt) {
                Err(Error::Crypto(CryptoError::InvalidSalt))
            } else if c.len() < nl + 1 + NONCE_SIZE {
                Err(Error::Format(FormatError::Truncated))
            } else {
                let nonce = c.subrange(nl + 1, nl + 1 + NONCE_SIZE as int);
                let key = derived_key(password, salt);
                let body = c.subrange(nl + 1 + NONCE_SIZE as int, c.len() as int);
                if body.len() < FILE_HEADER_SIZE {
                    Err(Error::Format(FormatError::Truncated))
                } else {
                    let plain = spec_apply_keystream(key, nonce, 0, body);
                    match spec_header_parse(plain.take(FILE_HEADER_SIZE as int)) {
                        Err(e) => Err(e),
                        Ok(h) => Ok((h, plain.skip(FILE_HEADER_SIZE as int))),
                    }
                }
            }
        },
    }
}

/// In `salt + newline + rest`, the first newline is the one appended after
/// the salt, as long as the salt itself has none.
proof fn lemma_first_newline_after(salt: Seq<u8>, rest: Seq<u8>)
    requires
        forall|i: int| 0 <= i < salt.len() ==> salt[i] != 10u8,
    ensures
        spec_salt_end(salt + seq![10u8] + rest) == Some(salt.len() as int),
{
    let c = salt + seq![10u8] + rest;
    c.index_of_first_ensures(10u8);
    assert(c.contains(10u8)) by {
        assert(c[salt.len() as int] == 10u8);
    }
    let idx = c.index_of_first(10u8)->Some_0;
    assert(c[idx] == 10u8);
    if idx < salt.len() {
        assert(c[idx] == salt[idx]);
    }
    if idx > salt.len() {
        assert(c[salt.len() as int] != 10u8);
    }
}

/// Encrypt `content` under `header` with fixed parameters: the result is
/// exactly the container for those parameters. Fails only when name and
/// path do not fit the header record.
pub fn encrypt_with_params(
    content: &Vec<u8>,
    header: &FileHeader,
    params: EncryptionParameters,
    progress: Option<crossbeam::channel::Sender<u64>>,
) -> (r: Result<Vec<u8>, Error>)
    requires
        params.wf(),
        content@.len() + FILE_HEADER_SIZE <= MAX_STREAM,
    ensures
        r is Ok <==> spec_header_fits(header@),
        match r {
            Ok(c) => c@ == spec_container(
                content@,
                header@,
                params.salt@,
                params.nonce@,
                params.key@,
            ) && c@.len() == params.salt@.len() + 1 + NONCE_SIZE + FILE_HEADER_SIZE
                + content@.len(),
            Err(e) => e == Error::Format(FormatError::RecordTooLarge),
        },
{
    let ghost key_v = params.key@;
    let ghost nonce_v = params.nonce@;
    let ghost salt_v = params.salt@;
    let mut record = match header.to_vec() {
        Ok(v) => v,
        Err(e) => {
            return Err(e);
        },
    };
    let ghost record_v = record@;
    proof {
        lemma_header_record_len(header@);
        assert(record_v.len() == FILE_HEADER_SIZE);
    }
    let mut out: Vec<u8> = Vec::new();
    let mut salt = params.salt;
    out.append(&mut salt);
    out.push(10u8);
    out.extend_from_slice(params.nonce.as_slice());
    let mut cipher = CipherStream::new(params.key, params.nonce);
    cipher.apply_keystream(&mut record);
    out.append(&mut record);
    let mut writer = EncryptingWriter::new(cipher);
    match progress {
        Some(sender) => writer.set_progress_sender(sender),
        None => {},
    }
    writer.write(content.as_slice());
    writer.flush();
    let mut tail = writer.take_output();
    proof {
        assert(tail@ =~= spec_apply_keystream(key_v, nonce_v, FILE_HEADER_SIZE as int, content@));
    }
    out.append(&mut tail);
    proof {
        lemma_apply_concat(key_v, nonce_v, 0, record_v, content@);
        assert(out@ =~= spec_container(content@, header@, salt_v, nonce_v, key_v));
    }
    Ok(out)
}

/// Encrypt `content` under `header` with a password: fresh salt and nonce
/// are drawn, the key is derived from password and salt, and the container
/// is written. Whatever salt and nonce were drawn, the result is exactly
/// their container — and decrypting it with the same password gives the
/// content back. Fails only when name and path do not fit the header record
/// or the random source fails.
pub fn encrypt_container(
    content: &Vec<u8>,
    header: &FileHeader,
    password: &[u8],
    progress: Option<crossbeam::channel::Sender<u64>>,
) -> (r: Result<Vec<u8>, Error>)
    requires
        password@.len() <= MAX_PASSWORD,
        content@.len() + FILE_HEADER_SIZE + SALT_LENGTH + 1 + NONCE_SIZE <= MAX_STREAM,
    ensures
        match r {
            Ok(c) => {
                &&& spec_header_fits(header@)
                &&& c@.len() == content@.len() + FILE_HEADER_SIZE + SALT_LENGTH + 1 + NONCE_SIZE
                &&& c@.len() <= MAX_STREAM
                &&& is_valid_salt(container_salt(c@))
                &&& c@ == spec_container(
                    content@,
                    header@,
                    container_salt(c@),
                    container_nonce(c@),
                    derived_key(password@, container_salt(c@)),
                )
                &&& spec_decrypt(c@, password@) == Ok::<(FileHeaderV, Seq<u8>), Error>(
                    (header@, content@),
                )
            },
            Err(e) => e == Error::Crypto(CryptoError::RandomSource) || (e == Error::Format(
                FormatError::RecordTooLarge,
            ) && !spec_header_fits(header@)),
        },
        spec_header_fits(header@) ==> (r is Ok || r == Err::<Vec<u8>, Error>(
            Error::Crypto(CryptoError::RandomSource),
        )),
{
    let params = match make_params(password) {
        Ok(p) => p,
        Err(e) => {
            return Err(e);
        },
    };
    let ghost salt_v = params.salt@;
    let ghost nonce_v = params.nonce@;
    match encrypt_with_params(content, header, params, progress) {
        Ok(c) => {
            proof {
                let body0 = spec_apply_keystream(
                    derived_key(password@, salt_v),
                    nonce_v,
                    0,
                    spec_header_record(header@) + content@,
                );
                assert forall|i: int| 0 <= i < salt_v.len() implies salt_v[i] != 10u8 by {
                    assert(!is_ascii_space(salt_v[i]));
                }
                assert(c@ =~= salt_v + seq![10u8] + (nonce_v + body0));
                lemma_first_newline_after(salt_v, nonce_v + body0);
                let nl = salt_v.len() as int;
                assert(c@.subrange(0, nl) =~= salt_v);
                lemma_trim_identity(salt_v);
                assert(container_salt(c@) == salt_v);
                assert(container_nonce(c@) =~= nonce_v);
                lemma_container_round_trip(content@, header@, salt_v, nonce_v, password@);
            }
            Ok(c)
        },
        Err(e) => Err(e),
    }
}

/// Decrypt container bytes with a password: parse the salt line, re-derive
/// the key, take the nonce, decrypt the fixed-width header record through
/// the reader and decode it, then decrypt the rest of the stream as the
/// payload — all with one continuous keystream. The result is exactly what
/// [`spec_decrypt`] says, error cases included.
///
/// Nothing authenticates the container: a wrong password is caught only
/// when the decrypted header record fails to decode, and a tampered payload
/// decrypts to corrupted bytes without any error.
pub fn decrypt_container(
    container: &Vec<u8>,
    password: &[u8],
    progress: Option<crossbeam::channel::Sender<u64>>,
) -> (r: Result<(FileHeader, Vec<u8>), Error>)
    requires
        password@.len() <= MAX_PASSWORD,
        container@.len() <= MAX_STREAM,
    ensures
        match r {
            Ok(p) => spec_decrypt(container@, password@) == Ok::<(FileHeaderV, Seq<u8>), Error>(
                (p.0@, p.1@),
            ),
            Err(e) => spec_decrypt(container@, password@) == Err::<(FileHeaderV, Seq<u8>), Error>(
                e,
            ),
        },
{
    let nl = match find_byte(container.as_slice(), 10u8) {
        Some(i) => i,
        None => {
            return Err(Error::Format(FormatError::MissingSaltLine));
        },
    };
    proof {
        container@.index_of_first_ensures(10u8);
    }
    let salt_line = slice_to_vec(slice_subrange(container.as_slice(), 0, nl));
    let salt = trim_ascii_bytes(&salt_line);
    let key = match derive_key_checked(password, salt.as_slice()) {
        Ok(k) => k,
        Err(e) => {
            return Err(e);
        },
    };
    if container.len() - nl - 1 < NONCE_SIZE {
        return Err(Error::Format(FormatError::Truncated));
    }
    let nonce = slice_to_vec(slice_subrange(container.as_slice(), nl + 1, nl + 1 + NONCE_SIZE));
    let body = slice_to_vec(
        slice_subrange(container.as_slice(), nl + 1 + NONCE_SIZE, container.len()),
    );
    let cipher = CipherStream::new(key, nonce);
    let mut reader = DecryptingReader::new(body, cipher);
    let ghost plain = reader.decrypted_input();
    let header_bytes = match reader.read_exact(FILE_HEADER_SIZE) {
        Some(v) => v,
        None => {
            return Err(Error::Format(FormatError::Truncated));
        },
    };
    proof {
        assert(header_bytes@ =~= plain.take(FILE_HEADER_SIZE as int));
    }
    let file_h = match FileHeader::from_vec(header_bytes.as_slice()) {
        Ok(h) => h,
        Err(e) => {
            return Err(e);
        },
    };
    match progress {
        Some(sender) => reader.set_progress_sender(sender),
        None => {},
    }
    let payload = reader.read_to_end();
    proof {
        assert(payload@ =~= plain.skip(FILE_HEADER_SIZE as int));
    }
    Ok((file_h, payload))
}

/// The path a container is written to by default: the input's file name
/// under the output directory, with the container extension appended.
pub open spec fn spec_default_output(
    output_dir: Seq<char>,
    file_name: Seq<char>,
    separator: Seq<char>,
) -> Seq<char> {
    output_dir + separator + file_name + ".snc"@
}

/// The path a container is actually written to: the default, unless that
/// equals the input path, in which case a suffix is inserted before the
/// extension so the input is never overwritten.
pub open spec fn spec_output_path(
    input_path: Seq<char>,
    output_dir: Seq<char>,
    file_name: Seq<char>,
    separator: Seq<char>,
) -> Seq<char> {
    if spec_default_output(output_dir, file_name, separator) == input_path {
        output_dir + separator + file_name + " - new.snc"@
    } else {
        spec_default_output(output_dir, file_name, separator)
    }
}

/// Compute the output path for a container: `output_dir`, `separator` and
/// `file_name` joined, with the container extension appended — disambiguated
/// when that collides with the input path. The result never equals the
/// input path.
pub fn resolve_output_path(
    input_path: &str,
    output_dir: &str,
    file_name: &str,
    separator: &str,
) -> (r: String)
    ensures
        r@ == spec_output_path(input_path@, output_dir@, file_name@, separator@),
        r@ != input_path@,
{
    let mut default = String::new();
    default.append(output_dir);
    default.append(separator);
    default.append(file_name);
    default.append(".snc");
    let input_owned = input_path.to_owned();
    if default == input_owned {
        let mut renamed = String::new();
        renamed.append(output_dir);
        renamed.append(separator);
        renamed.append(file_name);
        renamed.append(" - new.snc");
        proof {
            reveal_strlit(".snc");
            reveal_strlit(" - new.snc");
            assert(renamed@.len() != input_path@.len());
        }
        renamed
    } else {
        default
    }
}

/// Round trip: decrypting the container written for any content, fitting
/// header, well-formed salt and nonce, with the key derived from any
/// password, yields exactly that header and content back. Together with
/// [`spec_decrypt`]'s error cases this is what makes every encryption
/// reversible by its matching decryption.
pub proof fn lemma_container_round_trip(
    content: Seq<u8>,
    h: FileHeaderV,
    salt: Seq<u8>,
    nonce: Seq<u8>,
    password: Seq<u8>,
)
    requires
        spec_header_fits(h),
        spec_method_tag(h.encryption) == 1,
        salt.len() > 0,
        forall|i: int| 0 <= i < salt.len() ==> !is_ascii_space(#[trigger] salt[i]),
        is_valid_salt(salt),
        nonce.len() == NONCE_SIZE,
    ensures
        spec_decrypt(
            spec_container(content, h, salt, nonce, derived_key(password, salt)),
            password,
        ) == Ok::<(FileHeaderV, Seq<u8>), Error>((h, content)),
{
    let key = derived_key(password, salt);
    let c = spec_container(content, h, salt, nonce, key);
    let record = spec_header_record(h);
    let body0 = spec_apply_keystream(key, nonce, 0, record + content);
    assert forall|i: int| 0 <= i < salt.len() implies salt[i] != 10u8 by {
        assert(!is_ascii_space(salt[i]));
    }
    assert(c =~= salt + seq![10u8] + (nonce + body0));
    lemma_first_newline_after(salt, nonce + body0);
    let nl = salt.len() as int;
    assert(c.subrange(0, nl) =~= salt);
    lemma_trim_identity(salt);
    lemma_header_record_len(h);
    assert(record.len() == FILE_HEADER_SIZE);
    assert(c.subrange(nl + 1, nl + 1 + NONCE_SIZE as int) =~= nonce);
    let body = c.subrange(nl + 1 + NONCE_SIZE as int, c.len() as int);
    assert(body =~= body0);
    lemma_apply_twice(key, nonce, 0, record + content);
    let plain = spec_apply_keystream(key, nonce, 0, body);
    assert(plain == record + content);
    assert(plain.take(FILE_HEADER_SIZE as int) =~= record);
    lemma_header_round_trip(h);
    assert(plain.skip(FILE_HEADER_SIZE as int) =~= content);
}

/// Two encryptions of the same content — fresh salt and nonce each time, as
/// [`crate::make_params`] draws them — both decrypt, independently, to that
/// same content with the same password, however their parameters differ.
pub proof fn lemma_independent_containers(
    content: Seq<u8>,
    h: FileHeaderV,
    salt1: Seq<u8>,
    nonce1: Seq<u8>,
    salt2: Seq<u8>,
    nonce2: Seq<u8>,
    password: Seq<u8>,
)
    requires
        spec_header_fits(h),
        spec_method_tag(h.encryption) == 1,
        salt1.len() > 0,
        forall|i: int| 0 <= i < salt1.len() ==> !is_ascii_space(#[trigger] salt1[i]),
        is_valid_salt(salt1),
        nonce1.len() == NONCE_SIZE,
        salt2.len() > 0,
        forall|i: int| 0 <= i < salt2.len() ==> !is_ascii_space(#[trigger] salt2[i]),
        is_valid_salt(salt2),
        nonce2.len() == NONCE_SIZE,
    ensures
        spec_decrypt(
            spec_container(content, h, salt1, nonce1, derived_key(password, salt1)),
            password,
        ) == Ok::<(FileHeaderV, Seq<u8>), Error>((h, content)),
        spec_decrypt(
            spec_container(content, h, salt2, nonce2, derived_key(password, salt2)),
            password,
        ) == Ok::<(FileHeaderV, Seq<u8>), Error>((h, content)),
{
    lemma_container_round_trip(content, h, salt1, nonce1, password);
    lemma_container_round_trip(content, h, salt2, nonce2, password);
}

} // verus!
