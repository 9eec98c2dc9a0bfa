//! The fixed-width binary header record that opens every container's
//! encrypted section: flags, format version, encryption method and the
//! original input's name and path, laid out as little-endian 16-bit fields
//! interleaved with the UTF-8 bytes of name and path, zero-padded to
//! [`crate::FILE_HEADER_SIZE`].

use vstd::prelude::*;

use crate::FILE_HEADER_SIZE;
use crate::errors::{CryptoError, Error, FormatError};
use crate::text::string_from_utf8;
use vstd::bytes::{
    lemma_auto_spec_u16_to_from_le_bytes, spec_u16_from_le_bytes, spec_u16_to_le_bytes,
    u16_from_le_bytes, u16_to_le_bytes,
};
use vstd::slice::{slice_subrange, slice_to_vec};
use vstd::string::StrSliceExecFns;
use vstd::utf8::{
    decode_utf8, encode_utf8, encode_utf8_decode_utf8, encode_utf8_valid_utf8, valid_utf8,
};

verus! {

/// The format version written into every new container.
pub const ENCRYPTION_VERSION: u16 = 1;

/// The cipher used for a container. Exactly one method is defined; its
/// on-disk tag is `1`.
#[derive(Debug, Clone, Copy, PartialEq, Eq, Hash, Structural)]
pub enum EncMethod {
    XChaCha20,
}

/// The on-disk tag of an encryption method.
pub open spec fn spec_method_tag(m: EncMethod) -> u16 {
    match m {
        EncMethod::XChaCha20 => 1,
    }
}

impl EncMethod {
    /// The method encoded by `num`, if any: only the tag `1` is recognized.
    pub fn from_u16(num: u16) -> (r: Option<Self>)
        ensures
            r == if num == 1 {
                Some(EncMethod::XChaCha20)
            } else {
                Option::<EncMethod>::None
            },
    {
        match num {
            1 => Some(EncMethod::XChaCha20),
            _ => None,
        }
    }

    /// The on-disk tag of this method.
    pub fn to_u16(self) -> (r: u16)
        ensures
            r == spec_method_tag(self),
    {
        match self {
            EncMethod::XChaCha20 => 1,
        }
    }
}

/// What a header record describes, with name and path as plain text: the
/// mathematical face of [`FileHeader`].
pub ghost struct FileHeaderV {
    /// The payload is an archive stream rather than one file's raw bytes.
    pub packed: bool,
    /// The original input was a regular file.
    pub file: bool,
    /// Container format version.
    pub version: u16,
    /// The cipher the container was written with.
    pub encryption: EncMethod,
    /// File name of the original input.
    pub name: Seq<char>,
    /// Path of the original input.
    pub path: Seq<char>,
}

/// The header record for the original input of one container.
#[derive(Debug, Clone)]
pub struct FileHeader {
    /// The payload is an archive stream rather than one file's raw bytes.
    pub packed: bool,
    /// The original input was a regular file.
    pub file: bool,
    /// Container format version.
    pub version: u16,
    /// The cipher the container was written with.
    pub encryption: EncMethod,
    /// File name of the original input.
    pub name: String,
    /// Path of the original input.
    pub path: String,
}

impl View for FileHeader {
    type V = FileHeaderV;

    open spec fn view(&self) -> FileHeaderV {
        FileHeaderV {
            packed: self.packed,
            file: self.file,
            version: self.version,
            encryption: self.encryption,
            name: self.name@,
            path: self.path@,
        }
    }
}

/// The 16-bit word a flag is stored as.
pub open spec fn bool_word(b: bool) -> u16 {
    if b {
        1u16
    } else {
        0u16
    }
}

/// The meaningful front of a header record: six little-endian 16-bit fields
/// (packed flag, file flag, version, method tag, name length, path length)
/// interleaved with the UTF-8 bytes of name and path.
pub open spec fn spec_header_prefix(h: FileHeaderV) -> Seq<u8> {
    spec_u16_to_le_bytes(bool_word(h.packed)) + spec_u16_to_le_bytes(bool_word(h.file))
        + spec_u16_to_le_bytes(h.version) + spec_u16_to_le_bytes(spec_method_tag(h.encryption))
        + spec_u16_to_le_bytes(encode_utf8(h.name).len() as u16) + encode_utf8(h.name)
        + spec_u16_to_le_bytes(encode_utf8(h.path).len() as u16) + encode_utf8(h.path)
}

/// Whether the header's variable parts fit the record: each length fits its
/// 16-bit field and the whole prefix fits the fixed width.
pub open spec fn spec_header_fits(h: FileHeaderV) -> bool {
    &&& encode_utf8(h.name).len() <= u16::MAX
    &&& encode_utf8(h.path).len() <= u16::MAX
    &&& 12 + encode_utf8(h.name).len() + encode_utf8(h.path).len() <= FILE_HEADER_SIZE
}

/// The full record: the prefix, zero-padded to exactly
/// [`crate::FILE_HEADER_SIZE`] bytes.
pub open spec fn spec_header_record(h: FileHeaderV) -> Seq<u8> {
    spec_header_prefix(h) + Seq::new(
        (FILE_HEADER_SIZE - spec_header_prefix(h).len()) as nat,
        |i: int| 0u8,
    )
}

/// The 16-bit little-endian field at byte offset `pos` of `b`.
pub open spec fn spec_u16_at(b: Seq<u8>, pos: int) -> u16 {
    spec_u16_from_le_bytes(b.subrange(pos, pos + 2))
}

/// What decoding a header record from `b` yields: the header, or the first
/// failure in field order — wrong record width, a length field pointing past
/// the end, malformed UTF-8 in name or path, or an unknown method tag.
pub open spec fn spec_header_parse(b: Seq<u8>) -> Result<FileHeaderV, Error> {
    if b.len() != FILE_HEADER_SIZE {
        Err(Error::Format(FormatError::HeaderLength))
    } else {
        let name_len = spec_u16_at(b, 8) as int;
        if 10 + name_len > b.len() {
            Err(Error::Format(FormatError::FieldOutOfBounds))
        } else {
            let name_bytes = b.subrange(10, 10 + name_len);
            if !valid_utf8(name_bytes) {
                Err(Error::Format(FormatError::InvalidUtf8))
            } else if 12 + name_len > b.len() {
                Err(Error::Format(FormatError::FieldOutOfBounds))
            } else {
                let path_len = spec_u16_at(b, 10 + name_len) as int;
                if 12 + name_len + path_len > b.len() {
                    Err(Error::Format(FormatError::FieldOutOfBounds))
                } else {
                    let path_bytes = b.subrange(12 + name_len, 12 + name_len + path_len);
                    if !valid_utf8(path_bytes) {
                        Err(Error::Format(FormatError::InvalidUtf8))
                    } else if spec_u16_at(b, 6) != 1 {
                        Err(Error::Crypto(CryptoError::UnsupportedMethod))
                    } else {
                        Ok(
                            FileHeaderV {
                                packed: spec_u16_at(b, 0) != 0,
                                file: spec_u16_at(b, 2) != 0,
                                version: spec_u16_at(b, 4),
                                encryption: EncMethod::XChaCha20,
                                name: decode_utf8(name_bytes),
                                path: decode_utf8(path_bytes),
                            },
                        )
                    }
                }
            }
        }
    }
}

impl FileHeader {
    /// A header describing one input: `packed` payloads are archive streams,
    /// `file` records whether the input was a regular file.
    pub fn new(packed: bool, file: bool, version: u16, encryption: EncMethod, name: &str, path: &str) -> (h:
        Self)
        ensures
            h@ == (FileHeaderV {
                packed,
                file,
                version,
                encryption,
                name: name@,
                path: path@,
            }),
    {
        FileHeader {
            packed,
            file,
            version,
            encryption,
            name: name.to_owned(),
            path: path.to_owned(),
        }
    }

    /// Serialize this header into its fixed-width record. Fails with a
    /// record-too-large error exactly when name and path do not fit; it
    /// never truncates them.
    pub fn to_vec(&self) -> (r: Result<Vec<u8>, Error>)
        ensures
            r is Ok <==> spec_header_fits(self@),
            match r {
                Ok(v) => v@ == spec_header_record(self@),
                Err(e) => e == Error::Format(FormatError::RecordTooLarge),
            },
    {
        let mut name_bytes = self.name.as_str().as_bytes_vec();
        let mut path_bytes = self.path.as_str().as_bytes_vec();
        if name_bytes.len() > 0xFFFF || path_bytes.len() > 0xFFFF {
            return Err(Error::Format(FormatError::RecordTooLarge));
        }
        if 12 + name_bytes.len() + path_bytes.len() > FILE_HEADER_SIZE {
            return Err(Error::Format(FormatError::RecordTooLarge));
        }
        let mut record: Vec<u8> = Vec::new();
        let mut word = u16_to_le_bytes(if self.packed { 1 } else { 0 });
        record.append(&mut word);
        let mut word = u16_to_le_bytes(if self.file { 1 } else { 0 });
        record.append(&mut word);
        let mut word = u16_to_le_bytes(self.version);
        record.append(&mut word);
        let mut word = u16_to_le_bytes(self.encryption.to_u16());
        record.append(&mut word);
        let mut word = u16_to_le_bytes(name_bytes.len() as u16);
        record.append(&mut word);
        record.append(&mut name_bytes);
        let mut word = u16_to_le_bytes(path_bytes.len() as u16);
        record.append(&mut word);
        record.append(&mut path_bytes);
        proof {
            assert(record@ =~= spec_header_prefix(self@));
        }
        let prefix_len = record.len();
        record.resize(FILE_HEADER_SIZE, 0u8);
        proof {
            assert forall|i: int| prefix_len <= i < FILE_HEADER_SIZE implies record@[i] == 0u8 by {
                assert(cloned(0u8, record@[i]));
            }
            assert(record@ =~= spec_header_record(self@));
        }
        Ok(record)
    }

    /// Decode a header record. Rejects a buffer of the wrong width, a length
    /// field pointing past the end, malformed UTF-8 in name or path, and an
    /// unknown method tag, in that order; trailing padding is ignored.
    pub fn from_vec(bytes: &[u8]) -> (r: Result<Self, Error>)
        ensures
            match r {
                Ok(h) => spec_header_parse(bytes@) == Ok::<FileHeaderV, Error>(h@),
                Err(e) => spec_header_parse(bytes@) == Err::<FileHeaderV, Error>(e),
            },
    {
        if bytes.len() != FILE_HEADER_SIZE {
            return Err(Error::Format(FormatError::HeaderLength));
        }
        let packed = u16_from_le_bytes(slice_subrange(bytes, 0, 2)) != 0;
        let file = u16_from_le_bytes(slice_subrange(bytes, 2, 4)) != 0;
        let version = u16_from_le_bytes(slice_subrange(bytes, 4, 6));
        let tag = u16_from_le_bytes(slice_subrange(bytes, 6, 8));
        let name_len = u16_from_le_bytes(slice_subrange(bytes, 8, 10)) as usize;
        if 10 + name_len > bytes.len() {
            return Err(Error::Format(FormatError::FieldOutOfBounds));
        }
        let name_vec = slice_to_vec(slice_subrange(bytes, 10, 10 + name_len));
        let name = match string_from_utf8(name_vec) {
            Some(s) => s,
            None => {
                return Err(Error::Format(FormatError::InvalidUtf8));
            },
        };
        if 12 + name_len > bytes.len() {
            return Err(Error::Format(FormatError::FieldOutOfBounds));
        }
        let path_len = u16_from_le_bytes(slice_subrange(bytes, 10 + name_len, 12 + name_len))
            as usize;
        if 12 + name_len + path_len > bytes.len() {
            return Err(Error::Format(FormatError::FieldOutOfBounds));
        }
        let path_vec = slice_to_vec(
            slice_subrange(bytes, 12 + name_len, 12 + name_len + path_len),
        );
        let path = match string_from_utf8(path_vec) {
            Some(s) => s,
            None => {
                return Err(Error::Format(FormatError::InvalidUtf8));
            },
        };
        let encryption = match EncMethod::from_u16(tag) {
            Some(m) => m,
            None => {
                return Err(Error::Crypto(CryptoError::UnsupportedMethod));
            },
        };
        Ok(FileHeader { packed, file, version, encryption, name, path })
    }
}

/// A header that fits serializes to a record of exactly the fixed width.
pub proof fn lemma_header_record_len(h: FileHeaderV)
    requires
        spec_header_fits(h),
    ensures
        spec_header_prefix(h).len() == 12 + encode_utf8(h.name).len() + encode_utf8(h.path).len(),
        spec_header_record(h).len() == FILE_HEADER_SIZE,
{
    lemma_auto_spec_u16_to_from_le_bytes();
}

/// Decoding the record of a header that fits gives the header back, field
/// for field: the codec loses nothing.
pub proof fn lemma_header_round_trip(h: FileHeaderV)
    requires
        spec_header_fits(h),
        spec_method_tag(h.encryption) == 1,
    ensures
        spec_header_parse(spec_header_record(h)) == Ok::<FileHeaderV, Error>(h),
{
    lemma_auto_spec_u16_to_from_le_bytes();
    let nb = encode_utf8(h.name);
    let pb = encode_utf8(h.path);
    let b = spec_header_record(h);
    let nl = nb.len() as int;
    let pl = pb.len() as int;
    assert(spec_header_prefix(h).len() == 12 + nl + pl);
    assert(b.len() == FILE_HEADER_SIZE);
    assert(b.subrange(0, 2) =~= spec_u16_to_le_bytes(bool_word(h.packed)));
    assert(b.subrange(2, 4) =~= spec_u16_to_le_bytes(bool_word(h.file)));
    assert(b.subrange(4, 6) =~= spec_u16_to_le_bytes(h.version));
    assert(b.subrange(6, 8) =~= spec_u16_to_le_bytes(spec_method_tag(h.encryption)));
    assert(b.subrange(8, 10) =~= spec_u16_to_le_bytes(nb.len() as u16));
    assert(spec_u16_at(b, 8) == nb.len() as u16);
    assert(b.subrange(10, 10 + nl) =~= nb);
    assert(b.subrange(10 + nl, 12 + nl) =~= spec_u16_to_le_bytes(pb.len() as u16));
    assert(spec_u16_at(b, 10 + nl) == pb.len() as u16);
    assert(b.subrange(12 + nl, 12 + nl + pl) =~= pb);
    encode_utf8_valid_utf8(h.name);
    encode_utf8_valid_utf8(h.path);
    encode_utf8_decode_utf8(h.name);
    encode_utf8_decode_utf8(h.path);
    assert(bool_word(h.packed) != 0 <==> h.packed);
    assert(bool_word(h.file) != 0 <==> h.file);
    let parsed = spec_header_parse(b)->Ok_0;
    assert(parsed.encryption == h.encryption);
    assert(spec_header_parse(b) == Ok::<FileHeaderV, Error>(h));
}

} // verus!
