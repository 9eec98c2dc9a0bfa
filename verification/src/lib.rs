//! A file/directory encryption engine.
//!
//! Given plain content bytes, a password and a little framing metadata, the
//! library produces a single encrypted container that can later be
//! reconstructed byte for byte: a plaintext salt line, a plaintext nonce, a
//! fixed-width encrypted header record, and the encrypted payload, all
//! cipher-transformed in fixed-size chunks by one continuous keystream.
//!
//! The container provides confidentiality only: no authentication tag (no
//! MAC, no AEAD) protects the header record or the payload. Tampered
//! ciphertext decrypts to corrupted plaintext without guaranteed detection,
//! and a wrong password is detected only because the decrypted header record
//! almost certainly fails to decode — a wrong key that happens to produce a
//! structurally valid header is improbable, not impossible.

use vstd::prelude::*;

mod cipher;
mod container;
mod errors;
mod global;
mod header;
mod kdf;
mod progress;
mod stream;
mod text;

pub use cipher::CipherStream;
pub use cipher::MAX_STREAM;
pub use cipher::keystream_byte;
pub use cipher::lemma_apply_concat;
pub use cipher::lemma_apply_twice;
pub use cipher::spec_apply_keystream;
pub use container::container_nonce;
pub use container::container_salt;
pub use container::decrypt_container;
pub use container::encrypt_container;
pub use container::encrypt_with_params;
pub use container::lemma_container_round_trip;
pub use container::lemma_independent_containers;
pub use container::resolve_output_path;
pub use container::spec_container;
pub use container::spec_decrypt;
pub use container::spec_default_output;
pub use container::spec_output_path;
pub use container::spec_salt_end;
pub use errors::CryptoError;
pub use errors::Error;
pub use errors::FormatError;
pub use errors::PathError;
pub use global::FileDir;
pub use global::Global;
pub use global::is_digit;
pub use global::spec_all_digits;
pub use global::spec_compare_from;
pub use global::spec_compare_versions;
pub use global::spec_decimal_digits;
pub use global::spec_digits_value;
pub use global::spec_duration_bytes;
pub use global::spec_format_duration;
pub use global::spec_parse_component;
pub use global::spec_part_at;
pub use global::spec_split_dots;
pub use global::spec_version_parts;
pub use global::spec_what;
pub use global::spec_zero_pad;
pub use header::ENCRYPTION_VERSION;
pub use header::EncMethod;
pub use header::FileHeader;
pub use header::FileHeaderV;
pub use header::bool_word;
pub use header::lemma_header_record_len;
pub use header::lemma_header_round_trip;
pub use header::spec_header_fits;
pub use header::spec_header_parse;
pub use header::spec_header_prefix;
pub use header::spec_header_record;
pub use header::spec_method_tag;
pub use header::spec_u16_at;
pub use kdf::EncryptionParameters;
pub use kdf::KEY_SIZE;
pub use kdf::MAX_PASSWORD;
pub use kdf::NONCE_SIZE;
pub use kdf::SALT_LENGTH;
pub use kdf::derive_key_checked;
pub use kdf::derived_key;
pub use kdf::is_b64_byte;
pub use kdf::is_valid_salt;
pub use kdf::make_params;
pub use progress::monotone_samples;
pub use progress::progress_consistent;
pub use stream::DecryptingReader;
pub use stream::EncryptingWriter;
pub use text::ascii_view;
pub use text::is_ascii_space;
pub use text::lemma_ascii_bytes_utf8;
pub use text::lemma_trim_identity;
pub use text::spec_trim_ascii;
pub use text::spec_trim_end_idx;
pub use text::spec_trim_start_idx;
pub use text::string_from_utf8;

verus! {

/// Chunk granularity of the stream-cipher adapters: one keystream
/// application, one downstream write and one progress sample per chunk.
pub const CHUNK: usize = 1024 * 1024;

/// Fixed width of the serialized header record, in bytes.
pub const FILE_HEADER_SIZE: usize = 1024 * 1024;

} // verus!

