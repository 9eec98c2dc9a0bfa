use shincrypt::{
    CHUNK, CryptoError, EncMethod, ENCRYPTION_VERSION, Error, FILE_HEADER_SIZE, FileHeader,
    FormatError, NONCE_SIZE, decrypt_container, encrypt_container,
};

fn sample_header(name: &str) -> FileHeader {
    let path = format!("/data/{}", name);
    FileHeader::new(false, true, ENCRYPTION_VERSION, EncMethod::XChaCha20, name, &path)
}

fn sample_content(n: usize) -> Vec<u8> {
    (0..n).map(|i| (i.wrapping_mul(31).wrapping_add(7)) as u8).collect()
}

fn round_trip(n: usize) {
    let content = sample_content(n);
    let header = sample_header("blob.bin");
    let container = encrypt_container(&content, &header, b"secret123", None).unwrap();
    let (parsed, payload) = decrypt_container(&container, b"secret123", None).unwrap();
    assert_eq!(payload, content);
    assert_eq!(parsed.name, "blob.bin");
    assert_eq!(parsed.path, "/data/blob.bin");
    assert_eq!(parsed.packed, false);
    assert_eq!(parsed.file, true);
    assert_eq!(parsed.version, ENCRYPTION_VERSION);
    assert_eq!(parsed.encryption, EncMethod::XChaCha20);
}

#[test]
fn round_trip_empty() {
    round_trip(0);
}

#[test]
fn round_trip_one_byte() {
    round_trip(1);
}

#[test]
fn round_trip_chunk_minus_one() {
    round_trip(CHUNK - 1);
}

#[test]
fn round_trip_exact_chunk() {
    round_trip(CHUNK);
}

#[test]
fn round_trip_chunk_plus_one() {
    round_trip(CHUNK + 1);
}

#[test]
fn round_trip_two_chunks() {
    round_trip(2 * CHUNK);
}

#[test]
fn example_container_layout() {
    // a 2.5 MiB file: salt line, nonce, fixed-width header, three cipher
    // segments (two full chunks, one partial)
    let content = sample_content(2 * CHUNK + CHUNK / 2);
    let header = sample_header("report.pdf");
    let container = encrypt_container(&content, &header, b"secret123", None).unwrap();
    // salt line: 22 B64 characters, newline-terminated
    assert_eq!(container[22], b'\n');
    for &b in &container[..22] {
        assert!(
            b.is_ascii_alphanumeric() || b == b'+' || b == b'/',
            "salt byte out of the B64 alphabet"
        );
    }
    // then the nonce, the encrypted header record, and the payload
    assert_eq!(container.len(), 23 + NONCE_SIZE + FILE_HEADER_SIZE + content.len());
    // the payload is encrypted, not the plaintext
    let payload_start = 23 + NONCE_SIZE + FILE_HEADER_SIZE;
    assert_ne!(&container[payload_start..], &content[..]);
    // the right password reproduces the content byte for byte
    let (parsed, payload) = decrypt_container(&container, b"secret123", None).unwrap();
    assert_eq!(parsed.name, "report.pdf");
    assert_eq!(payload, content);
}

#[test]
fn wrong_password_is_rejected() {
    let content = sample_content(100);
    let header = sample_header("secrets.txt");
    let container = encrypt_container(&content, &header, b"secret123", None).unwrap();
    assert!(decrypt_container(&container, b"wrong", None).is_err());
}

#[test]
fn two_encryptions_differ_but_both_decrypt() {
    let content = sample_content(1000);
    let header = sample_header("same.txt");
    let c1 = encrypt_container(&content, &header, b"pw", None).unwrap();
    let c2 = encrypt_container(&content, &header, b"pw", None).unwrap();
    // fresh salt and nonce every time, so the containers differ throughout
    assert_ne!(&c1[..22], &c2[..22], "salts must differ");
    assert_ne!(&c1[23..23 + NONCE_SIZE], &c2[23..23 + NONCE_SIZE], "nonces must differ");
    assert_ne!(&c1[23 + NONCE_SIZE..], &c2[23 + NONCE_SIZE..], "ciphertext must differ");
    // yet each decrypts independently to the same content
    let (_, p1) = decrypt_container(&c1, b"pw", None).unwrap();
    let (_, p2) = decrypt_container(&c2, b"pw", None).unwrap();
    assert_eq!(p1, content);
    assert_eq!(p2, content);
}

#[test]
fn oversized_header_fails_whole_encryption() {
    let long_name: String = std::iter::repeat('n').take(70_000).collect();
    let header = FileHeader::new(false, true, ENCRYPTION_VERSION, EncMethod::XChaCha20, &long_name, "/x");
    let content = sample_content(10);
    assert_eq!(
        encrypt_container(&content, &header, b"pw", None),
        Err(Error::Format(FormatError::RecordTooLarge))
    );
}

#[test]
fn container_without_salt_line_is_rejected() {
    let bytes = b"no newline anywhere".to_vec();
    assert!(matches!(
        decrypt_container(&bytes, b"pw", None),
        Err(Error::Format(FormatError::MissingSaltLine))
    ));
}

#[test]
fn container_with_malformed_salt_is_rejected() {
    let bytes = b"not!a!valid!salt\nrest of the container".to_vec();
    assert!(matches!(
        decrypt_container(&bytes, b"pw", None),
        Err(Error::Crypto(CryptoError::InvalidSalt))
    ));
}

#[test]
fn container_too_short_for_nonce_is_rejected() {
    let mut bytes = b"AAAAAAAAAAAAAAAAAAAAAA\n".to_vec();
    bytes.extend_from_slice(&[0u8; 10]);
    assert!(matches!(
        decrypt_container(&bytes, b"pw", None),
        Err(Error::Format(FormatError::Truncated))
    ));
}

#[test]
fn container_too_short_for_header_is_rejected() {
    let mut bytes = b"AAAAAAAAAAAAAAAAAAAAAA\n".to_vec();
    bytes.extend_from_slice(&[0u8; NONCE_SIZE]);
    bytes.extend_from_slice(&[0u8; 1000]);
    assert!(matches!(
        decrypt_container(&bytes, b"pw", None),
        Err(Error::Format(FormatError::Truncated))
    ));
}

#[test]
fn salt_line_tolerates_surrounding_spaces() {
    let content = sample_content(64);
    let header = sample_header("padded.txt");
    let container = encrypt_container(&content, &header, b"pw", None).unwrap();
    // widen the salt line with spaces, as a foreign writer might
    let mut padded = Vec::new();
    padded.extend_from_slice(b"  ");
    padded.extend_from_slice(&container[..22]);
    padded.extend_from_slice(b" \r");
    padded.extend_from_slice(&container[22..]);
    let (_, payload) = decrypt_container(&padded, b"pw", None).unwrap();
    assert_eq!(payload, content);
}

#[test]
fn encrypt_progress_reaches_total() {
    let content = sample_content(2 * CHUNK + CHUNK / 2);
    let header = sample_header("progress.bin");
    let (tx, rx) = crossbeam::channel::unbounded::<u64>();
    let container = encrypt_container(&content, &header, b"pw", Some(tx)).unwrap();
    let samples: Vec<u64> = rx.try_iter().collect();
    assert_eq!(samples, vec![CHUNK as u64, 2 * CHUNK as u64, content.len() as u64]);
    drop(container);
}

#[test]
fn decrypt_progress_is_monotone_and_reaches_total() {
    let content = sample_content(CHUNK + CHUNK / 4);
    let header = sample_header("progress2.bin");
    let container = encrypt_container(&content, &header, b"pw", None).unwrap();
    let (tx, rx) = crossbeam::channel::unbounded::<u64>();
    let body_len = (container.len() - 23 - NONCE_SIZE) as u64;
    let (_, payload) = decrypt_container(&container, b"pw", Some(tx)).unwrap();
    assert_eq!(payload, content);
    let samples: Vec<u64> = rx.try_iter().collect();
    assert!(!samples.is_empty());
    for w in samples.windows(2) {
        assert!(w[0] <= w[1], "progress must never decrease");
    }
    assert_eq!(*samples.last().unwrap(), body_len);
}
