use shincrypt::{EncMethod, ENCRYPTION_VERSION, FileHeader, decrypt_container, encrypt_container};
use std::io::Read;

fn tar_bytes(entries: &[(&str, &[u8])]) -> Vec<u8> {
    let mut builder = tar::Builder::new(Vec::new());
    for (path, data) in entries {
        let mut header = tar::Header::new_gnu();
        header.set_size(data.len() as u64);
        header.set_mode(0o644);
        header.set_cksum();
        builder.append_data(&mut header, *path, *data).unwrap();
    }
    builder.into_inner().unwrap()
}

#[test]
fn packed_container_round_trips_archive_stream() {
    let archive = tar_bytes(&[
        ("photos/a.txt", b"alpha"),
        ("photos/sub/b.txt", b"beta beta"),
    ]);
    let header = FileHeader::new(true, false, ENCRYPTION_VERSION, EncMethod::XChaCha20, "photos", "/data/photos");
    let container = encrypt_container(&archive, &header, b"dirpass", None).unwrap();
    let (parsed, payload) = decrypt_container(&container, b"dirpass", None).unwrap();
    assert!(parsed.packed);
    assert!(!parsed.file);
    assert_eq!(payload, archive);

    // the decrypted stream is a readable archive with the original entries
    let mut unpacked = tar::Archive::new(&payload[..]);
    let mut seen: Vec<(String, Vec<u8>)> = Vec::new();
    for entry in unpacked.entries().unwrap() {
        let mut entry = entry.unwrap();
        let path = entry.path().unwrap().to_str().unwrap().to_string();
        let mut data = Vec::new();
        entry.read_to_end(&mut data).unwrap();
        seen.push((path, data));
    }
    assert_eq!(seen.len(), 2);
    assert_eq!(seen[0].0, "photos/a.txt");
    assert_eq!(seen[0].1, b"alpha");
    assert_eq!(seen[1].0, "photos/sub/b.txt");
    assert_eq!(seen[1].1, b"beta beta");
}
