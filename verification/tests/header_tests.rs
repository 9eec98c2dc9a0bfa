use shincrypt::{EncMethod, Error, FileHeader, FormatError, CryptoError, ENCRYPTION_VERSION, FILE_HEADER_SIZE};

#[test]
fn method_from_u16_recognizes_only_one() {
    assert_eq!(EncMethod::from_u16(1), Some(EncMethod::XChaCha20));
    assert_eq!(EncMethod::from_u16(0), None);
    assert_eq!(EncMethod::from_u16(2), None);
    assert_eq!(EncMethod::from_u16(u16::MAX), None);
}

#[test]
fn method_tag_round_trip() {
    assert_eq!(EncMethod::XChaCha20.to_u16(), 1);
    assert_eq!(EncMethod::from_u16(EncMethod::XChaCha20.to_u16()), Some(EncMethod::XChaCha20));
}

#[test]
fn header_record_is_fixed_width() {
    let h = FileHeader::new(false, true, ENCRYPTION_VERSION, EncMethod::XChaCha20, "a.txt", "/tmp/a.txt");
    let record = h.to_vec().unwrap();
    assert_eq!(record.len(), FILE_HEADER_SIZE);
}

#[test]
fn header_round_trip_file() {
    let h = FileHeader::new(false, true, ENCRYPTION_VERSION, EncMethod::XChaCha20, "report.pdf", "/home/user/report.pdf");
    let record = h.to_vec().unwrap();
    let parsed = FileHeader::from_vec(&record).unwrap();
    assert_eq!(parsed.packed, false);
    assert_eq!(parsed.file, true);
    assert_eq!(parsed.version, 1);
    assert_eq!(parsed.encryption, EncMethod::XChaCha20);
    assert_eq!(parsed.name, "report.pdf");
    assert_eq!(parsed.path, "/home/user/report.pdf");
}

#[test]
fn header_round_trip_directory() {
    let h = FileHeader::new(true, false, ENCRYPTION_VERSION, EncMethod::XChaCha20, "photos", "/data/photos");
    let record = h.to_vec().unwrap();
    let parsed = FileHeader::from_vec(&record).unwrap();
    assert_eq!(parsed.packed, true);
    assert_eq!(parsed.file, false);
    assert_eq!(parsed.name, "photos");
    assert_eq!(parsed.path, "/data/photos");
}

#[test]
fn header_round_trip_unicode_name() {
    let h = FileHeader::new(false, true, ENCRYPTION_VERSION, EncMethod::XChaCha20, "café UNO.txt", "/tmp/café UNO.txt");
    let record = h.to_vec().unwrap();
    let parsed = FileHeader::from_vec(&record).unwrap();
    assert_eq!(parsed.name, "café UNO.txt");
    assert_eq!(parsed.path, "/tmp/café UNO.txt");
}

#[test]
fn header_round_trip_empty_name_and_path() {
    let h = FileHeader::new(false, false, 3, EncMethod::XChaCha20, "", "");
    let record = h.to_vec().unwrap();
    let parsed = FileHeader::from_vec(&record).unwrap();
    assert_eq!(parsed.version, 3);
    assert_eq!(parsed.name, "");
    assert_eq!(parsed.path, "");
}

#[test]
fn oversized_name_is_rejected_not_truncated() {
    let long_name: String = std::iter::repeat('a').take(70_000).collect();
    let h = FileHeader::new(false, true, ENCRYPTION_VERSION, EncMethod::XChaCha20, &long_name, "/tmp/x");
    assert_eq!(h.to_vec(), Err(Error::Format(FormatError::RecordTooLarge)));
}

#[test]
fn oversized_path_is_rejected_not_truncated() {
    let long_path: String = std::iter::repeat('p').take(66_000).collect();
    let h = FileHeader::new(false, true, ENCRYPTION_VERSION, EncMethod::XChaCha20, "x", &long_path);
    assert_eq!(h.to_vec(), Err(Error::Format(FormatError::RecordTooLarge)));
}

#[test]
fn wrong_width_record_is_rejected() {
    assert!(matches!(
        FileHeader::from_vec(&[0u8; 16]),
        Err(Error::Format(FormatError::HeaderLength))
    ));
    let too_long = vec![0u8; FILE_HEADER_SIZE + 1];
    assert!(matches!(
        FileHeader::from_vec(&too_long),
        Err(Error::Format(FormatError::HeaderLength))
    ));
}

#[test]
fn unknown_method_tag_is_rejected() {
    let h = FileHeader::new(false, true, ENCRYPTION_VERSION, EncMethod::XChaCha20, "a", "b");
    let mut record = h.to_vec().unwrap();
    record[6] = 7;
    record[7] = 0;
    assert!(matches!(
        FileHeader::from_vec(&record),
        Err(Error::Crypto(CryptoError::UnsupportedMethod))
    ));
}

#[test]
fn invalid_utf8_name_is_rejected() {
    let h = FileHeader::new(false, true, ENCRYPTION_VERSION, EncMethod::XChaCha20, "ab", "cd");
    let mut record = h.to_vec().unwrap();
    // the two name bytes sit right after the five u16 fields
    record[10] = 0xFF;
    record[11] = 0xFE;
    assert!(matches!(
        FileHeader::from_vec(&record),
        Err(Error::Format(FormatError::InvalidUtf8))
    ));
}

#[test]
fn trailing_padding_is_ignored() {
    let h = FileHeader::new(false, true, ENCRYPTION_VERSION, EncMethod::XChaCha20, "a", "b");
    let mut record = h.to_vec().unwrap();
    let n = record.len();
    record[n - 1] = 0x55;
    let parsed = FileHeader::from_vec(&record).unwrap();
    assert_eq!(parsed.name, "a");
    assert_eq!(parsed.path, "b");
}
