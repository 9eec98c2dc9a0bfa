use shincrypt::{CHUNK, CipherStream, DecryptingReader, EncryptingWriter};

fn key() -> Vec<u8> {
    (0u8..32).collect()
}

fn nonce() -> Vec<u8> {
    (100u8..124).collect()
}

fn content(n: usize) -> Vec<u8> {
    (0..n).map(|i| (i.wrapping_mul(13).wrapping_add(5)) as u8).collect()
}

#[test]
fn writer_then_reader_round_trip() {
    let data = content(CHUNK + 123);
    let mut writer = EncryptingWriter::new(CipherStream::new(key(), nonce()));
    writer.write(&data);
    writer.flush();
    let ciphertext = writer.take_output();
    assert_eq!(ciphertext.len(), data.len());
    assert_ne!(ciphertext, data);
    let mut reader = DecryptingReader::new(ciphertext, CipherStream::new(key(), nonce()));
    let plain = reader.read_to_end();
    assert_eq!(plain, data);
}

#[test]
fn piecewise_writes_equal_one_shot() {
    let data = content(2 * CHUNK + 789);
    let mut one_shot = EncryptingWriter::new(CipherStream::new(key(), nonce()));
    one_shot.write(&data);
    one_shot.flush();
    let expected = one_shot.take_output();

    let mut piecewise = EncryptingWriter::new(CipherStream::new(key(), nonce()));
    let mut produced: Vec<u8> = Vec::new();
    // odd-sized writes that straddle every chunk boundary
    for piece in data.chunks(CHUNK / 3 + 17) {
        piecewise.write(piece);
        produced.extend_from_slice(&piecewise.take_output());
    }
    piecewise.flush();
    produced.extend_from_slice(&piecewise.take_output());
    assert_eq!(produced, expected);
}

#[test]
fn reader_serves_small_reads_without_retransforming() {
    let data = content(3000);
    let mut writer = EncryptingWriter::new(CipherStream::new(key(), nonce()));
    writer.write(&data);
    writer.flush();
    let ciphertext = writer.take_output();
    let mut reader = DecryptingReader::new(ciphertext, CipherStream::new(key(), nonce()));
    let mut collected: Vec<u8> = Vec::new();
    loop {
        let piece = reader.read(7);
        if piece.is_empty() {
            break;
        }
        // exactly the request is served, short only at the stream's tail
        let remaining = data.len() - collected.len();
        assert_eq!(piece.len(), remaining.min(7));
        collected.extend_from_slice(&piece);
    }
    assert_eq!(collected, data);
    // end of stream is stable
    assert!(reader.read(1).is_empty());
}

#[test]
fn writer_transforms_full_chunks_and_buffers_the_rest() {
    let data = content(CHUNK + CHUNK / 2);
    let mut writer = EncryptingWriter::new(CipherStream::new(key(), nonce()));
    // a partial chunk stays buffered, nothing is emitted yet
    writer.write(&data[..CHUNK / 2]);
    assert!(writer.take_output().is_empty());
    // crossing the chunk boundary emits exactly one full chunk
    writer.write(&data[CHUNK / 2..CHUNK + CHUNK / 4]);
    assert_eq!(writer.take_output().len(), CHUNK);
    // the flush emits exactly the buffered remainder
    writer.write(&data[CHUNK + CHUNK / 4..]);
    writer.flush();
    assert_eq!(writer.take_output().len(), CHUNK / 2);
}

#[test]
fn reader_read_exact_and_tail() {
    let data = content(CHUNK + 50);
    let mut writer = EncryptingWriter::new(CipherStream::new(key(), nonce()));
    writer.write(&data);
    writer.flush();
    let ciphertext = writer.take_output();
    let mut reader = DecryptingReader::new(ciphertext, CipherStream::new(key(), nonce()));
    let front = reader.read_exact(100).unwrap();
    assert_eq!(front, &data[..100]);
    let rest = reader.read_to_end();
    assert_eq!(rest, &data[100..]);
    // nothing remains for another exact read
    assert!(reader.read_exact(1).is_none());
    // but a zero-byte exact read still succeeds
    assert_eq!(reader.read_exact(0).unwrap(), Vec::<u8>::new());
}

#[test]
fn writer_progress_counts_chunks() {
    let data = content(2 * CHUNK);
    let (tx, rx) = crossbeam::channel::unbounded::<u64>();
    let mut writer = EncryptingWriter::new(CipherStream::new(key(), nonce()));
    writer.set_progress_sender(tx);
    writer.write(&data);
    writer.flush();
    let _ = writer.take_output();
    let samples: Vec<u64> = rx.try_iter().collect();
    // two full chunks, and an empty flush adds no sample
    assert_eq!(samples, vec![CHUNK as u64, 2 * CHUNK as u64]);
}
