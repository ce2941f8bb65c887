use yafo::{Cipher, DataChunk, DecryptState, EncryptState, KeyInit, Pipeline};

#[test]
fn test_encrypt() {
    let mut state = EncryptState::with_key_from([1, 2, 4, 8, 16, 32, 64, 128]);
    let mut plain_data_chunk_1 = DataChunk::from([1, 1, 1, 1, 2, 2, 2, 2]);
    let mut plain_data_chunk_2 = DataChunk::from([3, 3, 3, 3, 4, 4, 4, 4]);
    state.process_chunk(&mut plain_data_chunk_1);
    state.process_chunk(&mut plain_data_chunk_2);

    assert_eq!(plain_data_chunk_1.0, [65, 34, 12, 136, 17, 33, 65, 129]);
    assert_eq!(plain_data_chunk_2.0, [98, 28, 137, 145, 34, 66, 130, 0]);
}

#[test]
fn encrypt_decrypt_text() {
    let plain_text = "hello";
    let seed_phrase = "you can not see me";

    let cipher_text = {
        let encrypt = EncryptState::with_seed_phrase(seed_phrase);
        let mut cipher_text: Vec<u8> = vec![];
        let pipeline = Pipeline::new();
        pipeline.process(plain_text.as_bytes(), &mut cipher_text, encrypt, None);
        cipher_text
    };
    assert_eq!(cipher_text, vec![183, 72, 155, 142, 186]);

    let decrypted_text = {
        let decrypt = DecryptState::with_seed_phrase(seed_phrase);
        let mut decrypted_text: Vec<u8> = vec![];
        let pipeline = Pipeline::new();
        pipeline.process(cipher_text.as_slice(), &mut decrypted_text, decrypt, None);
        decrypted_text
    };
    assert_eq!(
        String::from_utf8(decrypted_text).expect("failed to decode"),
        plain_text
    );
}

fn encrypt_bytes(data: &[u8], phrase: &str) -> Vec<u8> {
    let encrypt = EncryptState::with_seed_phrase(phrase);
    let mut out: Vec<u8> = vec![];
    Pipeline::new().process(data, &mut out, encrypt, None);
    out
}

fn decrypt_bytes(data: &[u8], phrase: &str) -> Vec<u8> {
    let decrypt = DecryptState::with_seed_phrase(phrase);
    let mut out: Vec<u8> = vec![];
    Pipeline::new().process(data, &mut out, decrypt, None);
    out
}

#[test]
fn round_trip_various_lengths() {
    let phrase = "round trip phrase";
    for len in [0usize, 1, 5, 7, 8, 9, 15, 16, 17, 40, 100] {
        let data: Vec<u8> = (0..len).map(|i| (i * 37 + 11) as u8).collect();
        let cipher = encrypt_bytes(&data, phrase);
        assert_eq!(cipher.len(), data.len());
        let plain = decrypt_bytes(&cipher, phrase);
        assert_eq!(plain, data);
    }
}

#[test]
fn round_trip_empty_input() {
    let cipher = encrypt_bytes(&[], "any phrase");
    assert_eq!(cipher.len(), 0);
    let plain = decrypt_bytes(&[], "any phrase");
    assert_eq!(plain.len(), 0);
}

#[test]
fn encryption_is_deterministic() {
    let data = b"the same bytes every time, long enough for several blocks";
    let first = encrypt_bytes(data, "fixed phrase");
    let second = encrypt_bytes(data, "fixed phrase");
    assert_eq!(first, second);
}

#[test]
fn key_derivation_is_deterministic() {
    let a = yafo::key_init::derive_key_chunk("some mnemonic phrase".as_bytes());
    let b = yafo::key_init::derive_key_chunk("some mnemonic phrase".as_bytes());
    assert_eq!(a.0, b.0);

    let c = yafo::key_init::derive_key_chunk("another phrase".as_bytes());
    assert_ne!(a.0, c.0);
}

#[test]
fn empty_passphrase_is_accepted() {
    let data = b"payload";
    let cipher = encrypt_bytes(data, "");
    let plain = decrypt_bytes(&cipher, "");
    assert_eq!(plain, data);
}

#[test]
fn sensitivity_propagates_forward_only() {
    let phrase = "sensitivity";
    let base: Vec<u8> = (0..32).map(|i| i as u8).collect();
    let mut changed = base.clone();
    changed[13] ^= 0x40;

    let c1 = encrypt_bytes(&base, phrase);
    let c2 = encrypt_bytes(&changed, phrase);

    // The block before the change (bytes 0..8) is identical.
    assert_eq!(&c1[0..8], &c2[0..8]);
    // The ciphertext byte at the changed position differs.
    assert_ne!(c1[13], c2[13]);
}

#[test]
fn short_block_keeps_length() {
    let phrase = "five bytes";
    let data = [10u8, 20, 30, 40, 50];
    let cipher = encrypt_bytes(&data, phrase);
    assert_eq!(cipher.len(), 5);
    let plain = decrypt_bytes(&cipher, phrase);
    assert_eq!(plain.len(), 5);
    assert_eq!(plain, data);
}

#[test]
fn raw_key_stream_matches_block_calls() {
    // The pipeline over 16 bytes must agree with two direct block calls.
    let mut state = EncryptState::with_key_from([1, 2, 4, 8, 16, 32, 64, 128]);
    let mut c1 = DataChunk::from([1, 1, 1, 1, 2, 2, 2, 2]);
    let mut c2 = DataChunk::from([3, 3, 3, 3, 4, 4, 4, 4]);
    state.process_chunk(&mut c1);
    state.process_chunk(&mut c2);

    let pipeline_state = EncryptState::with_key_from([1, 2, 4, 8, 16, 32, 64, 128]);
    let input = [1u8, 1, 1, 1, 2, 2, 2, 2, 3, 3, 3, 3, 4, 4, 4, 4];
    let mut out: Vec<u8> = vec![];
    Pipeline::new().process(&input, &mut out, pipeline_state, None);

    let mut expected = Vec::new();
    expected.extend_from_slice(&c1.0);
    expected.extend_from_slice(&c2.0);
    assert_eq!(out, expected);
}

#[test]
fn chunk_equality_and_default() {
    let a = DataChunk::from([1, 2, 3, 4, 5, 6, 7, 8]);
    let b = DataChunk::from([1, 2, 3, 4, 5, 6, 7, 8]);
    let c = DataChunk::from([1, 2, 3, 4, 5, 6, 7, 9]);
    assert_eq!(a, b);
    assert_ne!(a, c);
    assert_eq!(DataChunk::default().0, [0u8; 8]);
    assert_eq!(a.as_slice(), &[1, 2, 3, 4, 5, 6, 7, 8]);
}

#[test]
fn decrypt_with_wrong_phrase_differs() {
    let data = b"not for your eyes";
    let cipher = encrypt_bytes(data, "right phrase");
    let wrong = decrypt_bytes(&cipher, "wrong phrase");
    assert_ne!(wrong.as_slice(), data.as_slice());
}
