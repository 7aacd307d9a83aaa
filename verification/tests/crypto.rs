use aead::stream::EncryptorBE32;
use aead::KeyInit;
use aes_gcm::Aes256Gcm;
use arsync::custom_crypto::{
    decrypt_base64, decrypt_buff, decrypt_file_name, decryptor_from_key, encrypt_buff,
    encrypt_buff_to_base64, encrypt_file_name, encryptor_from_key, CryptoError,
};
use base64::Engine;

/// The stream as the `aead` crate's own stateful encryptor builds it.
fn reference_encryptor(password: &[u8]) -> EncryptorBE32<Aes256Gcm> {
    let digest = md5::compute(password).0;
    let key_hex = hex::encode(digest);
    let cipher = Aes256Gcm::new_from_slice(key_hex.as_bytes()).unwrap();
    EncryptorBE32::from_aead(cipher, digest[0..7].into())
}

#[test]
fn wrapped_key_of_an_existing_passbook_decrypts() {
    let key = decrypt_base64(
        "YVY-359tgDPNDJsyaoEC_Ay0qEcZ5PlwddCnslO4xvkGcocEjM9M6e367GDfN4oP21wCYAMb2Cq532MylqhLWCVz1USKpv6Rk6NBJE_C-rE=",
        "isonlypass".as_bytes(),
    )
    .unwrap();
    assert_eq!(key.len(), 64);
    assert!(key.iter().all(|b| b.is_ascii_alphanumeric()));
}

#[test]
fn encrypt_buff_matches_the_stream_construction() {
    let password = b"hunter2";
    let plain = b"ten bytes!";
    let expected = reference_encryptor(password).encrypt_last(&plain[..]).unwrap();
    let sealed = encrypt_buff(plain, password).unwrap();
    assert_eq!(sealed, expected);
    assert_eq!(sealed.len(), plain.len() + 16);
    assert_ne!(&sealed[..plain.len()], &plain[..]);
}

#[test]
fn intermediate_segments_match_the_stream_construction() {
    let password = b"hunter2";
    let mut reference = reference_encryptor(password);
    let mut encryptor = encryptor_from_key(password).unwrap();
    let first = encryptor.encrypt_next(b"first").unwrap();
    assert_eq!(first, reference.encrypt_next(&b"first"[..]).unwrap());
    let second = encryptor.encrypt_next(b"second").unwrap();
    assert_eq!(second, reference.encrypt_next(&b"second"[..]).unwrap());
    let last = encryptor.encrypt_last(b"").unwrap();
    assert_eq!(last, reference.encrypt_last(&b""[..]).unwrap());

    let mut decryptor = decryptor_from_key(password).unwrap();
    assert_eq!(decryptor.decrypt_next(&first).unwrap(), b"first".to_vec());
    assert_eq!(decryptor.decrypt_next(&second).unwrap(), b"second".to_vec());
    assert_eq!(decryptor.decrypt_last(&last).unwrap(), Vec::<u8>::new());
}

#[test]
fn segments_do_not_open_out_of_order() {
    let password = b"hunter2";
    let mut encryptor = encryptor_from_key(password).unwrap();
    let first = encryptor.encrypt_next(b"first").unwrap();
    let second = encryptor.encrypt_next(b"second").unwrap();
    let mut decryptor = decryptor_from_key(password).unwrap();
    assert_eq!(decryptor.decrypt_next(&second), Err(CryptoError::TagMismatch));
    assert_eq!(decryptor.decrypt_next(&first).unwrap(), b"first".to_vec());
    let other = decryptor_from_key(password).unwrap();
    assert_eq!(other.decrypt_last(&first), Err(CryptoError::TagMismatch));
}

#[test]
fn buffer_round_trip() {
    let password = b"correct horse";
    for plain in [&b""[..], &b"a"[..], &b"battery staple"[..], &[0u8, 255, 128, 7][..]] {
        let sealed = encrypt_buff(plain, password).unwrap();
        assert_eq!(decrypt_buff(&sealed, password).unwrap(), plain.to_vec());
    }
}

#[test]
fn empty_buffer_is_one_tag() {
    let sealed = encrypt_buff(b"", b"pw").unwrap();
    assert_eq!(sealed.len(), 16);
    assert_eq!(decrypt_buff(&sealed, b"pw").unwrap(), Vec::<u8>::new());
}

#[test]
fn base64_text_is_url_safe_and_padded() {
    let password = b"pw";
    let text = encrypt_buff_to_base64(b"x", password).unwrap();
    let sealed = encrypt_buff(b"x", password).unwrap();
    assert_eq!(text, base64::prelude::BASE64_URL_SAFE.encode(&sealed));
    assert_eq!(text.len(), 24);
    assert!(text.ends_with('='));
    assert!(text.chars().all(|c| c.is_ascii_alphanumeric() || c == '-' || c == '_' || c == '='));
    assert_eq!(decrypt_base64(&text, password).unwrap(), b"x".to_vec());
}

#[test]
fn file_name_encryption_is_deterministic() {
    let a = encrypt_file_name("report.pdf", b"k").unwrap();
    let b = encrypt_file_name("report.pdf", b"k").unwrap();
    assert_eq!(a, b);
    assert_ne!(a, encrypt_file_name("report.pdf", b"other").unwrap());
    assert_ne!(a, encrypt_file_name("report.txt", b"k").unwrap());
}

#[test]
fn file_name_round_trip() {
    for name in ["a.txt", "", "dir with spaces", "文件名.bin", "émoji-🦀"] {
        let stored = encrypt_file_name(name, b"k").unwrap();
        assert_ne!(stored, name);
        assert_eq!(decrypt_file_name(&stored, b"k").unwrap(), name);
    }
}

#[test]
fn another_password_does_not_decrypt() {
    let stored = encrypt_file_name("a.txt", b"pw1").unwrap();
    assert_eq!(decrypt_file_name(&stored, b"pw2"), Err(CryptoError::TagMismatch));
    let sealed = encrypt_buff(b"data", b"pw1").unwrap();
    assert_eq!(decrypt_buff(&sealed, b"pw2"), Err(CryptoError::TagMismatch));
}

#[test]
fn invalid_base64_is_told_apart() {
    assert_eq!(decrypt_base64("not base64!", b"k"), Err(CryptoError::InvalidBase64));
    assert_eq!(decrypt_file_name("a.txt", b"k"), Err(CryptoError::InvalidBase64));
    // Missing padding is not canonical.
    let stored = encrypt_file_name("a", b"k").unwrap();
    assert!(stored.ends_with('='));
    let unpadded = stored.trim_end_matches('=');
    assert_eq!(decrypt_file_name(unpadded, b"k"), Err(CryptoError::InvalidBase64));
}

#[test]
fn truncated_ciphertext_is_told_apart() {
    assert_eq!(decrypt_buff(&[0u8; 15], b"k"), Err(CryptoError::Truncated));
    assert_eq!(decrypt_buff(&[], b"k"), Err(CryptoError::Truncated));
    assert_eq!(decrypt_base64("AAAA", b"k"), Err(CryptoError::Truncated));
    assert_eq!(decrypt_buff(&[0u8; 16], b"k"), Err(CryptoError::TagMismatch));
}

#[test]
fn altered_ciphertext_is_refused() {
    let mut sealed = encrypt_buff(b"payload", b"k").unwrap();
    sealed[0] ^= 1;
    assert_eq!(decrypt_buff(&sealed, b"k"), Err(CryptoError::TagMismatch));
    let sealed = encrypt_buff(b"payload", b"k").unwrap();
    assert_eq!(decrypt_buff(&sealed[..sealed.len() - 1], b"k"), Err(CryptoError::TagMismatch));
}

#[test]
fn name_that_is_not_utf8_is_told_apart() {
    let stored = encrypt_buff_to_base64(&[0xff, 0xfe, 0x00], b"k").unwrap();
    assert_eq!(decrypt_file_name(&stored, b"k"), Err(CryptoError::InvalidUtf8));
    assert_eq!(decrypt_base64(&stored, b"k").unwrap(), vec![0xff, 0xfe, 0x00]);
}

#[test]
fn positions_count_the_segments() {
    let mut encryptor = encryptor_from_key(b"k").unwrap();
    assert_eq!(encryptor.position_now(), 0);
    encryptor.encrypt_next(b"a").unwrap();
    encryptor.encrypt_next(b"b").unwrap();
    assert_eq!(encryptor.position_now(), 2);
}

#[test]
fn failed_segment_leaves_the_decryptor_in_place() {
    let mut encryptor = encryptor_from_key(b"k").unwrap();
    let first = encryptor.encrypt_next(b"first").unwrap();
    let mut decryptor = decryptor_from_key(b"k").unwrap();
    assert_eq!(decryptor.decrypt_next(&first[..3]), Err(CryptoError::Truncated));
    assert_eq!(decryptor.decrypt_next(&first[1..]), Err(CryptoError::TagMismatch));
    assert_eq!(decryptor.decrypt_next(&first).unwrap(), b"first".to_vec());
}

#[test]
fn encrypted_name_is_four_characters_for_three_bytes() {
    let stored = encrypt_file_name("a.txt", b"hunter2").unwrap();
    assert_eq!(stored.len(), 28);
    assert!(stored.chars().all(|c| c.is_ascii_alphanumeric() || c == '-' || c == '_' || c == '='));
    assert!(!stored.contains('/') && !stored.contains('+') && !stored.contains('.'));
    // Sixteen bytes of tag alone: two bytes over a multiple of three.
    let stored = encrypt_file_name("", b"hunter2").unwrap();
    assert_eq!(stored.len(), 24);
    assert!(stored.ends_with("=="));
    let stored = encrypt_file_name("ab", b"hunter2").unwrap();
    assert_eq!(stored.len(), 24);
    assert!(!stored.ends_with('='));
}

#[test]
fn url_safe_alphabet_is_used() {
    // Over many ciphertexts both characters that set the alphabet apart
    // from the standard one turn up, and the standard ones never do.
    let mut all = String::new();
    for i in 0..200 {
        all.push_str(&encrypt_buff_to_base64(format!("name-{}", i).as_bytes(), b"k").unwrap());
    }
    assert!(all.contains('-'));
    assert!(all.contains('_'));
    assert!(!all.contains('+'));
    assert!(!all.contains('/'));
}
