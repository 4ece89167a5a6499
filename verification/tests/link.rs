use satlink::cipher::{decrypt, encrypt, is_pairwise, CipherFault};
use satlink::downlink;
use satlink::types;
use satlink::types::{DecryptError, ENC_KEY};

#[test]
fn key_is_the_shared_secret() {
    assert_eq!(&ENC_KEY[..], b"my-secret-key");
}

#[test]
fn encryption_gives_upper_case_hex() {
    // 'A' ^ 'm' = 0x2C, 'B' ^ 'y' = 0x3B, 'C' ^ '-' = 0x6E
    assert_eq!(types::xor_encrypt_to_hex("ABC", &ENC_KEY), "2C3B6E");
    assert_eq!(types::xor_encrypt_to_hex("", &ENC_KEY), "");
    assert_eq!(types::xor_encrypt_to_hex("ABC", b""), "");
    assert_eq!(encrypt("\u{ff}", &[0x0f]), "CCB0");
}

#[test]
fn encryption_repeats_the_key() {
    let plain = "0123456789abcdefghij";
    let hex = types::xor_encrypt_to_hex(plain, &ENC_KEY);
    assert_eq!(hex.len(), 2 * plain.len());
    for (i, b) in plain.bytes().enumerate() {
        let expected = format!("{:02X}", b ^ ENC_KEY[i % ENC_KEY.len()]);
        assert_eq!(&hex[2 * i..2 * i + 2], expected.as_str());
    }
}

#[test]
fn decryption_inverts_encryption() {
    for plain in ["", "x", "{\"id\":1}", "Größe ≈ 3 µs 🛰️", "line\nbreak\t tab "] {
        let sent = types::xor_encrypt_to_hex(plain, &ENC_KEY);
        assert_eq!(types::xor_decrypt_from_hex(&sent, &ENC_KEY).unwrap(), plain);
        assert_eq!(downlink::xor_decrypt_from_hex(&sent, &ENC_KEY), Ok(plain.to_string()));
        let lower = sent.to_lowercase();
        assert_eq!(types::xor_decrypt_from_hex(&lower, &ENC_KEY).unwrap(), plain);
    }
}

#[test]
fn decryption_needs_a_key() {
    match types::xor_decrypt_from_hex("2C", b"") {
        Err(DecryptError::EmptyKey) => {}
        other => panic!("{:?}", other),
    }
    assert_eq!(DecryptError::EmptyKey.message(), "empty key");
    assert_eq!(downlink::xor_decrypt_from_hex("2C", b""), Err("empty key".to_string()));
}

#[test]
fn decryption_refuses_other_digits() {
    let std_words = u8::from_str_radix("zz", 16).unwrap_err().to_string();
    match types::xor_decrypt_from_hex("2Czz", &ENC_KEY) {
        Err(e) => {
            assert!(matches!(e, DecryptError::InvalidDigit));
            assert_eq!(e.message(), std_words);
        }
        Ok(s) => panic!("{}", s),
    }
    assert_eq!(
        downlink::xor_decrypt_from_hex("2C3Bzz", &ENC_KEY),
        Err(format!("hex parse error at 4: {}", std_words))
    );
}

#[test]
fn decryption_takes_a_plus_sign_like_the_standard_parser() {
    assert_eq!(u8::from_str_radix("+5", 16), Ok(5));
    assert_eq!(decrypt("+5", &[0x41]).ok().unwrap(), "D");
    assert!(u8::from_str_radix("-5", 16).is_err());
    assert!(matches!(decrypt("-5", &[0x41]), Err(CipherFault::NotHex(0))));
}

#[test]
fn decryption_refuses_what_is_not_utf8() {
    let bytes = vec![0x41, 0xff, 0x42];
    let std_words = String::from_utf8(bytes.clone()).unwrap_err().to_string();
    let hex: String = bytes.iter().map(|b| format!("{:02X}", b ^ 0x01)).collect();
    match types::xor_decrypt_from_hex(&hex, &[0x01]) {
        Err(e) => {
            assert!(matches!(e, DecryptError::InvalidUtf8(_)));
            assert_eq!(e.message(), std_words);
        }
        Ok(s) => panic!("{}", s),
    }
    assert_eq!(
        downlink::xor_decrypt_from_hex(&hex, &[0x01]),
        Err(format!("utf8 error: {}", std_words))
    );
}

#[test]
fn ground_decryption_trims_and_wants_even_length() {
    assert_eq!(downlink::xor_decrypt_from_hex(" \t2C3B6E\n", &ENC_KEY), Ok("ABC".to_string()));
    assert_eq!(
        downlink::xor_decrypt_from_hex("\u{a0}\u{2003}2C3B6E\u{3000}", &ENC_KEY),
        Ok("ABC".to_string())
    );
    assert_eq!(
        downlink::xor_decrypt_from_hex("2C3", &ENC_KEY),
        Err("hex length must be even".to_string())
    );
    assert_eq!(downlink::xor_decrypt_from_hex("  ", &ENC_KEY), Ok(String::new()));
}

#[test]
fn texts_that_cut_a_character_are_told_apart() {
    assert!(is_pairwise("2C3B"));
    assert!(is_pairwise(""));
    assert!(!is_pairwise("2C3"));
    assert!(is_pairwise("zz3"));
    // the first pair would end inside the character
    assert!(!is_pairwise("1é2"));
    assert!(is_pairwise("é2C"));
    assert!(downlink::is_decryptable("2C3"));
    assert!(downlink::is_decryptable("é2C"));
    assert!(!downlink::is_decryptable(" 1é2 "));
}
