use aes::cipher::{block_padding::Pkcs7, BlockEncryptMut, KeyIvInit};
use base64::Engine;

use authy_decryptor::decrypt::{
    check_json_input, decrypt_csv_tokens, decrypt_json_tokens, input_kind,
    looks_like_valid_otp_secret, normalize_csv_text, passphrase_is_acceptable,
    strip_surrounding_quotes, try_decrypt_all, BackupFormat, InputKind,
};
use authy_decryptor::{decrypt_csv_text, decrypt_json_text, decrypt_token, TokenRecord};

fn encrypt(passphrase: &str, salt: &str, iterations: u32, iv: [u8; 16], plain: &str) -> String {
    let mut key = [0u8; 32];
    pbkdf2::pbkdf2_hmac::<sha1::Sha1>(passphrase.as_bytes(), salt.as_bytes(), iterations, &mut key);
    let mut buf = vec![0u8; plain.len() + 16];
    buf[..plain.len()].copy_from_slice(plain.as_bytes());
    let ct = cbc::Encryptor::<aes::Aes256>::new(&key.into(), &iv.into())
        .encrypt_padded_mut::<Pkcs7>(&mut buf, plain.len())
        .unwrap();
    base64::engine::general_purpose::STANDARD.encode(ct)
}

fn record(name: &str, seed: String, salt: &str) -> TokenRecord {
    TokenRecord {
        name: name.to_string(),
        encrypted_seed: seed,
        salt: salt.to_string(),
        account_type: None,
        iv: None,
        unique_iv: None,
        key_derivation_iterations: None,
        issuer: None,
        logo: None,
        digits: None,
        unique_id: None,
    }
}

#[test]
fn otp_secret_validation() {
    assert!(looks_like_valid_otp_secret("JBSWY3DPEHPK3PXP"));
    assert!(looks_like_valid_otp_secret("jbswy3dpehpk3pxp"));
    assert!(looks_like_valid_otp_secret("JBSWY3DP===="));
    assert!(!looks_like_valid_otp_secret("SHORT"));
    assert!(!looks_like_valid_otp_secret("JBSWY3D1PEHPK"));
    assert!(!looks_like_valid_otp_secret("JBSW=Y3DPEHPK"));
}

#[test]
fn otp_secret_validation_edges() {
    assert!(looks_like_valid_otp_secret("  JBSWY3DP \n"));
    assert!(!looks_like_valid_otp_secret("========"));
    assert!(!looks_like_valid_otp_secret("JBSWY3D"));
    assert!(!looks_like_valid_otp_secret("ÄBSWY3DP"));
    assert!(!looks_like_valid_otp_secret("JBSW Y3DP"));
}

#[test]
fn strip_quotes_single_line_only() {
    assert_eq!(strip_surrounding_quotes("\"abc\""), "abc");
    assert_eq!(strip_surrounding_quotes("\"a\nb\""), "\"a\nb\"");
    assert_eq!(strip_surrounding_quotes("abc"), "abc");
}

#[test]
fn strip_quotes_edges() {
    assert_eq!(strip_surrounding_quotes("\""), "\"");
    assert_eq!(strip_surrounding_quotes("\"\""), "");
    assert_eq!(strip_surrounding_quotes("\"\"x\"\""), "\"x\"");
}

#[test]
fn csv_text_is_unquoted_and_unescaped() {
    assert_eq!(normalize_csv_text("\"a,b\\nc,d\""), "a,b\nc,d");
    assert_eq!(normalize_csv_text("a\\\\nb"), "a\\\nb");
    assert_eq!(normalize_csv_text("a\\x"), "a\\x");
}

#[test]
fn decrypt_token_recovers_the_seed() {
    let seed = encrypt("correct horse", "salty", 1000, [0u8; 16], "JBSWY3DPEHPK3PXP");
    let padded = format!("  {seed}\n");
    assert_eq!(decrypt_token(&padded, "salty", None, "correct horse", 1000).unwrap(), "JBSWY3DPEHPK3PXP");
    assert_eq!(decrypt_token(&seed, "salty", Some(""), "correct horse", 1000).unwrap(), "JBSWY3DPEHPK3PXP");
}

#[test]
fn decrypt_token_uses_the_hex_iv() {
    let iv = [7u8; 16];
    let seed = encrypt("pw123456", "s", 10, iv, " JBSWY3DP \n");
    let got = decrypt_token(&seed, "s", Some("07070707070707070707070707070707"), "pw123456", 10);
    assert_eq!(got.unwrap(), "JBSWY3DP");
}

#[test]
fn decrypt_token_errors() {
    let err = decrypt_token("not base64!", "s", None, "pw", 10).unwrap_err();
    assert!(err.starts_with("invalid base64 seed: "), "{err}");
    let seed = encrypt("pw", "s", 10, [0u8; 16], "JBSWY3DPEHPK3PXP");
    let err = decrypt_token(&seed, "s", Some("zz"), "pw", 10).unwrap_err();
    assert!(err.starts_with("invalid hex iv: "), "{err}");
    let err = decrypt_token(&seed, "s", Some("0011"), "pw", 10).unwrap_err();
    assert_eq!(err, "iv must be 16 bytes");
    let err = decrypt_token("AAAA", "s", None, "pw", 10).unwrap_err();
    assert_eq!(err, "decryption failed: Unpad Error");
}

#[test]
fn json_tokens_use_iterations_and_unique_iv() {
    let iv = [3u8; 16];
    let mut r = record("GitHub:alice", encrypt("secret-pass", "salt1", 500, iv, "JBSWY3DPEHPK3PXP"), "salt1");
    r.unique_iv = Some(hex::encode(iv));
    r.key_derivation_iterations = Some(500);
    r.digits = Some(8);
    r.unique_id = Some("id-1".to_string());
    r.issuer = Some("GitHub".to_string());
    let tokens = decrypt_json_tokens(&[r], "secret-pass").unwrap();
    assert_eq!(tokens.len(), 1);
    let t = &tokens[0];
    assert_eq!(t.decrypted_seed, "JBSWY3DPEHPK3PXP");
    assert_eq!(t.account_type, "authenticator");
    assert_eq!(t.name, "GitHub:alice");
    assert_eq!(t.issuer.as_deref(), Some("GitHub"));
    assert_eq!(t.digits, 8);
    assert_eq!(t.unique_id, "id-1");
}

#[test]
fn json_iterations_default_when_not_positive() {
    let mut r = record("a", encrypt("secret-pass", "s", 100_000, [0u8; 16], "JBSWY3DPEHPK3PXP"), "s");
    r.key_derivation_iterations = Some(0);
    r.account_type = Some("authy".to_string());
    let tokens = decrypt_json_tokens(&[r], "secret-pass").unwrap();
    assert_eq!(tokens[0].account_type, "authy");
    assert_eq!(tokens[0].digits, 6);
    assert_eq!(tokens[0].unique_id.len(), 36);
    let id: Vec<char> = tokens[0].unique_id.chars().collect();
    for (i, c) in id.iter().enumerate() {
        if [8, 13, 18, 23].contains(&i) {
            assert_eq!(*c, '-');
        } else {
            assert!(c.is_ascii_digit() || ('a'..='f').contains(c));
        }
    }
    assert_eq!(id[14], '4');
    assert!(['8', '9', 'a', 'b'].contains(&id[19]));
}

#[test]
fn csv_tokens_use_the_iv_column() {
    let iv = [9u8; 16];
    let mut r = record("bob", encrypt("secret-pass", "s", 100_000, iv, "JBSWY3DPEHPK3PXP"), "s");
    r.iv = Some(hex::encode(iv));
    r.unique_iv = Some("ignored".to_string());
    let tokens = decrypt_csv_tokens(&[r], "secret-pass").unwrap();
    assert_eq!(tokens[0].decrypted_seed, "JBSWY3DPEHPK3PXP");
}

#[test]
fn empty_exports_are_errors() {
    assert_eq!(decrypt_csv_tokens(&[], "pw").unwrap_err(), "❌ No records found in CSV file.");
    assert_eq!(decrypt_json_tokens(&[], "pw").unwrap_err(), "❌ No tokens found in JSON file.");
    assert_eq!(decrypt_csv_text(&[], "pw", "authy").unwrap_err(), "❌ No records found in CSV file.");
    assert_eq!(decrypt_json_text(&[], "pw", "authy").unwrap_err(), "❌ No tokens found in JSON file.");
}

#[test]
fn invalid_secrets_stop_the_export() {
    let mut a = record("", encrypt("pw", "s", 5, [0u8; 16], "hello world"), "s");
    a.key_derivation_iterations = Some(5);
    let err = try_decrypt_all(&[a], "pw", BackupFormat::Json).unwrap_err();
    assert_eq!(err, "Invalid OTP secret format for \"<unnamed>\"");
    let mut b = record("Named", encrypt("pw", "s", 5, [0u8; 16], "short"), "s");
    b.key_derivation_iterations = Some(5);
    let err = try_decrypt_all(&[b], "pw", BackupFormat::Json).unwrap_err();
    assert_eq!(err, "Invalid OTP secret format for \"Named\"");
}

#[test]
fn first_failing_record_decides_the_error() {
    let mut good = record("good", encrypt("pw", "s", 5, [0u8; 16], "JBSWY3DPEHPK3PXP"), "s");
    good.key_derivation_iterations = Some(5);
    let mut bad1 = record("bad1", "%%%".to_string(), "s");
    bad1.key_derivation_iterations = Some(5);
    let mut bad2 = record("bad2", encrypt("pw", "s", 5, [0u8; 16], "nope"), "s");
    bad2.key_derivation_iterations = Some(5);
    let err = decrypt_json_tokens(&[good, bad1, bad2], "pw").unwrap_err();
    assert!(err.starts_with("invalid base64 seed: "), "{err}");
}

#[test]
fn decrypt_json_text_formats_the_tokens() {
    let mut r = record("x", encrypt("pw", "s", 5, [0u8; 16], "JBSWY3DPEHPK3PXP"), "s");
    r.key_derivation_iterations = Some(5);
    r.unique_id = Some("u".to_string());
    let out = decrypt_json_text(&[r], "pw", "ente").unwrap();
    assert_eq!(out, "otpauth://totp/x-authy?secret=JBSWY3DPEHPK3PXP");
    let mut r = record("x", encrypt("pw", "s", 5, [0u8; 16], "JBSWY3DPEHPK3PXP"), "s");
    r.key_derivation_iterations = Some(5);
    assert_eq!(decrypt_json_text(&[r], "pw", "toml").unwrap_err(), "❌ Unsupported schema: toml");
}

#[test]
fn passphrases_need_six_bytes() {
    assert!(passphrase_is_acceptable("123456"));
    assert!(!passphrase_is_acceptable("12345"));
    assert!(passphrase_is_acceptable("ééé"));
}

#[test]
fn input_kinds_follow_the_extension() {
    assert_eq!(input_kind("/tmp/backup.csv"), InputKind::Csv);
    assert_eq!(input_kind("backup.json"), InputKind::Json);
    assert_eq!(input_kind("backup.txt"), InputKind::Unsupported);
    assert_eq!(input_kind("csv"), InputKind::Unsupported);
}

#[test]
fn json_input_checks() {
    let ok = r#"{"authenticator_tokens": [{"encrypted_seed": "abc", "salt": "s"}], "x": 1.5}"#;
    assert!(check_json_input(Some(ok)).is_ok());
    let unsupported = "\u{274c} Unsupported JSON structure: expecting encrypted tokens.";
    let failed = "\u{274c} Failed to read or parse JSON input.";
    assert_eq!(check_json_input(Some(r#"{"authenticator_tokens": []}"#)).unwrap_err(), unsupported);
    assert_eq!(check_json_input(Some(r#"{"authenticator_tokens": [{"seed": 1}]}"#)).unwrap_err(), unsupported);
    assert_eq!(check_json_input(Some(r#"{"authenticator_tokens": {"0": {"encrypted_seed": 1}}}"#)).unwrap_err(), unsupported);
    assert_eq!(check_json_input(Some("[1, 2]")).unwrap_err(), unsupported);
    assert_eq!(check_json_input(Some("{not json")).unwrap_err(), failed);
    assert_eq!(check_json_input(None).unwrap_err(), failed);
}

#[test]
fn decrypt_token_length_and_hex_edges() {
    // no ciphertext at all: nothing to unpad
    assert_eq!(decrypt_token("", "s", None, "pw", 10).unwrap_err(), "decryption failed: Unpad Error");
    // hex digits of either case are accepted for the iv
    let iv = [0xabu8; 16];
    let seed = encrypt("pw123456", "s", 10, iv, "JBSWY3DPEHPK3PXP");
    let got = decrypt_token(&seed, "s", Some("aBAbabABabABabABabABabABabABabAB"), "pw123456", 10);
    assert_eq!(got.unwrap(), "JBSWY3DPEHPK3PXP");
    // an odd number of digits is an error
    let err = decrypt_token(&seed, "s", Some("abc"), "pw123456", 10).unwrap_err();
    assert!(err.starts_with("invalid hex iv: "), "{err}");
}
