use authy_decryptor::totp::{decode_base32_secret, totp_at, totp_at_time, totp_code_from_tag};

#[test]
fn rfc6238_sha1_vectors() {
    let seed = b"12345678901234567890";
    assert_eq!(totp_at(seed, 59, 30, 8), "94287082");
    assert_eq!(totp_at(seed, 1111111109, 30, 8), "07081804");
    assert_eq!(totp_at(seed, 1111111111, 30, 8), "14050471");
    assert_eq!(totp_at(seed, 2000000000, 30, 8), "69279037");
}

#[test]
fn base32_decode_is_lenient() {
    assert!(decode_base32_secret("JBSWY3DPEHPK3PXP").is_some());
    assert_eq!(
        decode_base32_secret("jbswy3dpehpk3pxp"),
        decode_base32_secret("JBSWY3DPEHPK3PXP")
    );
    assert!(decode_base32_secret("").is_none());
}

#[test]
fn base32_decodes_known_secret() {
    assert_eq!(decode_base32_secret("JBSWY3DPEHPK3PXP"), Some(b"Hello!\xde\xad\xbe\xef".to_vec()));
}

#[test]
fn base32_ignores_spaces_and_padding() {
    let plain = decode_base32_secret("JBSWY3DPEHPK3PXP");
    assert_eq!(decode_base32_secret(" jbsw y3dp\tehpk 3pxp "), plain);
    assert_eq!(decode_base32_secret("JBSWY3DPEHPK3PXP===="), plain);
    assert_eq!(decode_base32_secret("JB=SWY3DPEHPK3PXP"), plain);
}

#[test]
fn base32_rejects_blank_and_invalid_secrets() {
    assert!(decode_base32_secret("  = \n").is_none());
    assert!(decode_base32_secret("JBSWY3DP1").is_none());
    assert!(decode_base32_secret("A").is_none());
}

#[test]
fn totp_codes_are_zero_padded_to_the_digit_count() {
    let seed = b"12345678901234567890";
    let code = totp_at(seed, 1111111109, 30, 8);
    assert_eq!(code.len(), 8);
    assert!(code.starts_with('0'));
    let six = totp_at(seed, 59, 30, 6);
    assert_eq!(six, "287082");
    assert_eq!(totp_at(seed, 59, 30, 1), "2");
    assert_eq!(totp_at(seed, 59, 30, 0), "0");
}

#[test]
fn totp_is_constant_within_a_time_step() {
    let seed = b"12345678901234567890";
    assert_eq!(totp_at(seed, 30, 30, 6), totp_at(seed, 59, 30, 6));
    assert_ne!(totp_at(seed, 59, 30, 8), totp_at(seed, 60, 30, 8));
}

#[test]
fn totp_period_zero_counts_seconds() {
    let seed = b"12345678901234567890";
    assert_eq!(totp_at(seed, 59, 0, 8), totp_at(seed, 59, 1, 8));
}

#[test]
fn totp_code_from_tag_uses_dynamic_truncation() {
    // RFC 4226 section 5.4 example.
    let tag: [u8; 20] = [
        0x1f, 0x86, 0x98, 0x69, 0x0e, 0x02, 0xca, 0x16, 0x61, 0x85, 0x50, 0xef, 0x7f, 0x19, 0xda,
        0x8e, 0x94, 0x5b, 0x55, 0x5a,
    ];
    assert_eq!(totp_code_from_tag(&tag, 6), "872921");
    assert_eq!(totp_code_from_tag(&tag, 9), "357872921");
}

#[test]
fn totp_at_time_reports_remaining_seconds() {
    // base32 of "12345678901234567890"
    let secret = "GEZDGNBVGY3TQOJQGEZDGNBVGY3TQOJQ";
    let (code, remaining) = totp_at_time(secret, 8, 30, 59).unwrap();
    assert_eq!(code, "94287082");
    assert_eq!(remaining, 1);
    let (_, remaining) = totp_at_time(secret, 8, 30, 60).unwrap();
    assert_eq!(remaining, 30);
    assert!(totp_at_time("not base32!", 6, 30, 59).is_none());
}

#[test]
fn totp_now_gives_a_code_for_a_valid_secret() {
    let (code, remaining) =
        authy_decryptor::totp::totp_now("GEZDGNBVGY3TQOJQGEZDGNBVGY3TQOJQ", 6, 30).unwrap();
    assert_eq!(code.len(), 6);
    assert!(code.chars().all(|c| c.is_ascii_digit()));
    assert!((1..=30).contains(&remaining));
    assert!(authy_decryptor::totp::totp_now("", 6, 30).is_none());
}

#[test]
fn unusable_parameters_do_not_matter_for_an_undecodable_secret() {
    assert!(totp_at_time("", 12, 0, 5).is_none());
    assert!(authy_decryptor::totp::totp_now("", 12, 0).is_none());
}

#[test]
fn totp_now_checked_refuses_unusable_parameters() {
    let secret = "GEZDGNBVGY3TQOJQGEZDGNBVGY3TQOJQ";
    assert!(authy_decryptor::totp::totp_now_checked(secret, 10, 30).is_none());
    assert!(authy_decryptor::totp::totp_now_checked(secret, 6, 0).is_none());
    assert!(authy_decryptor::totp::totp_now_checked("", 6, 30).is_none());
    let (code, remaining) = authy_decryptor::totp::totp_now_checked(secret, 6, 30).unwrap();
    assert_eq!(code.len(), 6);
    assert!((1..=30).contains(&remaining));
}
