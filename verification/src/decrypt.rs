use vstd::prelude::*;
use vstd::string::StringExecFns;

use crate::primitives::{
    aes256_cbc_decrypt, aes256_cbc_pkcs7_outcome, base64_decode, base64_standard_decoded,
    from_utf8_lossy, hex_decode, hex_outcome, new_uuid_v4, pbkdf2_sha1, pbkdf2_sha1_key32,
    is_uuid_v4_text, json_parsed, push_char, utf8_lossy,
};
use crate::json::{
    json_fields_view, json_seq_view, json_view, lemma_fields_view, lemma_seq_view, parse_json_value, Json,
    JsonV,
};
use crate::schemas::{get_schema_formatter, schema_for, SchemaFormatter};
use crate::text::{
    chars_of, concat_str, ends_with, lemma_trim_idempotent, str_equal, trim_start, white_space, string_from_chars, string_from_range, trim, trim_str,
};

verus! {

broadcast use vstd::string::group_string_axioms;

/// One token of an Authy backup as read from a CSV export or from the
/// `authenticator_tokens` list of a JSON export. `key_derivation_iterations`
/// and `digits` hold the integer that the backup's number-or-text field reads
/// as, `None` where the field is absent or reads as no number.
pub struct TokenRecord {
    pub name: String,
    pub encrypted_seed: String,
    pub salt: String,
    pub account_type: Option<String>,
    pub iv: Option<String>,
    pub unique_iv: Option<String>,
    pub key_derivation_iterations: Option<i64>,
    pub issuer: Option<String>,
    pub logo: Option<String>,
    pub digits: Option<i64>,
    pub unique_id: Option<String>,
}

/// A token with its decrypted TOTP secret.
#[derive(Clone, Debug, PartialEq, Eq)]
pub struct DecryptedToken {
    pub account_type: String,
    pub name: String,
    pub issuer: Option<String>,
    pub decrypted_seed: String,
    pub digits: i64,
    pub logo: Option<String>,
    pub unique_id: String,
}

/// The characters of an optional string.
pub open spec fn opt_view(o: Option<String>) -> Option<Seq<char>> {
    match o {
        Some(s) => Some(s@),
        None => None,
    }
}

/// The characters of an optional string slice.
pub open spec fn opt_str_view(o: Option<&str>) -> Option<Seq<char>> {
    match o {
        Some(s) => Some(s@),
        None => None,
    }
}

/// A textual result seen through the views of its parts.
pub open spec fn text_result(r: Result<String, String>) -> Result<Seq<char>, Seq<char>> {
    match r {
        Ok(s) => Ok(s@),
        Err(e) => Err(e@),
    }
}

/// The all-zero initialisation vector used when a record carries none.
pub open spec fn zero_iv() -> Seq<u8> {
    Seq::new(16, |i: int| 0u8)
}

/// The initialisation vector that a record's hex text gives: the zero vector
/// when the text is absent or empty, else its 16 decoded bytes, or the error.
pub open spec fn iv_from_hex(iv_hex: Option<Seq<char>>) -> Result<Seq<u8>, Seq<char>> {
    match iv_hex {
        Some(h) => if h.len() == 0 {
            Ok(zero_iv())
        } else {
            match hex_outcome(h) {
                Err(e) => Err("invalid hex iv: "@ + e),
                Ok(b) => if b.len() == 16 {
                    Ok(b)
                } else {
                    Err("iv must be 16 bytes"@)
                },
            }
        },
        None => Ok(zero_iv()),
    }
}

/// What decrypting one token gives: the base64 seed (after trimming) is
/// decrypted with AES-256-CBC under the PBKDF2-HMAC-SHA1 key of the passphrase
/// and salt, and the plaintext, read as lossy UTF-8, is trimmed.
pub open spec fn decrypt_token_result(
    seed_b64: Seq<char>,
    salt: Seq<char>,
    iv_hex: Option<Seq<char>>,
    passphrase: Seq<char>,
    iterations: u32,
) -> Result<Seq<char>, Seq<char>> {
    match base64_standard_decoded(trim(seed_b64)) {
        Err(e) => Err("invalid base64 seed: "@ + e),
        Ok(seed) => match iv_from_hex(iv_hex) {
            Err(e) => Err(e),
            Ok(iv) => match aes256_cbc_pkcs7_outcome(
                pbkdf2_sha1_key32(passphrase, salt, iterations),
                iv,
                seed,
            ) {
                None => Err("decryption failed: "@ + "Unpad Error"@),
                Some(plain) => Ok(trim(utf8_lossy(plain))),
            },
        },
    }
}

/// Decrypts one encrypted Authy seed.
pub fn decrypt_token(
    encrypted_seed_b64: &str,
    salt_str: &str,
    iv_hex: Option<&str>,
    passphrase: &str,
    iterations: u32,
) -> (res: Result<String, String>)
    ensures
        text_result(res) == decrypt_token_result(
            encrypted_seed_b64@,
            salt_str@,
            opt_str_view(iv_hex),
            passphrase@,
            iterations,
        ),
{
    let trimmed = trim_str(encrypted_seed_b64);
    let encrypted_seed = match base64_decode(trimmed.as_str()) {
        Ok(v) => v,
        Err(e) => {
            return Err(concat_str("invalid base64 seed: ", e.as_str()));
        },
    };
    let key = pbkdf2_sha1(passphrase, salt_str, iterations);
    let iv: Vec<u8> = match iv_hex {
        Some(h) if !h.is_empty() => {
            match hex_decode(h) {
                Err(e) => {
                    return Err(concat_str("invalid hex iv: ", e.as_str()));
                },
                Ok(bytes) => {
                    if bytes.len() != 16 {
                        return Err(String::from_str("iv must be 16 bytes"));
                    }
                    bytes
                },
            }
        },
        _ => {
            let mut z: Vec<u8> = Vec::new();
            while z.len() < 16
                invariant
                    z@.len() <= 16,
                    forall|k: int| 0 <= k < z@.len() ==> z@[k] == 0u8,
                decreases 16 - z@.len(),
            {
                z.push(0u8);
            }
            assert(z@ =~= zero_iv());
            z
        },
    };
    match aes256_cbc_decrypt(key.as_slice(), iv.as_slice(), encrypted_seed.as_slice()) {
        Err(e) => Err(concat_str("decryption failed: ", e.as_str())),
        Ok(plain) => {
            let text = from_utf8_lossy(plain.as_slice());
            Ok(trim_str(text.as_str()))
        },
    }
}

/// A character that may stand in the body of a base32 secret: an ASCII letter
/// of either case or a digit from 2 to 7.
pub open spec fn is_secret_char(c: char) -> bool {
    ('a' <= c && c <= 'z') || ('A' <= c && c <= 'Z') || ('2' <= c && c <= '7')
}

/// Whether `t[..k]` is a non-empty run of secret characters and `t[k..]` is all
/// `=` padding.
pub open spec fn is_secret_split(t: Seq<char>, k: int) -> bool {
    &&& 0 < k <= t.len()
    &&& forall|i: int| 0 <= i < k ==> is_secret_char(#[trigger] t[i])
    &&& forall|i: int| k <= i < t.len() ==> #[trigger] t[i] == '='
}

/// Whether `t` is a non-empty run of secret characters followed by `=` padding.
pub open spec fn has_secret_shape(t: Seq<char>) -> bool {
    exists|k: int| #[trigger] is_secret_split(t, k)
}

/// Whether `secret`, trimmed, looks like a base32 TOTP secret: at least eight
/// bytes long, a non-empty body of secret characters and then only padding.
pub open spec fn valid_otp_secret(secret: Seq<char>) -> bool {
    let t = trim(secret);
    vstd::utf8::encode_utf8(t).len() >= 8 && has_secret_shape(t)
}

/// Whether a decrypted seed looks like a base32 TOTP secret.
pub fn looks_like_valid_otp_secret(secret: &str) -> (res: bool)
    ensures
        res == valid_otp_secret(secret@),
{
    let t = trim_str(secret);
    if t.as_str().as_bytes().len() < 8 {
        return false;
    }
    let cs = chars_of(t.as_str());
    let n = cs.len();
    let mut seen_body = false;
    let mut in_padding = false;
    let ghost mut k: int = 0;
    let mut i: usize = 0;
    while i < n
        invariant
            n == cs@.len(),
            cs@ == trim(secret@),
            vstd::utf8::encode_utf8(cs@).len() >= 8,
            0 <= k <= i <= n,
            forall|j: int| 0 <= j < k ==> is_secret_char(#[trigger] cs@[j]),
            forall|j: int| k <= j < i ==> #[trigger] cs@[j] == '=',
            seen_body == (k > 0),
            in_padding == (k < i),
        decreases n - i,
    {
        let c = cs[i];
        if c == '=' {
            in_padding = true;
        } else {
            if in_padding {
                proof {
                    assert(cs@[k] == '=');
                    assert forall|k2: int| !#[trigger] is_secret_split(cs@, k2) by {
                        if is_secret_split(cs@, k2) {
                        if k2 > k {
                            assert(is_secret_char(cs@[k]));
                        } else {
                            assert(cs@[i as int] != '=');
                        }
                        }
                    }
                }
                return false;
            }
            let ok = ('a' <= c && c <= 'z') || ('A' <= c && c <= 'Z') || ('2' <= c && c <= '7');
            if !ok {
                proof {
                    assert forall|k2: int| !#[trigger] is_secret_split(cs@, k2) by {
                        if is_secret_split(cs@, k2) {
                        if k2 > i {
                            assert(is_secret_char(cs@[i as int]));
                        } else {
                            assert(cs@[i as int] != '=');
                        }
                        }
                    }
                }
                return false;
            }
            seen_body = true;
            proof {
                k = i + 1;
            }
        }
        i = i + 1;
    }
    proof {
        if !seen_body {
            assert forall|k2: int| !#[trigger] is_secret_split(cs@, k2) by {
                if is_secret_split(cs@, k2) {
                    assert(is_secret_char(cs@[0]));
                }
            }
        } else {
            assert(is_secret_split(cs@, k));
        }
    }
    seen_body
}

/// `s` without one pair of surrounding double quotes, where `s` is a single
/// line of at least two characters that starts and ends with one.
pub open spec fn strip_quotes(s: Seq<char>) -> Seq<char> {
    if !s.contains('\n') && s.len() >= 2 && s[0] == '"' && s.last() == '"' {
        s.subrange(1, s.len() - 1)
    } else {
        s
    }
}

/// Removes the quotes that surround a single-line text.
pub fn strip_surrounding_quotes(s: &str) -> (res: String)
    ensures
        res@ == strip_quotes(s@),
{
    let cs = chars_of(s);
    let n = cs.len();
    let mut i: usize = 0;
    while i < n
        invariant
            n == cs@.len(),
            cs@ == s@,
            i <= n,
            forall|j: int| 0 <= j < i ==> cs@[j] != '\n',
        decreases n - i,
    {
        if cs[i] == '\n' {
            assert(cs@[i as int] == '\n');
            assert(cs@.contains('\n'));
            return string_from_chars(&cs);
        }
        i = i + 1;
    }
    assert(!cs@.contains('\n'));
    if n >= 2 && cs[0] == '"' && cs[n - 1] == '"' {
        string_from_range(&cs, 1, n - 1)
    } else {
        string_from_chars(&cs)
    }
}

/// Which export a record came from; it decides where the record's
/// initialisation vector and its PBKDF2 round count are read.
#[derive(Clone, Copy, Debug, PartialEq, Eq)]
pub enum BackupFormat {
    /// A minimal CSV export: the `iv` column, and 100 000 rounds.
    Csv,
    /// An encrypted JSON export: `unique_iv`, and `key_derivation_iterations`
    /// where it is positive.
    Json,
}

/// The round count used when a record gives none.
pub open spec fn default_iterations() -> u32 {
    100_000
}

/// The hex text of the record's initialisation vector.
pub open spec fn record_iv(format: BackupFormat, r: TokenRecord) -> Option<Seq<char>> {
    match format {
        BackupFormat::Csv => opt_view(r.iv),
        BackupFormat::Json => opt_view(r.unique_iv),
    }
}

/// The PBKDF2 round count for the record: a positive count of a JSON record,
/// taken modulo 2^32, else the default.
pub open spec fn record_iterations(format: BackupFormat, r: TokenRecord) -> u32 {
    match format {
        BackupFormat::Csv => default_iterations(),
        BackupFormat::Json => match r.key_derivation_iterations {
            Some(i) => if i > 0 {
                i as u32
            } else {
                default_iterations()
            },
            None => default_iterations(),
        },
    }
}

/// The message for a record whose decrypted seed is not a TOTP secret.
pub open spec fn invalid_secret_message(name: Seq<char>) -> Seq<char> {
    "Invalid OTP secret format for \""@ + (if name.len() == 0 {
        "<unnamed>"@
    } else {
        name
    }) + "\""@
}

/// The decrypted seed of one record, or the error that stops the export.
pub open spec fn record_outcome(format: BackupFormat, r: TokenRecord, passphrase: Seq<char>) -> Result<
    Seq<char>,
    Seq<char>,
> {
    match decrypt_token_result(
        r.encrypted_seed@,
        r.salt@,
        record_iv(format, r),
        passphrase,
        record_iterations(format, r),
    ) {
        Err(e) => Err(e),
        Ok(d) => if valid_otp_secret(d) {
            Ok(d)
        } else {
            Err(invalid_secret_message(r.name@))
        },
    }
}

/// The decrypted seeds of all records in order, or the error of the first
/// record that fails.
pub open spec fn decrypt_all_outcome(
    format: BackupFormat,
    rs: Seq<TokenRecord>,
    passphrase: Seq<char>,
) -> Result<Seq<Seq<char>>, Seq<char>>
    decreases rs.len(),
{
    if rs.len() == 0 {
        Ok(Seq::empty())
    } else {
        match decrypt_all_outcome(format, rs.drop_last(), passphrase) {
            Err(e) => Err(e),
            Ok(ds) => match record_outcome(format, rs.last(), passphrase) {
                Err(e) => Err(e),
                Ok(d) => Ok(ds.push(d)),
            },
        }
    }
}

/// `t` is the token made of record `r` and its decrypted seed: missing account
/// types read "authenticator", missing digits read 6, and a record without a
/// unique id gets a fresh version-4 UUID in hyphenated lowercase form.
pub open spec fn token_matches(t: DecryptedToken, r: TokenRecord, seed: Seq<char>) -> bool {
    &&& t.account_type@ == match r.account_type {
        Some(a) => a@,
        None => "authenticator"@,
    }
    &&& t.name@ == r.name@
    &&& opt_view(t.issuer) == opt_view(r.issuer)
    &&& t.decrypted_seed@ == seed
    &&& t.digits == match r.digits {
        Some(d) => d,
        None => 6,
    }
    &&& opt_view(t.logo) == opt_view(r.logo)
    &&& match r.unique_id {
        Some(u) => t.unique_id@ == u@,
        None => is_uuid_v4_text(t.unique_id@),
    }
}

/// A copy of an optional string.
fn clone_opt(o: &Option<String>) -> (res: Option<String>)
    ensures
        opt_view(res) == opt_view(*o),
{
    match o {
        Some(s) => Some(s.clone()),
        None => None,
    }
}

/// The token made of a record and its decrypted seed.
pub fn token_from_record(r: &TokenRecord, decrypted_seed: String) -> (t: DecryptedToken)
    ensures
        token_matches(t, *r, decrypted_seed@),
{
    DecryptedToken {
        account_type: match &r.account_type {
            Some(a) => a.clone(),
            None => String::from_str("authenticator"),
        },
        name: r.name.clone(),
        issuer: clone_opt(&r.issuer),
        decrypted_seed,
        digits: match r.digits {
            Some(d) => d,
            None => 6,
        },
        logo: clone_opt(&r.logo),
        unique_id: match &r.unique_id {
            Some(u) => u.clone(),
            None => new_uuid_v4(),
        },
    }
}

/// Once a prefix of the records fails, the whole list fails with that error.
proof fn lemma_failure_persists(
    format: BackupFormat,
    rs: Seq<TokenRecord>,
    passphrase: Seq<char>,
    i: int,
)
    requires
        0 <= i <= rs.len(),
        decrypt_all_outcome(format, rs.take(i), passphrase) is Err,
    ensures
        decrypt_all_outcome(format, rs, passphrase) == decrypt_all_outcome(
            format,
            rs.take(i),
            passphrase,
        ),
    decreases rs.len() - i,
{
    if i < rs.len() {
        assert(rs.take(i + 1).drop_last() =~= rs.take(i));
        lemma_failure_persists(format, rs, passphrase, i + 1);
    } else {
        assert(rs.take(i) =~= rs);
    }
}

/// Decrypts every record with the passphrase, stopping at the first record
/// that fails to decrypt or whose seed is not a TOTP secret.
pub fn try_decrypt_all(records: &[TokenRecord], passphrase: &str, format: BackupFormat) -> (res:
    Result<Vec<DecryptedToken>, String>)
    ensures
        match res {
            Ok(tokens) => match decrypt_all_outcome(format, records@, passphrase@) {
                Ok(seeds) => tokens@.len() == records@.len() && forall|i: int|
                    0 <= i < records@.len() ==> token_matches(
                        #[trigger] tokens@[i],
                        records@[i],
                        seeds[i],
                    ),
                Err(_) => false,
            },
            Err(e) => decrypt_all_outcome(format, records@, passphrase@) == Err::<
                Seq<Seq<char>>,
                Seq<char>,
            >(e@),
        },
{
    let mut output: Vec<DecryptedToken> = Vec::new();
    let ghost mut seeds: Seq<Seq<char>> = Seq::empty();
    let n = records.len();
    let mut i: usize = 0;
    while i < n
        invariant
            n == records@.len(),
            i <= n,
            decrypt_all_outcome(format, records@.take(i as int), passphrase@) == Ok::<
                Seq<Seq<char>>,
                Seq<char>,
            >(seeds),
            output@.len() == i,
            seeds.len() == i,
            forall|j: int| 0 <= j < i ==> token_matches(#[trigger] output@[j], records@[j], seeds[j]),
        decreases n - i,
    {
        let row = &records[i];
        proof {
            assert(records@.take(i + 1).drop_last() =~= records@.take(i as int));
            assert(records@.take(i + 1).last() == records@[i as int]);
        }
        let iv: Option<&str> = match format {
            BackupFormat::Csv => match &row.iv {
                Some(s) => Some(s.as_str()),
                None => None,
            },
            BackupFormat::Json => match &row.unique_iv {
                Some(s) => Some(s.as_str()),
                None => None,
            },
        };
        let iterations: u32 = match format {
            BackupFormat::Csv => 100_000,
            BackupFormat::Json => match row.key_derivation_iterations {
                Some(k) => if k > 0 {
                    k as u32
                } else {
                    100_000
                },
                None => 100_000,
            },
        };
        let decrypted = match decrypt_token(
            row.encrypted_seed.as_str(),
            row.salt.as_str(),
            iv,
            passphrase,
            iterations,
        ) {
            Ok(d) => d,
            Err(e) => {
                proof {
                    lemma_failure_persists(format, records@, passphrase@, i + 1);
                }
                return Err(e);
            },
        };
        if !looks_like_valid_otp_secret(decrypted.as_str()) {
            let mut msg = String::from_str("Invalid OTP secret format for \"");
            if row.name.as_str().is_empty() {
                msg.append("<unnamed>");
            } else {
                msg.append(row.name.as_str());
            }
            msg.append("\"");
            proof {
                lemma_failure_persists(format, records@, passphrase@, i + 1);
            }
            return Err(msg);
        }
        let token = token_from_record(row, decrypted);
        output.push(token);
        proof {
            seeds = seeds.push(token.decrypted_seed@);
        }
        i = i + 1;
    }
    proof {
        assert(records@.take(n as int) =~= records@);
    }
    Ok(output)
}

/// Writes decrypted tokens in the named schema, or names the schema as
/// unsupported.
pub fn format_tokens(tokens: &[DecryptedToken], schema: &str) -> (res: Result<String, String>)
    ensures
        match schema_for(schema@) {
            Some(f) => res matches Ok(text) && f.formats_as(tokens@, text@),
            None => res matches Err(e) && e@ == "\u{274c} Unsupported schema: "@ + schema@,
        },
{
    match get_schema_formatter(schema) {
        Some(f) => Ok(f.format(tokens)),
        None => Err(concat_str("\u{274c} Unsupported schema: ", schema)),
    }
}

/// Decrypts the records of a minimal CSV export.
pub fn decrypt_csv_token_list(records: &[TokenRecord], passphrase: &str) -> (res: Result<
    Vec<DecryptedToken>,
    String,
>)
    ensures
        decrypted_as(res, records@, passphrase@, BackupFormat::Csv),
{
    try_decrypt_all(records, passphrase, BackupFormat::Csv)
}

/// Decrypts the records of an encrypted JSON export.
pub fn decrypt_json_token_list(records: &[TokenRecord], passphrase: &str) -> (res: Result<
    Vec<DecryptedToken>,
    String,
>)
    ensures
        decrypted_as(res, records@, passphrase@, BackupFormat::Json),
{
    try_decrypt_all(records, passphrase, BackupFormat::Json)
}

/// `res` is what decrypting all `records` gives: on success one matching token
/// per record, else the error of the first record that fails.
pub open spec fn decrypted_as(
    res: Result<Vec<DecryptedToken>, String>,
    records: Seq<TokenRecord>,
    passphrase: Seq<char>,
    format: BackupFormat,
) -> bool {
    match res {
        Ok(tokens) => match decrypt_all_outcome(format, records, passphrase) {
            Ok(seeds) => tokens@.len() == records.len() && forall|i: int|
                0 <= i < records.len() ==> token_matches(#[trigger] tokens@[i], records[i], seeds[i]),
            Err(_) => false,
        },
        Err(e) => decrypt_all_outcome(format, records, passphrase) == Err::<
            Seq<Seq<char>>,
            Seq<char>,
        >(e@),
    }
}

/// Decrypts the records read from a minimal CSV export; an export without
/// records is an error.
pub fn decrypt_csv_tokens(records: &[TokenRecord], passphrase: &str) -> (res: Result<
    Vec<DecryptedToken>,
    String,
>)
    ensures
        records@.len() == 0 ==> (res matches Err(e) && e@ == "\u{274c} No records found in CSV file."@),
        records@.len() > 0 ==> decrypted_as(res, records@, passphrase@, BackupFormat::Csv),
{
    if records.len() == 0 {
        return Err(String::from_str("\u{274c} No records found in CSV file."));
    }
    decrypt_csv_token_list(records, passphrase)
}

/// Decrypts the records read from an encrypted JSON export; an export without
/// tokens is an error.
pub fn decrypt_json_tokens(records: &[TokenRecord], passphrase: &str) -> (res: Result<
    Vec<DecryptedToken>,
    String,
>)
    ensures
        records@.len() == 0 ==> (res matches Err(e) && e@ == "\u{274c} No tokens found in JSON file."@),
        records@.len() > 0 ==> decrypted_as(res, records@, passphrase@, BackupFormat::Json),
{
    if records.len() == 0 {
        return Err(String::from_str("\u{274c} No tokens found in JSON file."));
    }
    decrypt_json_token_list(records, passphrase)
}

/// Decrypts the records of a CSV export and writes them in the named schema.
pub fn decrypt_csv_text(records: &[TokenRecord], passphrase: &str, schema: &str) -> (res: Result<
    String,
    String,
>)
    ensures
        records@.len() == 0 ==> (res matches Err(e) && e@ == "\u{274c} No records found in CSV file."@),
        records@.len() > 0 ==> written_as(res, records@, passphrase@, BackupFormat::Csv, schema@),
{
    match decrypt_csv_tokens(records, passphrase) {
        Err(e) => Err(e),
        Ok(tokens) => format_tokens(tokens.as_slice(), schema),
    }
}

/// Decrypts the records of a JSON export and writes them in the named schema.
pub fn decrypt_json_text(records: &[TokenRecord], passphrase: &str, schema: &str) -> (res: Result<
    String,
    String,
>)
    ensures
        records@.len() == 0 ==> (res matches Err(e) && e@ == "\u{274c} No tokens found in JSON file."@),
        records@.len() > 0 ==> written_as(res, records@, passphrase@, BackupFormat::Json, schema@),
{
    match decrypt_json_tokens(records, passphrase) {
        Err(e) => Err(e),
        Ok(tokens) => format_tokens(tokens.as_slice(), schema),
    }
}

/// `res` is what decrypting the records and writing them in the schema gives:
/// the first decryption error, else the unsupported-schema error, else a text
/// of the schema for tokens that match the records one by one.
pub open spec fn written_as(
    res: Result<String, String>,
    records: Seq<TokenRecord>,
    passphrase: Seq<char>,
    format: BackupFormat,
    schema: Seq<char>,
) -> bool {
    match decrypt_all_outcome(format, records, passphrase) {
        Err(e) => res matches Err(m) && m@ == e,
        Ok(seeds) => match schema_for(schema) {
            None => res matches Err(m) && m@ == "\u{274c} Unsupported schema: "@ + schema,
            Some(f) => res matches Ok(text) && exists|tokens: Seq<DecryptedToken>|
                {
                    &&& tokens.len() == records.len()
                    &&& forall|i: int|
                        0 <= i < records.len() ==> token_matches(
                            #[trigger] tokens[i],
                            records[i],
                            seeds[i],
                        )
                    &&& f.formats_as(tokens, text@)
                },
        },
    }
}

/// `s` with every two-character sequence backslash, `n` (read left to right,
/// without overlaps) replaced by a line feed.
pub open spec fn unescape_newlines(s: Seq<char>) -> Seq<char>
    decreases s.len(),
{
    if s.len() == 0 {
        Seq::empty()
    } else if s.len() >= 2 && s[0] == '\\' && s[1] == 'n' {
        seq!['\n'] + unescape_newlines(s.skip(2))
    } else {
        seq![s[0]] + unescape_newlines(s.skip(1))
    }
}

/// The CSV text as it is handed to the CSV reader: surrounding quotes of a
/// single-line text removed, then escaped line feeds turned into real ones.
pub open spec fn csv_text_for_reader(raw: Seq<char>) -> Seq<char> {
    unescape_newlines(strip_quotes(raw))
}

/// Prepares the raw text of a minimal CSV export for the CSV reader.
pub fn normalize_csv_text(raw: &str) -> (res: String)
    ensures
        res@ == csv_text_for_reader(raw@),
{
    let stripped = strip_surrounding_quotes(raw);
    let cs = chars_of(stripped.as_str());
    let n = cs.len();
    let mut out = String::new();
    let mut i: usize = 0;
    proof {
        assert(cs@.skip(0) =~= cs@);
    }
    while i < n
        invariant
            n == cs@.len(),
            i <= n,
            out@ + unescape_newlines(cs@.skip(i as int)) == unescape_newlines(cs@),
        decreases n - i,
    {
        let ghost rest = cs@.skip(i as int);
        let ghost before = out@;
        if i + 1 < n && cs[i] == '\\' && cs[i + 1] == 'n' {
            push_char(&mut out, '\n');
            proof {
                assert(rest.skip(2) =~= cs@.skip(i + 2));
                assert(out@ + unescape_newlines(cs@.skip(i + 2)) =~= before + unescape_newlines(rest));
            }
            i = i + 2;
        } else {
            push_char(&mut out, cs[i]);
            proof {
                assert(rest.skip(1) =~= cs@.skip(i + 1));
                assert(out@ + unescape_newlines(cs@.skip(i + 1)) =~= before + unescape_newlines(rest));
            }
            i = i + 1;
        }
    }
    proof {
        assert(cs@.skip(n as int) =~= Seq::<char>::empty());
        assert(out@ =~= unescape_newlines(cs@));
    }
    out
}

/// Whether a passphrase is long enough to be used: at least six bytes.
pub fn passphrase_is_acceptable(passphrase: &str) -> (res: bool)
    ensures
        res == (vstd::utf8::encode_utf8(passphrase@).len() >= 6),
{
    passphrase.as_bytes().len() >= 6
}

/// The kinds of input file, told by the file name.
#[derive(Clone, Copy, Debug, PartialEq, Eq)]
pub enum InputKind {
    Csv,
    Json,
    Unsupported,
}

/// Whether `s` ends with `suffix`.
pub open spec fn has_suffix(s: Seq<char>, suffix: Seq<char>) -> bool {
    suffix.len() <= s.len() && s.subrange(s.len() - suffix.len(), s.len() as int) == suffix
}

/// The kind of an input file from its name: ".csv", ".json", or neither.
pub fn input_kind(path: &str) -> (res: InputKind)
    ensures
        res == (if has_suffix(path@, ".csv"@) {
            InputKind::Csv
        } else if has_suffix(path@, ".json"@) {
            InputKind::Json
        } else {
            InputKind::Unsupported
        }),
{
    if ends_with(path, ".csv") {
        InputKind::Csv
    } else if ends_with(path, ".json") {
        InputKind::Json
    } else {
        InputKind::Unsupported
    }
}

/// Whether object members include one with key `key`.
pub open spec fn has_member(ms: Seq<(Seq<char>, JsonV)>, key: Seq<char>) -> bool {
    exists|i: int| 0 <= i < ms.len() && (#[trigger] ms[i]).0 == key
}

/// Whether `v` is a non-empty array whose first item is an object with an
/// `encrypted_seed` member.
pub open spec fn first_token_has_seed(v: JsonV) -> bool {
    match v {
        JsonV::Arr(items) => items.len() > 0 && match items[0] {
            JsonV::Obj(ms) => has_member(ms, "encrypted_seed"@),
            _ => false,
        },
        _ => false,
    }
}

/// Whether `v` is an encrypted JSON export: an object whose
/// `authenticator_tokens` member is an array whose first item is an object
/// with an `encrypted_seed` member. (The members of a parsed object have
/// distinct keys.)
pub open spec fn has_encrypted_tokens(v: JsonV) -> bool {
    match v {
        JsonV::Obj(ms) => exists|i: int|
            0 <= i < ms.len() && (#[trigger] ms[i]).0 == "authenticator_tokens"@ && first_token_has_seed(
                ms[i].1,
            ),
        _ => false,
    }
}

/// Whether an object's members include `key`.
fn json_has_member(ms: &Vec<(String, Json)>, key: &str) -> (res: bool)
    ensures
        res == has_member(json_fields_view(ms@), key@),
{
    proof {
        lemma_fields_view(ms@);
    }
    let n = ms.len();
    let mut i: usize = 0;
    while i < n
        invariant
            n == ms@.len(),
            json_fields_view(ms@).len() == n,
            forall|k: int| 0 <= k < n ==> #[trigger] json_fields_view(ms@)[k] == (ms@[k].0@, json_view(ms@[k].1)),
            i <= n,
            forall|k: int| 0 <= k < i ==> (#[trigger] json_fields_view(ms@)[k]).0 != key@,
        decreases n - i,
    {
        if str_equal(ms[i].0.as_str(), key) {
            assert(json_fields_view(ms@)[i as int].0 == key@);
            return true;
        }
        i = i + 1;
    }
    false
}

/// Whether a JSON value is a non-empty array whose first item has an
/// `encrypted_seed` member.
fn json_first_token_has_seed(j: &Json) -> (res: bool)
    ensures
        res == first_token_has_seed(j@),
{
    match j {
        Json::Arr(items) => {
            if items.len() == 0 {
                return false;
            }
            proof {
                lemma_seq_view(items@);
            }
            match &items[0] {
                Json::Obj(ms) => json_has_member(ms, "encrypted_seed"),
                _ => false,
            }
        },
        _ => false,
    }
}

/// Whether a parsed JSON value is an encrypted export.
pub fn json_has_encrypted_tokens(j: &Json) -> (res: bool)
    ensures
        res == has_encrypted_tokens(j@),
{
    match j {
        Json::Obj(ms) => {
            proof {
                lemma_fields_view(ms@);
            }
            let ghost fs = json_fields_view(ms@);
            let n = ms.len();
            let mut i: usize = 0;
            while i < n
                invariant
                    n == ms@.len(),
                    *j == Json::Obj(*ms),
                    fs == json_fields_view(ms@),
                    fs.len() == n,
                    forall|k: int| 0 <= k < n ==> #[trigger] fs[k] == (ms@[k].0@, json_view(ms@[k].1)),
                    i <= n,
                    forall|k: int|
                        0 <= k < i ==> !((#[trigger] fs[k]).0 == "authenticator_tokens"@
                            && first_token_has_seed(fs[k].1)),
                decreases n - i,
            {
                let is_key = str_equal(ms[i].0.as_str(), "authenticator_tokens");
                if is_key && json_first_token_has_seed(&ms[i].1) {
                    assert(fs[i as int].0 == "authenticator_tokens"@ && first_token_has_seed(fs[i as int].1));
                    assert(j@ == JsonV::Obj(fs));
                    assert(has_encrypted_tokens(JsonV::Obj(fs)));
                    return true;
                }
                assert(!(fs[i as int].0 == "authenticator_tokens"@ && first_token_has_seed(fs[i as int].1)));
                i = i + 1;
            }
            false
        },
        _ => false,
    }
}

/// Whether a JSON input can be decrypted, from its text (`None` when the file
/// could not be read): it must parse and be an encrypted export.
pub fn check_json_input(text: Option<&str>) -> (res: Result<(), String>)
    ensures
        match text {
            None => res matches Err(e) && e@ == "\u{274c} Failed to read or parse JSON input."@,
            Some(t) => match json_parsed(t@) {
                None => res matches Err(e) && e@ == "\u{274c} Failed to read or parse JSON input."@,
                Some(v) => if has_encrypted_tokens(v) {
                    res is Ok
                } else {
                    res matches Err(e) && e@
                        == "\u{274c} Unsupported JSON structure: expecting encrypted tokens."@
                },
            },
        },
{
    let parsed = match text {
        Some(t) => parse_json_value(t),
        None => None,
    };
    match parsed {
        None => Err(String::from_str("\u{274c} Failed to read or parse JSON input.")),
        Some(j) => if json_has_encrypted_tokens(&j) {
            Ok(())
        } else {
            Err(String::from_str("\u{274c} Unsupported JSON structure: expecting encrypted tokens."))
        },
    }
}

/// Decrypting a list succeeds exactly when every record succeeds, and then
/// yields each record's seed in order; otherwise it fails with the error of
/// the first record that fails.
pub proof fn lemma_decrypt_all_or_first_error(
    format: BackupFormat,
    rs: Seq<TokenRecord>,
    passphrase: Seq<char>,
)
    ensures
        match decrypt_all_outcome(format, rs, passphrase) {
            Ok(seeds) => {
                &&& seeds.len() == rs.len()
                &&& forall|i: int|
                    0 <= i < rs.len() ==> #[trigger] record_outcome(format, rs[i], passphrase)
                        == Ok::<Seq<char>, Seq<char>>(seeds[i])
            },
            Err(e) => exists|i: int|
                {
                    &&& 0 <= i < rs.len()
                    &&& #[trigger] record_outcome(format, rs[i], passphrase) == Err::<
                        Seq<char>,
                        Seq<char>,
                    >(e)
                    &&& forall|j: int|
                        0 <= j < i ==> (#[trigger] record_outcome(format, rs[j], passphrase)) is Ok
                },
        },
    decreases rs.len(),
{
    if rs.len() > 0 {
        let init = rs.drop_last();
        lemma_decrypt_all_or_first_error(format, init, passphrase);
        let n = rs.len() - 1;
        assert(rs[n] == rs.last());
        assert forall|j: int| 0 <= j < n implies init[j] == rs[j] by {}
        match decrypt_all_outcome(format, init, passphrase) {
            Err(e) => {
                let i = choose|i: int|
                    {
                        &&& 0 <= i < init.len()
                        &&& #[trigger] record_outcome(format, init[i], passphrase) == Err::<
                            Seq<char>,
                            Seq<char>,
                        >(e)
                        &&& forall|j: int|
                            0 <= j < i ==> (#[trigger] record_outcome(
                                format,
                                init[j],
                                passphrase,
                            )) is Ok
                    };
                assert(init[i] == rs[i]);
                assert forall|j: int| 0 <= j < i implies (#[trigger] record_outcome(
                    format,
                    rs[j],
                    passphrase,
                )) is Ok by {
                    assert(init[j] == rs[j]);
                    assert(record_outcome(format, init[j], passphrase) is Ok);
                }
            },
            Ok(ds) => {
                match record_outcome(format, rs.last(), passphrase) {
                    Err(e) => {
                        assert forall|j: int| 0 <= j < n implies (#[trigger] record_outcome(
                            format,
                            rs[j],
                            passphrase,
                        )) is Ok by {
                            assert(init[j] == rs[j]);
                            assert(record_outcome(format, init[j], passphrase) == Ok::<
                                Seq<char>,
                                Seq<char>,
                            >(ds[j]));
                        }
                    },
                    Ok(d) => {
                        assert forall|i: int| 0 <= i < rs.len() implies #[trigger] record_outcome(
                            format,
                            rs[i],
                            passphrase,
                        ) == Ok::<Seq<char>, Seq<char>>(ds.push(d)[i]) by {
                            if i < n {
                                assert(init[i] == rs[i]);
                                assert(record_outcome(format, init[i], passphrase) == Ok::<
                                    Seq<char>,
                                    Seq<char>,
                                >(ds[i]));
                            }
                        }
                    },
                }
            },
        }
    }
}

/// White space around the encrypted seed does not matter, and a decrypted
/// seed never has white space around it.
pub proof fn lemma_decrypt_token_trims(
    seed_b64: Seq<char>,
    salt: Seq<char>,
    iv_hex: Option<Seq<char>>,
    passphrase: Seq<char>,
    iterations: u32,
)
    ensures
        decrypt_token_result(trim(seed_b64), salt, iv_hex, passphrase, iterations)
            == decrypt_token_result(seed_b64, salt, iv_hex, passphrase, iterations),
        decrypt_token_result(seed_b64, salt, iv_hex, passphrase, iterations) matches Ok(d) ==> trim(d)
            == d,
{
    lemma_trim_idempotent(seed_b64);
    match decrypt_token_result(seed_b64, salt, iv_hex, passphrase, iterations) {
        Ok(d) => {
            let seed = base64_standard_decoded(trim(seed_b64))->Ok_0;
            let iv = iv_from_hex(iv_hex)->Ok_0;
            let plain = aes256_cbc_pkcs7_outcome(
                pbkdf2_sha1_key32(passphrase, salt, iterations),
                iv,
                seed,
            )->Some_0;
            lemma_trim_idempotent(utf8_lossy(plain));
        },
        Err(_) => {},
    }
}


/// Text with no white space at either end is its own trim.
proof fn lemma_trim_unchanged(s: Seq<char>)
    requires
        s.len() > 0,
        !white_space(s[0]),
        !white_space(s.last()),
    ensures
        trim(s) == s,
{
    assert(trim_start(s) == s);
}

/// Every text of at least eight bytes made of ASCII letters of either case and
/// the digits 2 to 7 (the base32 alphabet), optionally followed by `=`
/// padding, is accepted as a TOTP secret.
pub proof fn lemma_base32_text_is_valid_secret(body: Seq<char>, pad: nat)
    requires
        body.len() >= 1,
        forall|i: int|
            0 <= i < body.len() ==> ('A' <= #[trigger] body[i] <= 'Z') || ('a' <= body[i] <= 'z') || (
            '2' <= body[i] <= '7'),
        vstd::utf8::encode_utf8(body + Seq::new(pad, |i: int| '=')).len() >= 8,
    ensures
        valid_otp_secret(body + Seq::new(pad, |i: int| '=')),
{
    let t = body + Seq::new(pad, |i: int| '=');
    assert(t[0] == body[0]);
    if pad == 0 {
        assert(t.last() == body.last());
        assert(body.last() == body[body.len() - 1]);
    } else {
        assert(t.last() == '=');
    }
    lemma_trim_unchanged(t);
    assert(is_secret_split(t, body.len() as int)) by {
        assert forall|i: int| 0 <= i < body.len() implies is_secret_char(#[trigger] t[i]) by {
            assert(t[i] == body[i]);
        }
    }
}

/// A text that, once trimmed, holds a character other than an ASCII letter,
/// a digit from 2 to 7 or `=` is refused as a TOTP secret.
pub proof fn lemma_foreign_char_refused(s: Seq<char>, i: int)
    requires
        0 <= i < trim(s).len(),
        !(('A' <= trim(s)[i] <= 'Z') || ('a' <= trim(s)[i] <= 'z') || ('2' <= trim(s)[i] <= '7')
            || trim(s)[i] == '='),
    ensures
        !valid_otp_secret(s),
{
    let t = trim(s);
    assert forall|k: int| !#[trigger] is_secret_split(t, k) by {
        if is_secret_split(t, k) {
            if i < k {
                assert(is_secret_char(t[i]));
            } else {
                assert(t[i] == '=');
            }
        }
    }
}

/// A record whose seed decrypts to a base32 secret of at least eight bytes
/// decrypts successfully, to that secret.
pub proof fn lemma_base32_seed_record_decrypts(
    format: BackupFormat,
    r: TokenRecord,
    passphrase: Seq<char>,
    body: Seq<char>,
    pad: nat,
)
    requires
        body.len() >= 1,
        forall|i: int|
            0 <= i < body.len() ==> ('A' <= #[trigger] body[i] <= 'Z') || ('a' <= body[i] <= 'z') || (
            '2' <= body[i] <= '7'),
        vstd::utf8::encode_utf8(body + Seq::new(pad, |i: int| '=')).len() >= 8,
        decrypt_token_result(
            r.encrypted_seed@,
            r.salt@,
            record_iv(format, r),
            passphrase,
            record_iterations(format, r),
        ) == Ok::<Seq<char>, Seq<char>>(body + Seq::new(pad, |i: int| '=')),
    ensures
        record_outcome(format, r, passphrase) == Ok::<Seq<char>, Seq<char>>(
            body + Seq::new(pad, |i: int| '='),
        ),
{
    lemma_base32_text_is_valid_secret(body, pad);
}

} // verus!
