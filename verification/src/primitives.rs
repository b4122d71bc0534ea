use vstd::prelude::*;
use vstd::utf8::{decode_utf8, valid_utf8};

use crate::json::JsonV;

use aes::cipher::{block_padding::Pkcs7, BlockDecryptMut, KeyIvInit};
use base64::Engine;
use hmac::Mac;

verus! {

/// `String::push` from std: appends one character.
#[verifier::external_body]
pub(crate) fn push_char(s: &mut String, c: char)
    ensures
        final(s)@ == old(s)@.push(c),
{
    s.push(c);
}

/// A lowercase hexadecimal digit.
pub open spec fn hex_digit_lower(d: u32) -> char
    recommends
        d < 16,
{
    if d < 10 {
        (d + 48) as char
    } else {
        (d + 87) as char
    }
}

/// How `serde_json` writes one character inside a string: `"` and `\` with a
/// backslash; backspace, tab, line feed, form feed and carriage return as
/// `\b \t \n \f \r`; other control characters below U+0020 as `\u00XX`
/// with lowercase hex; every other character as itself.
pub open spec fn json_escape_char(c: char) -> Seq<char> {
    if c == '"' {
        seq!['\\', '"']
    } else if c == '\\' {
        seq!['\\', '\\']
    } else if c == '\u{8}' {
        seq!['\\', 'b']
    } else if c == '\t' {
        seq!['\\', 't']
    } else if c == '\n' {
        seq!['\\', 'n']
    } else if c == '\u{c}' {
        seq!['\\', 'f']
    } else if c == '\r' {
        seq!['\\', 'r']
    } else if (c as u32) < 0x20 {
        seq!['\\', 'u', '0', '0', hex_digit_lower((c as u32) / 16), hex_digit_lower((c as u32) % 16)]
    } else {
        seq![c]
    }
}

/// The characters of `s`, each escaped as `serde_json` writes it.
pub open spec fn json_escaped(s: Seq<char>) -> Seq<char>
    decreases s.len(),
{
    if s.len() == 0 {
        Seq::empty()
    } else {
        json_escaped(s.drop_last()) + json_escape_char(s.last())
    }
}

/// What `serde_json` writes for a string value: the escaped characters
/// between double quotes.
pub open spec fn json_string_literal(s: Seq<char>) -> Seq<char> {
    seq!['"'] + json_escaped(s) + seq!['"']
}

/// `serde_json::to_string` applied to a `&str`; it writes the JSON string
/// literal of `s` (quotes and the escapes of its escape table). Serialising a
/// `str` cannot fail, so the empty fallback is never taken. Claimed: the result
/// is that literal.
#[verifier::external_body]
pub(crate) fn json_quote(s: &str) -> (res: String)
    ensures
        res@ == json_string_literal(s@),
{
    match serde_json::to_string(s) {
        Ok(t) => t,
        Err(_) => String::new(),
    }
}


/// Whether `c` has the Unicode White_Space property (what `char::is_whitespace`
/// tests), as PropList.txt lists it: U+0009..U+000D, U+0020, U+0085, U+00A0,
/// U+1680, U+2000..U+200A, U+2028, U+2029, U+202F, U+205F and U+3000.
pub open spec fn unicode_white_space(c: char) -> bool {
    let u = c as u32;
    ||| 0x09 <= u <= 0x0d
    ||| u == 0x20 || u == 0x85 || u == 0xa0 || u == 0x1680
    ||| 0x2000 <= u <= 0x200a
    ||| u == 0x2028 || u == 0x2029 || u == 0x202f || u == 0x205f || u == 0x3000
}

/// `char::is_whitespace` from std. Claimed: the result is the White_Space
/// property; among ASCII characters exactly tab, line feed, vertical tab,
/// form feed, carriage return and space have it.
#[verifier::external_body]
pub(crate) fn is_whitespace(c: char) -> (b: bool)
    ensures
        b == unicode_white_space(c),
        (c as u32) < 128 ==> (b <==> (c == ' ' || ('\t' <= c && c <= '\r'))),
{
    c.is_whitespace()
}

/// The characters that `char::to_uppercase` yields for `c`.
pub uninterp spec fn unicode_uppercase(c: char) -> Seq<char>;

/// `char::to_uppercase` from std, collected. Claimed: the result is the named
/// mapping; an ASCII lowercase letter maps to its uppercase letter, and every
/// other ASCII character maps to itself.
#[verifier::external_body]
pub(crate) fn to_uppercase(c: char) -> (res: Vec<char>)
    ensures
        res@ == unicode_uppercase(c),
        ('a' <= c && c <= 'z') ==> res@ == seq![((c as u32) - 32) as char],
        ((c as u32) < 128 && !('a' <= c && c <= 'z')) ==> res@ == seq![c],
{
    c.to_uppercase().collect()
}

/// The string that `str::to_lowercase` returns for `s`.
pub uninterp spec fn unicode_lowercase(s: Seq<char>) -> Seq<char>;

/// The ASCII lowercase of a character: `A`..`Z` become `a`..`z`, every other
/// character stays as it is.
pub open spec fn ascii_lower(c: char) -> char {
    if 'A' <= c && c <= 'Z' {
        ((c as u32) + 32) as char
    } else {
        c
    }
}

/// Whether every character of `s` is ASCII.
pub open spec fn is_ascii_text(s: Seq<char>) -> bool {
    forall|i: int| 0 <= i < s.len() ==> (#[trigger] s[i] as u32) < 128
}

/// `str::to_lowercase` from std. Claimed: the result is the named mapping of
/// the characters of `s`, and ASCII text lowercases letter by letter.
#[verifier::external_body]
pub(crate) fn to_lowercase(s: &str) -> (res: String)
    ensures
        res@ == unicode_lowercase(s@),
        is_ascii_text(s@) ==> res@ == s@.map_values(|c: char| ascii_lower(c)),
{
    s.to_lowercase()
}


/// A decoding result seen through the views of its parts.
pub open spec fn bytes_or_text(r: Result<Vec<u8>, String>) -> Result<Seq<u8>, Seq<char>> {
    match r {
        Ok(v) => Ok(v@),
        Err(e) => Err(e@),
    }
}

/// What the `base64` crate's standard engine (RFC 4648 alphabet, padding
/// required) decodes from the UTF-8 bytes of `text`: the bytes, or the text of
/// its `DecodeError`.
pub uninterp spec fn base64_standard_decoded(text: Seq<char>) -> Result<Seq<u8>, Seq<char>>;

/// `base64::engine::general_purpose::STANDARD.decode`, with the error turned
/// into its display text. Claimed: the outcome is the named one for `text`.
#[verifier::external_body]
pub(crate) fn base64_decode(text: &str) -> (res: Result<Vec<u8>, String>)
    ensures
        bytes_or_text(res) == base64_standard_decoded(text@),
{
    base64::engine::general_purpose::STANDARD.decode(text).map_err(|e| e.to_string())
}

/// The 32-byte key that PBKDF2 with HMAC-SHA1 derives from the UTF-8 bytes of
/// `password` and `salt` in `rounds` rounds.
pub uninterp spec fn pbkdf2_sha1_key32(password: Seq<char>, salt: Seq<char>, rounds: u32) -> Seq<u8>;

/// `pbkdf2::pbkdf2_hmac::<sha1::Sha1>` filling a 32-byte buffer. The crate
/// fills the whole buffer and does not fail for any key or round count (zero
/// rounds included). Claimed: the key is the named one and has 32 bytes.
#[verifier::external_body]
pub(crate) fn pbkdf2_sha1(password: &str, salt: &str, rounds: u32) -> (key: Vec<u8>)
    ensures
        key@ == pbkdf2_sha1_key32(password@, salt@, rounds),
        key@.len() == 32,
{
    let mut key = [0u8; 32];
    pbkdf2::pbkdf2_hmac::<sha1::Sha1>(password.as_bytes(), salt.as_bytes(), rounds, &mut key);
    key.to_vec()
}

/// Whether `c` is a hex digit of either case.
pub open spec fn is_hex_char(c: char) -> bool {
    ('0' <= c && c <= '9') || ('a' <= c && c <= 'f') || ('A' <= c && c <= 'F')
}

/// The value of a hex digit.
pub open spec fn hex_char_value(c: char) -> int {
    if '0' <= c && c <= '9' {
        (c as u32) - 48
    } else if 'a' <= c && c <= 'f' {
        (c as u32) - 87
    } else {
        (c as u32) - 55
    }
}

/// Whether `t` is hex text that `hex::decode` accepts: an even number of hex
/// digits.
pub open spec fn is_hex_text(t: Seq<char>) -> bool {
    t.len() % 2 == 0 && forall|i: int| 0 <= i < t.len() ==> is_hex_char(#[trigger] t[i])
}

/// The bytes of hex text, two digits (high nibble first) per byte.
pub open spec fn hex_text_bytes(t: Seq<char>) -> Seq<u8> {
    Seq::new(t.len() / 2, |i: int| (16 * hex_char_value(t[2 * i]) + hex_char_value(t[2 * i + 1])) as u8)
}

/// The display text of the `FromHexError` that `hex::decode` reports for `text`.
pub uninterp spec fn hex_error_text(text: Seq<char>) -> Seq<char>;

/// What `hex::decode` gives for `text`: its bytes for hex text, else the
/// text of its error.
pub open spec fn hex_outcome(text: Seq<char>) -> Result<Seq<u8>, Seq<char>> {
    if is_hex_text(text) {
        Ok(hex_text_bytes(text))
    } else {
        Err(hex_error_text(text))
    }
}

/// `hex::decode`, with the error turned into its display text. The crate
/// refuses an odd number of bytes and any byte that is not a hex digit (so any
/// non-ASCII character), and else turns each pair of digits into one byte.
/// Claimed: that outcome, with the error text named.
#[verifier::external_body]
pub(crate) fn hex_decode(text: &str) -> (res: Result<Vec<u8>, String>)
    ensures
        bytes_or_text(res) == hex_outcome(text@),
        res matches Err(e) ==> e@ == hex_error_text(text@),
{
    hex::decode(text).map_err(|e| e.to_string())
}

/// The plaintext that AES-256 in CBC mode with PKCS#7 unpadding recovers from
/// `data` under `key` and `iv`, or `None` where unpadding fails.
pub uninterp spec fn aes256_cbc_pkcs7_decrypted(key: Seq<u8>, iv: Seq<u8>, data: Seq<u8>) -> Option<
    Seq<u8>,
>;

/// What AES-256-CBC with PKCS#7 unpadding gives: `None` for data whose length
/// is not a positive multiple of the 16-byte block, else the named outcome.
pub open spec fn aes256_cbc_pkcs7_outcome(key: Seq<u8>, iv: Seq<u8>, data: Seq<u8>) -> Option<Seq<u8>> {
    if data.len() == 0 || data.len() % 16 != 0 {
        None
    } else {
        aes256_cbc_pkcs7_decrypted(key, iv, data)
    }
}

/// `cbc::Decryptor::<aes::Aes256>` with `decrypt_padded_mut::<Pkcs7>`. The
/// `UnpadError` of `block-padding` displays as "Unpad Error". Data that leaves
/// a partial block fails before decryption, and no blocks at all fail to
/// unpad (PKCS#7 always adds padding). Claimed: the outcome is the named one,
/// such data fails, and a failure carries that text.
#[verifier::external_body]
pub(crate) fn aes256_cbc_decrypt(key: &[u8], iv: &[u8], data: &[u8]) -> (res: Result<Vec<u8>, String>)
    requires
        key@.len() == 32,
        iv@.len() == 16,
    ensures
        match res {
            Ok(p) => aes256_cbc_pkcs7_decrypted(key@, iv@, data@) == Some(p@),
            Err(e) => aes256_cbc_pkcs7_decrypted(key@, iv@, data@) is None && e@ == "Unpad Error"@,
        },
        (data@.len() == 0 || data@.len() % 16 != 0) ==> res is Err,
{
    let mut buf = data.to_vec();
    match cbc::Decryptor::<aes::Aes256>::new_from_slices(key, iv) {
        Ok(dec) => dec.decrypt_padded_mut::<Pkcs7>(&mut buf).map(|p| p.to_vec()).map_err(
            |e| e.to_string(),
        ),
        Err(e) => Err(e.to_string()),
    }
}

/// The characters that `String::from_utf8_lossy` reads from `bytes`.
pub uninterp spec fn utf8_lossy(bytes: Seq<u8>) -> Seq<char>;

/// `String::from_utf8_lossy` from std. Claimed: the result is the named
/// decoding, which for valid UTF-8 is the plain decoding.
#[verifier::external_body]
pub(crate) fn from_utf8_lossy(bytes: &[u8]) -> (res: String)
    ensures
        res@ == utf8_lossy(bytes@),
        valid_utf8(bytes@) ==> res@ == decode_utf8(bytes@),
{
    String::from_utf8_lossy(bytes).into_owned()
}

/// Whether `c` is a lowercase hexadecimal digit.
pub open spec fn is_lower_hex_digit(c: char) -> bool {
    ('0' <= c && c <= '9') || ('a' <= c && c <= 'f')
}

/// Whether `s` is a version-4 UUID in hyphenated lowercase form: 36
/// characters, hyphens at 8, 13, 18 and 23, lowercase hex digits elsewhere,
/// version digit `4` at 14 and an RFC 4122 variant digit (`8`, `9`, `a`, `b`)
/// at 19.
pub open spec fn is_uuid_v4_text(s: Seq<char>) -> bool {
    &&& s.len() == 36
    &&& forall|i: int|
        0 <= i < 36 ==> if i == 8 || i == 13 || i == 18 || i == 23 {
            #[trigger] s[i] == '-'
        } else {
            is_lower_hex_digit(s[i])
        }
    &&& s[14] == '4'
    &&& (s[19] == '8' || s[19] == '9' || s[19] == 'a' || s[19] == 'b')
}

/// `uuid::Uuid::new_v4().to_string()`: a random version-4 UUID (`new_v4`
/// masks in the version and variant bits) shown by `Display`, which writes the
/// hyphenated lowercase form. Claimed: that form, which every outcome has; the
/// random digits are left open.
#[verifier::external_body]
pub(crate) fn new_uuid_v4() -> (res: String)
    ensures
        is_uuid_v4_text(res@),
{
    uuid::Uuid::new_v4().to_string()
}

/// The 20-byte HMAC-SHA1 tag of `msg` under `key`.
pub uninterp spec fn hmac_sha1_tag(key: Seq<u8>, msg: Seq<u8>) -> Seq<u8>;

/// `hmac::Hmac::<sha1::Sha1>`: `new_from_slice`, `update`, `finalize`. HMAC
/// accepts keys of every length (`new_from_slice` always returns `Ok`), and
/// SHA-1 output has 20 bytes. Claimed: the tag is the named one, 20 bytes long.
#[verifier::external_body]
pub(crate) fn hmac_sha1(key: &[u8], msg: &[u8]) -> (tag: Vec<u8>)
    ensures
        tag@ == hmac_sha1_tag(key@, msg@),
        tag@.len() == 20,
{
    let mut mac = hmac::Hmac::<sha1::Sha1>::new_from_slice(key).expect("HMAC accepts any key size");
    mac.update(msg);
    mac.finalize().into_bytes().to_vec()
}

/// What `data_encoding::BASE32_NOPAD` decodes from the UTF-8 bytes of `text`,
/// or `None` where it reports an error.
pub uninterp spec fn base32_nopad_decoded(text: Seq<char>) -> Option<Seq<u8>>;

/// `data_encoding::BASE32_NOPAD.decode`, with the error dropped. Claimed: the
/// outcome is the named one for `text`.
#[verifier::external_body]
pub(crate) fn base32_decode(text: &str) -> (res: Option<Vec<u8>>)
    ensures
        match res {
            Some(v) => base32_nopad_decoded(text@) == Some(v@),
            None => base32_nopad_decoded(text@) is None,
        },
{
    data_encoding::BASE32_NOPAD.decode(text.as_bytes()).ok()
}

/// The current Unix time in whole seconds from `std::time::SystemTime`, or
/// `None` when the clock reads before the epoch. Nothing is claimed of the
/// value: it depends on the clock.
#[verifier::external_body]
pub(crate) fn unix_time_now() -> (res: Option<u64>) {
    std::time::SystemTime::now().duration_since(std::time::UNIX_EPOCH).ok().map(|d| d.as_secs())
}


/// The JSON value type of `serde_json`, carried through opaquely.
#[verifier::external_type_specification]
#[verifier::external_body]
pub struct ExJsonValue(serde_json::Value);

/// What a `serde_json::Value` holds, as a JSON value: numbers that fit an
/// `i64` as integers, other numbers by their display text, object members in
/// the order in which the value's map yields them.
pub uninterp spec fn value_contents(v: serde_json::Value) -> JsonV;

/// What `serde_json::from_str::<serde_json::Value>` makes of `text`: the value
/// it holds, or `None` where the text is not JSON.
pub uninterp spec fn json_parsed(text: Seq<char>) -> Option<JsonV>;

/// `serde_json::from_str::<serde_json::Value>`, with the error dropped.
/// Claimed: the outcome is the named one for `text`.
#[verifier::external_body]
pub(crate) fn parse_value(text: &str) -> (res: Option<serde_json::Value>)
    ensures
        match res {
            Some(v) => json_parsed(text@) == Some(value_contents(v)),
            None => json_parsed(text@) is None,
        },
{
    serde_json::from_str::<serde_json::Value>(text).ok()
}

/// The top of a `serde_json::Value`: its kind, and its direct parts, with the
/// values below still as `serde_json::Value`. A number carries `as_i64` and
/// its display text.
pub enum JsonNode {
    Null,
    Bool(bool),
    Number(Option<i64>, String),
    Str(String),
    Array(Vec<serde_json::Value>),
    Object(Vec<(String, serde_json::Value)>),
}

/// Whether `n` is the top of a value that holds `c`.
pub open spec fn node_holds(n: JsonNode, c: JsonV) -> bool {
    match n {
        JsonNode::Null => c == JsonV::Null,
        JsonNode::Bool(b) => c == JsonV::Bool(b),
        JsonNode::Number(Some(i), _) => c == JsonV::Int(i as int),
        JsonNode::Number(None, t) => c == JsonV::Num(t@),
        JsonNode::Str(s) => c == JsonV::Str(s@),
        JsonNode::Array(items) => c matches JsonV::Arr(cs) && cs.len() == items@.len() && forall|i: int|
            0 <= i < cs.len() ==> value_contents(#[trigger] items@[i]) == cs[i],
        JsonNode::Object(ms) => c matches JsonV::Obj(cms) && cms.len() == ms@.len() && forall|i: int|
            0 <= i < cms.len() ==> (#[trigger] ms@[i]).0@ == cms[i].0 && value_contents(ms@[i].1)
                == cms[i].1,
    }
}

/// Takes a `serde_json::Value` apart one level: one arm per variant, the
/// number read with `Number::as_i64` and `to_string`, the object's members
/// cloned in the order of `Map::iter`. Claimed: the node is the top of what
/// the value holds.
#[verifier::external_body]
pub(crate) fn json_node(v: &serde_json::Value) -> (n: JsonNode)
    ensures
        node_holds(n, value_contents(*v)),
{
    match v {
        serde_json::Value::Null => JsonNode::Null,
        serde_json::Value::Bool(b) => JsonNode::Bool(*b),
        serde_json::Value::Number(x) => JsonNode::Number(x.as_i64(), x.to_string()),
        serde_json::Value::String(t) => JsonNode::Str(t.clone()),
        serde_json::Value::Array(a) => JsonNode::Array(a.clone()),
        serde_json::Value::Object(m) => JsonNode::Object(m.iter().map(|(k, x)| (k.clone(), x.clone())).collect()),
    }
}

} // verus!
