use vstd::prelude::*;

use crate::primitives::{
    base32_decode, base32_nopad_decoded, hmac_sha1, hmac_sha1_tag, push_char, to_uppercase,
    unicode_uppercase, unix_time_now,
};
use crate::text::{
    chars_of, decimal, is_white_space, push_chars, push_decimal_u64, white_space,
};

verus! {

/// The characters that an uppercased `c` becomes: the uppercase letter for an
/// ASCII lowercase letter, `c` itself for any other ASCII character, and the
/// Unicode uppercase mapping beyond.
pub open spec fn uppercase_of(c: char) -> Seq<char> {
    if 'a' <= c && c <= 'z' {
        seq![((c as u32) - 32) as char]
    } else if (c as u32) < 128 {
        seq![c]
    } else {
        unicode_uppercase(c)
    }
}

/// The secret text that is handed to the base32 decoder: white space and `=`
/// dropped, every other character uppercased.
pub open spec fn cleaned_secret(s: Seq<char>) -> Seq<char>
    decreases s.len(),
{
    if s.len() == 0 {
        Seq::empty()
    } else {
        cleaned_secret(s.drop_last()) + if white_space(s.last()) || s.last() == '=' {
            Seq::empty()
        } else {
            uppercase_of(s.last())
        }
    }
}

/// The key bytes of a base32 TOTP secret, or `None` when nothing is left after
/// cleaning or the cleaned text is not unpadded base32.
pub open spec fn decoded_secret(s: Seq<char>) -> Option<Seq<u8>> {
    let c = cleaned_secret(s);
    if c.len() == 0 {
        None
    } else {
        base32_nopad_decoded(c)
    }
}

/// Decodes a base32 TOTP secret leniently: white space and `=` padding are
/// ignored and letters of either case are accepted.
pub fn decode_base32_secret(secret: &str) -> (res: Option<Vec<u8>>)
    ensures
        match res {
            Some(v) => decoded_secret(secret@) == Some(v@),
            None => decoded_secret(secret@) is None,
        },
{
    let cs = chars_of(secret);
    let mut cleaned = String::new();
    let mut i: usize = 0;
    while i < cs.len()
        invariant
            i <= cs@.len(),
            cs@ == secret@,
            cleaned@ == cleaned_secret(cs@.take(i as int)),
        decreases cs@.len() - i,
    {
        let c = cs[i];
        proof {
            assert(cs@.take(i + 1).drop_last() =~= cs@.take(i as int));
        }
        if !is_white_space(c) && c != '=' {
            let up = to_uppercase(c);
            push_chars(&mut cleaned, &up);
        }
        i = i + 1;
    }
    proof {
        assert(cs@.take(cs@.len() as int) =~= cs@);
    }
    if cleaned.as_str().is_empty() {
        return None;
    }
    base32_decode(cleaned.as_str())
}

/// The eight big-endian bytes of `n`.
pub open spec fn be_bytes(n: u64) -> Seq<u8> {
    seq![
        (n >> 56u64) as u8,
        (n >> 48u64) as u8,
        (n >> 40u64) as u8,
        (n >> 32u64) as u8,
        (n >> 24u64) as u8,
        (n >> 16u64) as u8,
        (n >> 8u64) as u8,
        n as u8,
    ]
}

/// The eight big-endian bytes of `n` (what `u64::to_be_bytes` gives).
pub fn to_be_bytes(n: u64) -> (res: Vec<u8>)
    ensures
        res@ == be_bytes(n),
{
    let mut v: Vec<u8> = Vec::new();
    v.push((n >> 56u64) as u8);
    v.push((n >> 48u64) as u8);
    v.push((n >> 40u64) as u8);
    v.push((n >> 32u64) as u8);
    v.push((n >> 24u64) as u8);
    v.push((n >> 16u64) as u8);
    v.push((n >> 8u64) as u8);
    v.push(n as u8);
    assert(v@ =~= be_bytes(n));
    v
}

/// Ten to the power `d`.
pub open spec fn pow10(d: nat) -> nat
    decreases d,
{
    if d == 0 {
        1
    } else {
        10 * pow10((d - 1) as nat)
    }
}

/// The 31-bit number that RFC 4226 dynamic truncation takes from a 20-byte
/// HMAC-SHA1 tag: four bytes at the offset given by the low nibble of the last
/// byte, with the top bit cleared.
pub open spec fn dynamic_truncation(tag: Seq<u8>) -> u32 {
    let off = (tag[tag.len() - 1] & 0x0fu8) as int;
    ((((tag[off] as u32) & 0x7fu32) << 24u32) | ((tag[off + 1] as u32) << 16u32) | ((tag[off
        + 2] as u32) << 8u32) | (tag[off + 3] as u32)) as u32
}

/// `s` padded on the left with '0' to at least `width` characters.
pub open spec fn zero_padded(s: Seq<char>, width: nat) -> Seq<char> {
    if s.len() >= width {
        s
    } else {
        Seq::new((width - s.len()) as nat, |i: int| '0') + s
    }
}

/// The TOTP code of a tag: the truncated number modulo 10^digits, written in
/// decimal and padded with zeros to `digits` characters.
pub open spec fn totp_code(tag: Seq<u8>, digits: u32) -> Seq<char> {
    zero_padded(decimal((dynamic_truncation(tag) as nat) % pow10(digits as nat)), digits as nat)
}

/// The time step that a Unix time falls in, for a period of at least one second.
pub open spec fn time_step(unix_time: u64, period: u64) -> u64 {
    (unix_time / if period >= 1 {
        period
    } else {
        1
    }) as u64
}

/// The RFC 6238 TOTP code (HMAC-SHA1) of `key` at `unix_time`.
pub open spec fn totp_value(key: Seq<u8>, unix_time: u64, period: u64, digits: u32) -> Seq<char> {
    totp_code(hmac_sha1_tag(key, be_bytes(time_step(unix_time, period))), digits)
}

/// 10^digits as a machine number.
fn pow10_u32(digits: u32) -> (res: u32)
    requires
        digits <= 9,
    ensures
        res == pow10(digits as nat),
{
    let mut r: u32 = 1;
    let mut i: u32 = 0;
    while i < digits
        invariant
            i <= digits <= 9,
            r == pow10(i as nat),
            r <= 1_000_000_000,
        decreases digits - i,
    {
        proof {
            assert(pow10((i + 1) as nat) == 10 * pow10(i as nat));
            lemma_pow10_bound(i as nat);
        }
        r = r * 10;
        i = i + 1;
    }
    r
}

/// Powers of ten are positive and grow with the exponent.
pub proof fn lemma_pow10_monotone(a: nat, b: nat)
    requires
        a <= b,
    ensures
        0 < pow10(a) <= pow10(b),
    decreases b,
{
    if b > a {
        lemma_pow10_monotone(a, (b - 1) as nat);
    } else if a > 0 {
        lemma_pow10_monotone((a - 1) as nat, (a - 1) as nat);
    }
}

/// Ten to the power below nine stays within a hundred million.
proof fn lemma_pow10_bound(d: nat)
    requires
        d < 9,
    ensures
        pow10(d) <= 100_000_000,
{
    lemma_pow10_monotone(d, 8);
    reveal_with_fuel(pow10, 9);
}

/// The TOTP code of a 20-byte HMAC-SHA1 tag with `digits` digits.
pub fn totp_code_from_tag(tag: &[u8], digits: u32) -> (code: String)
    requires
        tag@.len() == 20,
        digits <= 9,
    ensures
        code@ == totp_code(tag@, digits),
{
    let last = tag[tag.len() - 1];
    assert(last & 0x0fu8 <= 15u8) by (bit_vector);
    let offset = (last & 0x0f) as usize;
    let bin: u32 = (((tag[offset] as u32) & 0x7f) << 24) | ((tag[offset + 1] as u32) << 16) | ((
    tag[offset + 2] as u32) << 8) | (tag[offset + 3] as u32);
    assert(bin == dynamic_truncation(tag@));
    let modulo = pow10_u32(digits);
    proof {
        lemma_pow10_monotone(0, digits as nat);
    }
    let value = bin % modulo;
    let mut digits_text = String::new();
    push_decimal_u64(&mut digits_text, value as u64);
    let mut code = String::new();
    let len = digits_text.as_str().unicode_len();
    let width = digits as usize;
    if len < width {
        let mut k: usize = 0;
        while k < width - len
            invariant
                k <= width - len,
                code@ == Seq::new(k as nat, |i: int| '0'),
            decreases width - len - k,
        {
            push_char(&mut code, '0');
            proof {
                assert(Seq::new((k + 1) as nat, |i: int| '0') =~= Seq::new(k as nat, |i: int| '0').push('0'));
            }
            k = k + 1;
        }
    }
    let text_chars = chars_of(digits_text.as_str());
    push_chars(&mut code, &text_chars);
    proof {
        assert(digits_text@ =~= decimal((dynamic_truncation(tag@) as nat) % pow10(digits as nat)));
        assert(code@ =~= totp_code(tag@, digits));
    }
    code
}

/// The RFC 6238 TOTP code (HMAC-SHA1, time steps of `period` seconds, at
/// least one) of `key` at `unix_time`.
pub fn totp_at(key: &[u8], unix_time: u64, period: u64, digits: u32) -> (code: String)
    requires
        digits <= 9,
    ensures
        code@ == totp_value(key@, unix_time, period, digits),
{
    let step = if period >= 1 {
        period
    } else {
        1
    };
    let counter = unix_time / step;
    let msg = to_be_bytes(counter);
    let tag = hmac_sha1(key, msg.as_slice());
    totp_code_from_tag(tag.as_slice(), digits)
}

/// The code of `key` at `now` and the seconds left in its time step.
pub open spec fn totp_reading(key: Seq<u8>, now: u64, period: u64, digits: u32) -> (Seq<char>, u64) {
    (totp_value(key, now, period, digits), (period - now % period) as u64)
}

/// The code and remaining seconds for a key at `now`.
fn reading_with_key(key: &Vec<u8>, now: u64, period: u64, digits: u32) -> (res: (String, u64))
    requires
        digits <= 9,
        period > 0,
    ensures
        (res.0@, res.1) == totp_reading(key@, now, period, digits),
{
    let code = totp_at(key.as_slice(), now, period, digits);
    let remaining = period - (now % period);
    (code, remaining)
}

/// Whether a code length and a period can be used: at most nine digits, so
/// that 10^digits fits in 32 bits, and a period of at least one second.
pub open spec fn totp_params_ok(digits: u32, period: u64) -> bool {
    digits <= 9 && period > 0
}

/// The TOTP code of a base32 secret at Unix time `now`, with the seconds left
/// until the next code, or `None` when the secret does not decode. The digits
/// and period matter only for a secret that decodes.
pub fn totp_at_time(base32_secret: &str, digits: u32, period: u64, now: u64) -> (res: Option<
    (String, u64),
>)
    requires
        totp_params_ok(digits, period) || decoded_secret(base32_secret@) is None,
    ensures
        match decoded_secret(base32_secret@) {
            None => res is None,
            Some(key) => res matches Some(r) && (r.0@, r.1) == totp_reading(key, now, period, digits),
        },
{
    let key = match decode_base32_secret(base32_secret) {
        Some(k) => k,
        None => {
            return None;
        },
    };
    Some(reading_with_key(&key, now, period, digits))
}

/// The current TOTP code of a base32 secret, with the seconds left until the
/// next code; `None` when the secret does not decode or the clock reads
/// before 1970. The digits and period matter only for a secret that decodes.
pub fn totp_now(base32_secret: &str, digits: u32, period: u64) -> (res: Option<(String, u64)>)
    requires
        totp_params_ok(digits, period) || decoded_secret(base32_secret@) is None,
    ensures
        decoded_secret(base32_secret@) is None ==> res is None,
        res matches Some(r) ==> decoded_secret(base32_secret@) is Some && exists|now: u64|
            (r.0@, r.1) == #[trigger] totp_reading(
                decoded_secret(base32_secret@)->0,
                now,
                period,
                digits,
            ),
{
    let key = match decode_base32_secret(base32_secret) {
        Some(k) => k,
        None => {
            return None;
        },
    };
    let now = match unix_time_now() {
        Some(t) => t,
        None => {
            return None;
        },
    };
    let r = reading_with_key(&key, now, period, digits);
    assert((r.0@, r.1) == totp_reading(decoded_secret(base32_secret@)->0, now, period, digits));
    Some(r)
}

/// `totp_now` for any digits and period: `None` where they cannot be used
/// (more than nine digits, or a period of zero), else what `totp_now` gives.
pub fn totp_now_checked(base32_secret: &str, digits: u32, period: u64) -> (res: Option<
    (String, u64),
>)
    ensures
        !totp_params_ok(digits, period) ==> res is None,
        decoded_secret(base32_secret@) is None ==> res is None,
        res matches Some(r) ==> totp_params_ok(digits, period) && decoded_secret(base32_secret@) is Some
            && exists|now: u64|
            (r.0@, r.1) == #[trigger] totp_reading(
                decoded_secret(base32_secret@)->0,
                now,
                period,
                digits,
            ),
{
    if digits <= 9 && period > 0 {
        totp_now(base32_secret, digits, period)
    } else {
        None
    }
}

/// The ASCII uppercase of a character (other characters stay as they are).
pub open spec fn ascii_upper(c: char) -> char {
    if 'a' <= c && c <= 'z' {
        ((c as u32) - 32) as char
    } else {
        c
    }
}

/// Cleaning a concatenation cleans each part.
pub proof fn lemma_cleaned_concat(a: Seq<char>, b: Seq<char>)
    ensures
        cleaned_secret(a + b) == cleaned_secret(a) + cleaned_secret(b),
    decreases b.len(),
{
    if b.len() == 0 {
        assert(a + b =~= a);
        assert(cleaned_secret(a) + cleaned_secret(b) =~= cleaned_secret(a));
    } else {
        lemma_cleaned_concat(a, b.drop_last());
        assert((a + b).drop_last() =~= a + b.drop_last());
        assert((a + b).last() == b.last());
    }
}

/// Whether `a` and `b` are ASCII characters that differ at most in case.
pub open spec fn ascii_case_variants(a: char, b: char) -> bool {
    (a as u32) < 128 && (b as u32) < 128 && ascii_upper(a) == ascii_upper(b)
}

/// Secrets decode alike when they differ only in the case of ASCII letters.
pub proof fn lemma_secret_case_insensitive(s: Seq<char>, t: Seq<char>)
    requires
        s.len() == t.len(),
        forall|i: int| 0 <= i < s.len() ==> ascii_case_variants(#[trigger] s[i], t[i]),
    ensures
        decode_same(s, t),
{
    lemma_cleaned_case_insensitive(s, t);
}

/// Two secrets decode to the same key, or both fail.
pub open spec fn decode_same(s: Seq<char>, t: Seq<char>) -> bool {
    decoded_secret(s) == decoded_secret(t)
}

proof fn lemma_cleaned_case_insensitive(s: Seq<char>, t: Seq<char>)
    requires
        s.len() == t.len(),
        forall|i: int| 0 <= i < s.len() ==> ascii_case_variants(#[trigger] s[i], t[i]),
    ensures
        cleaned_secret(s) == cleaned_secret(t),
    decreases s.len(),
{
    if s.len() > 0 {
        let n = s.len() - 1;
        assert(s[n] == s.last() && t[n] == t.last());
        assert forall|i: int| 0 <= i < s.drop_last().len() implies ascii_case_variants(
            #[trigger] s.drop_last()[i],
            t.drop_last()[i],
        ) by {
            assert(s.drop_last()[i] == s[i] && t.drop_last()[i] == t[i]);
            assert(ascii_case_variants(s[i], t[i]));
        }
        lemma_cleaned_case_insensitive(s.drop_last(), t.drop_last());
        let a = s.last();
        let b = t.last();
        assert(ascii_case_variants(s[n], t[n]));
        assert(uppercase_of(a) == uppercase_of(b));
    }
}

/// White space and `=` anywhere in a secret do not change what it decodes to.
pub proof fn lemma_secret_ignores_separators(before: Seq<char>, c: char, after: Seq<char>)
    requires
        white_space(c) || c == '=',
    ensures
        decode_same(before + seq![c] + after, before + after),
{
    lemma_cleaned_concat(before + seq![c], after);
    lemma_cleaned_concat(before, seq![c]);
    lemma_cleaned_concat(before, after);
    assert(cleaned_secret(Seq::<char>::empty()) =~= Seq::<char>::empty());
    assert(seq![c].drop_last() =~= Seq::<char>::empty());
    assert(cleaned_secret(seq![c]) =~= Seq::<char>::empty());
    assert(cleaned_secret(before) + cleaned_secret(seq![c]) =~= cleaned_secret(before));
}

/// The decimal representation of a number below 10^d (d at least 1) has at
/// most d characters, all of them ASCII digits.
pub proof fn lemma_decimal_shape(n: nat, d: nat)
    requires
        d >= 1,
        n < pow10(d),
    ensures
        1 <= decimal(n).len() <= d,
        forall|i: int| 0 <= i < decimal(n).len() ==> '0' <= #[trigger] decimal(n)[i] <= '9',
    decreases n,
{
    if n >= 10 {
        assert(d >= 2) by {
            if d == 1 {
                assert(pow10(1) == 10 * pow10(0));
            }
        }
        let p = pow10((d - 1) as nat);
        assert(pow10(d) == 10 * p);
        assert(n / 10 < p) by (nonlinear_arith)
            requires
                n < 10 * p,
        ;
        lemma_decimal_shape(n / 10, (d - 1) as nat);
    }
}

/// A TOTP code with `digits` digits (1 to 9) has exactly that many
/// characters, all of them ASCII digits.
pub proof fn lemma_totp_code_shape(tag: Seq<u8>, digits: u32)
    requires
        1 <= digits <= 9,
    ensures
        totp_code(tag, digits).len() == digits,
        forall|i: int| 0 <= i < digits ==> '0' <= #[trigger] totp_code(tag, digits)[i] <= '9',
{
    let m = pow10(digits as nat);
    lemma_pow10_monotone(0, digits as nat);
    let v = (dynamic_truncation(tag) as nat) % m;
    lemma_decimal_shape(v, digits as nat);
    let s = decimal(v);
    let code = totp_code(tag, digits);
    if s.len() < digits {
        let pad = Seq::new((digits - s.len()) as nat, |i: int| '0');
        assert(code == pad + s);
        assert forall|i: int| 0 <= i < digits implies '0' <= #[trigger] code[i] <= '9' by {
            if i < pad.len() {
                assert(code[i] == pad[i]);
            } else {
                assert(code[i] == s[i - pad.len()]);
            }
        }
    }
}

/// Within one time step every Unix time gives the same code.
pub proof fn lemma_totp_same_step(key: Seq<u8>, t1: u64, t2: u64, period: u64, digits: u32)
    requires
        time_step(t1, period) == time_step(t2, period),
    ensures
        totp_value(key, t1, period, digits) == totp_value(key, t2, period, digits),
{
}

/// The seconds left in the current time step lie between 1 and the period.
pub proof fn lemma_remaining_in_period(key: Seq<u8>, now: u64, period: u64, digits: u32)
    requires
        period > 0,
    ensures
        1 <= totp_reading(key, now, period, digits).1 <= period,
{
}

} // verus!
