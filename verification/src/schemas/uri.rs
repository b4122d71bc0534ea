use vstd::prelude::*;
use vstd::utf8::encode_utf8;

use crate::primitives::push_char;

verus! {

broadcast use vstd::string::group_string_axioms;

/// A byte that URI component encoding leaves as it is: an ASCII letter or
/// digit, or one of `- _ . ! ~ * ' ( )`.
pub open spec fn is_uri_unreserved(b: u8) -> bool {
    ||| (65 <= b && b <= 90)
    ||| (97 <= b && b <= 122)
    ||| (48 <= b && b <= 57)
    ||| b == 45 || b == 95 || b == 46 || b == 33 || b == 126 || b == 42 || b == 39 || b == 40
        || b == 41
}

/// The uppercase hexadecimal digit of a value below 16.
pub open spec fn hex_digit_upper(d: u8) -> char
    recommends
        d < 16,
{
    if d < 10 {
        (d + 48) as char
    } else {
        (d + 55) as char
    }
}

/// How one byte of the UTF-8 encoding appears in the encoded component.
pub open spec fn encoded_byte(b: u8) -> Seq<char> {
    if is_uri_unreserved(b) {
        seq![b as char]
    } else {
        seq!['%', hex_digit_upper(b / 16), hex_digit_upper(b % 16)]
    }
}

/// The percent-encoding of a byte sequence, byte by byte.
pub open spec fn percent_encode(bytes: Seq<u8>) -> Seq<char>
    decreases bytes.len(),
{
    if bytes.len() == 0 {
        Seq::empty()
    } else {
        percent_encode(bytes.drop_last()) + encoded_byte(bytes.last())
    }
}

fn hex_digit_char(d: u8) -> (c: char)
    requires
        d < 16,
    ensures
        c == hex_digit_upper(d),
{
    if d < 10 {
        (d + 48) as char
    } else {
        (d + 55) as char
    }
}

/// Encodes `s` as a URI component, as JavaScript's `encodeURIComponent` does:
/// every byte of its UTF-8 encoding other than the unreserved ASCII characters
/// becomes `%` and two uppercase hexadecimal digits.
pub fn encode_uri_component(s: &str) -> (res: String)
    ensures
        res@ == percent_encode(encode_utf8(s@)),
{
    let bytes = s.as_bytes();
    let mut out = String::new();
    let mut i: usize = 0;
    while i < bytes.len()
        invariant
            i <= bytes@.len(),
            out@ == percent_encode(bytes@.take(i as int)),
        decreases bytes@.len() - i,
    {
        let b = bytes[i];
        proof {
            assert(bytes@.take(i + 1).drop_last() =~= bytes@.take(i as int));
        }
        if (65 <= b && b <= 90) || (97 <= b && b <= 122) || (48 <= b && b <= 57) || b == 45 || b
            == 95 || b == 46 || b == 33 || b == 126 || b == 42 || b == 39 || b == 40 || b == 41 {
            push_char(&mut out, b as char);
        } else {
            push_char(&mut out, '%');
            push_char(&mut out, hex_digit_char(b / 16));
            push_char(&mut out, hex_digit_char(b % 16));
        }
        i = i + 1;
    }
    proof {
        assert(bytes@.take(bytes@.len() as int) =~= bytes@);
    }
    out
}

/// A character that may appear in an encoded URI component: an ASCII letter
/// or digit, one of `- _ . ! ~ * ' ( )`, or `%`.
pub open spec fn is_component_char(c: char) -> bool {
    ||| ('A' <= c && c <= 'Z')
    ||| ('a' <= c && c <= 'z')
    ||| ('0' <= c && c <= '9')
    ||| c == '-' || c == '_' || c == '.' || c == '!' || c == '~' || c == '*' || c == '\''
        || c == '(' || c == ')' || c == '%'
}

/// Encoded components hold only unreserved characters and `%` escapes, so no
/// `:`, `?`, `&`, `=`, `/`, `#` or white space can come out of them.
pub proof fn lemma_component_chars(bytes: Seq<u8>)
    ensures
        forall|i: int|
            0 <= i < percent_encode(bytes).len() ==> is_component_char(
                #[trigger] percent_encode(bytes)[i],
            ),
    decreases bytes.len(),
{
    if bytes.len() > 0 {
        lemma_component_chars(bytes.drop_last());
        let b = bytes.last();
        let e = encoded_byte(b);
        let p = percent_encode(bytes.drop_last());
        assert(b / 16 < 16 && b % 16 < 16);
        assert forall|i: int| 0 <= i < e.len() implies is_component_char(#[trigger] e[i]) by {}
        assert forall|i: int| 0 <= i < percent_encode(bytes).len() implies is_component_char(
            #[trigger] percent_encode(bytes)[i],
        ) by {
            if i < p.len() {
                assert(percent_encode(bytes)[i] == p[i]);
            } else {
                assert(percent_encode(bytes)[i] == e[i - p.len()]);
            }
        }
    }
}

} // verus!
