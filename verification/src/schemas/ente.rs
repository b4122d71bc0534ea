use vstd::prelude::*;
use vstd::string::StringExecFns;
use vstd::utf8::encode_utf8;

use crate::decrypt::DecryptedToken;
use crate::primitives::push_char;
use crate::text::{join, lemma_split_join, split_on};

use super::uri::{encode_uri_component, is_component_char, lemma_component_chars, percent_encode};
use super::SchemaFormatter;

verus! {

/// The URI-component encoding of a text.
pub open spec fn uri_component(s: Seq<char>) -> Seq<char> {
    percent_encode(encode_utf8(s))
}

/// The `otpauth` URI of one token in the Ente schema: the encoded name, then
/// `-` and the encoded logo where there is one, then `-authy`, and the secret.
pub open spec fn ente_line(t: DecryptedToken) -> Seq<char> {
    "otpauth://totp/"@ + uri_component(t.name@) + match t.logo {
        Some(l) => seq!['-'] + uri_component(l@),
        None => Seq::empty(),
    } + "-authy?secret="@ + t.decrypted_seed@
}

/// The Ente schema text: one URI per token, separated by line feeds.
pub open spec fn ente_text(tokens: Seq<DecryptedToken>) -> Seq<char> {
    join(tokens.map_values(|t: DecryptedToken| ente_line(t)), seq!['\n'])
}

/// The `otpauth` URI of one token.
pub fn ente_uri(t: &DecryptedToken) -> (line: String)
    ensures
        line@ == ente_line(*t),
{
    let mut line = String::from_str("otpauth://totp/");
    let name = encode_uri_component(t.name.as_str());
    line.append(name.as_str());
    match &t.logo {
        Some(l) => {
            push_char(&mut line, '-');
            let logo = encode_uri_component(l.as_str());
            line.append(logo.as_str());
        },
        None => {},
    }
    line.append("-authy?secret=");
    line.append(t.decrypted_seed.as_str());
    line
}

/// Writes the tokens as `otpauth` URIs for Ente Auth, one per line.
pub struct EnteFormatter;

impl SchemaFormatter for EnteFormatter {
    open spec fn formats_as(&self, tokens: Seq<DecryptedToken>, text: Seq<char>) -> bool {
        text == ente_text(tokens)
    }

    fn format(&self, tokens: &[DecryptedToken]) -> (text: String) {
        let ghost lines = tokens@.map_values(|t: DecryptedToken| ente_line(t));
        let mut out = String::new();
        let mut i: usize = 0;
        while i < tokens.len()
            invariant
                i <= tokens@.len(),
                lines == tokens@.map_values(|t: DecryptedToken| ente_line(t)),
                out@ == join(lines.take(i as int), seq!['\n']),
            decreases tokens@.len() - i,
        {
            let line = ente_uri(&tokens[i]);
            proof {
                assert(lines.take(i + 1).drop_last() =~= lines.take(i as int));
            }
            if i > 0 {
                push_char(&mut out, '\n');
            } else {
                assert(lines.take(1) =~= seq![lines[0]]);
            }
            out.append(line.as_str());
            i = i + 1;
        }
        proof {
            assert(lines.take(tokens@.len() as int) =~= lines);
        }
        out
    }
}

/// A concatenation holds a character only where one of its parts does.
proof fn lemma_concat_lacks(a: Seq<char>, b: Seq<char>, c: char)
    requires
        !a.contains(c),
        !b.contains(c),
    ensures
        !(a + b).contains(c),
{
    if (a + b).contains(c) {
        let k = choose|k: int| 0 <= k < (a + b).len() && (a + b)[k] == c;
        if k < a.len() {
            assert(a[k] == c);
        } else {
            assert(b[k - a.len()] == c);
        }
    }
}

/// Encoded components hold no line feed.
proof fn lemma_component_lacks_newline(s: Seq<char>)
    ensures
        !uri_component(s).contains('\n'),
{
    lemma_component_chars(encode_utf8(s));
    if uri_component(s).contains('\n') {
        let k = choose|k: int| 0 <= k < uri_component(s).len() && uri_component(s)[k] == '\n';
        assert(is_component_char(uri_component(s)[k]));
    }
}

/// The URI of a token whose secret holds no line feed is a single line.
proof fn lemma_line_lacks_newline(t: DecryptedToken)
    requires
        !t.decrypted_seed@.contains('\n'),
    ensures
        !ente_line(t).contains('\n'),
{
    reveal_strlit("otpauth://totp/");
    reveal_strlit("-authy?secret=");
    let head = "otpauth://totp/"@;
    let mid = "-authy?secret="@;
    assert(!head.contains('\n')) by {
        if head.contains('\n') {
            let k = choose|k: int| 0 <= k < head.len() && head[k] == '\n';
        }
    }
    assert(!mid.contains('\n')) by {
        if mid.contains('\n') {
            let k = choose|k: int| 0 <= k < mid.len() && mid[k] == '\n';
        }
    }
    lemma_component_lacks_newline(t.name@);
    let logo = match t.logo {
        Some(l) => seq!['-'] + uri_component(l@),
        None => Seq::<char>::empty(),
    };
    assert(!logo.contains('\n')) by {
        match t.logo {
            Some(l) => {
                lemma_component_lacks_newline(l@);
                assert(!seq!['-'].contains('\n')) by {
                    if seq!['-'].contains('\n') {
                        let k = choose|k: int| 0 <= k < 1 && seq!['-'][k] == '\n';
                    }
                }
                lemma_concat_lacks(seq!['-'], uri_component(l@), '\n');
            },
            None => {},
        }
    }
    lemma_concat_lacks(head, uri_component(t.name@), '\n');
    lemma_concat_lacks(head + uri_component(t.name@), logo, '\n');
    lemma_concat_lacks(head + uri_component(t.name@) + logo, mid, '\n');
    lemma_concat_lacks(head + uri_component(t.name@) + logo + mid, t.decrypted_seed@, '\n');
}

/// The Ente export of one or more tokens whose secrets hold no line feed has
/// exactly one line per token, each the token's URI, in order.
pub proof fn lemma_ente_one_line_per_token(tokens: Seq<DecryptedToken>)
    requires
        tokens.len() >= 1,
        forall|i: int| 0 <= i < tokens.len() ==> !(#[trigger] tokens[i]).decrypted_seed@.contains('\n'),
    ensures
        split_on(ente_text(tokens), '\n') == tokens.map_values(|t: DecryptedToken| ente_line(t)),
{
    let lines = tokens.map_values(|t: DecryptedToken| ente_line(t));
    assert forall|i: int| 0 <= i < lines.len() implies !(#[trigger] lines[i]).contains('\n') by {
        lemma_line_lacks_newline(tokens[i]);
    }
    lemma_split_join(lines, '\n');
}

} // verus!
