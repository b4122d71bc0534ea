use vstd::prelude::*;
use vstd::string::StringExecFns;

use crate::decrypt::DecryptedToken;
use crate::json::{
    lemma_fields_view, lemma_seq_view, member, render, str_json, to_string_pretty_indent, Json,
    JsonV, json_fields_view, json_seq_view,
};
use crate::text::{push_decimal_i64, signed_decimal};

use super::ente::uri_component;
use super::uri::encode_uri_component;
use super::SchemaFormatter;

verus! {

/// The issuer of a token, empty where it has none.
pub open spec fn issuer_or_empty(t: DecryptedToken) -> Seq<char> {
    match t.issuer {
        Some(i) => i@,
        None => Seq::empty(),
    }
}

/// The `otpauth` URI of a token in the Vaultwarden schema.
pub open spec fn vaultwarden_uri(t: DecryptedToken) -> Seq<char> {
    let issuer = issuer_or_empty(t);
    "otpauth://totp/"@ + uri_component(issuer) + ":"@ + uri_component(t.name@) + "?secret="@
        + uri_component(t.decrypted_seed@) + "&digits="@ + signed_decimal(t.digits as int) + if issuer.len()
        > 0 {
        "&issuer="@ + uri_component(issuer)
    } else {
        Seq::empty()
    }
}

/// The login item of one token.
pub open spec fn vaultwarden_item(t: DecryptedToken) -> JsonV {
    JsonV::Obj(
        seq![
            ("name"@, JsonV::Str(t.name@)),
            ("type"@, JsonV::Int(1)),
            (
                "login"@,
                JsonV::Obj(
                    seq![
                        ("username"@, JsonV::Str(t.name@)),
                        ("totp"@, JsonV::Str(vaultwarden_uri(t))),
                    ],
                ),
            ),
        ],
    )
}

/// The Vaultwarden (Bitwarden) export document: one login item per token.
pub open spec fn vaultwarden_document(tokens: Seq<DecryptedToken>) -> JsonV {
    JsonV::Obj(
        seq![("items"@, JsonV::Arr(tokens.map_values(|t: DecryptedToken| vaultwarden_item(t))))],
    )
}

/// The Vaultwarden schema text: the document printed with four-space indentation.
pub open spec fn vaultwarden_text(tokens: Seq<DecryptedToken>) -> Seq<char> {
    render(vaultwarden_document(tokens), Seq::empty(), "    "@)
}

/// The `otpauth` URI of one token.
pub fn vaultwarden_totp_uri(t: &DecryptedToken) -> (uri: String)
    ensures
        uri@ == vaultwarden_uri(*t),
{
    let issuer: &str = match &t.issuer {
        Some(i) => i.as_str(),
        None => "",
    };
    let encoded_issuer = encode_uri_component(issuer);
    let mut uri = String::from_str("otpauth://totp/");
    uri.append(encoded_issuer.as_str());
    uri.append(":");
    uri.append(encode_uri_component(t.name.as_str()).as_str());
    uri.append("?secret=");
    uri.append(encode_uri_component(t.decrypted_seed.as_str()).as_str());
    uri.append("&digits=");
    push_decimal_i64(&mut uri, t.digits);
    if !issuer.is_empty() {
        uri.append("&issuer=");
        uri.append(encoded_issuer.as_str());
    }
    proof {
        reveal_strlit("");
        assert(issuer@ == issuer_or_empty(*t));
    }
    uri
}

/// The login item of one token.
pub fn vaultwarden_item_json(t: &DecryptedToken) -> (j: Json)
    ensures
        j@ == vaultwarden_item(*t),
{
    let mut login: Vec<(String, Json)> = Vec::new();
    login.push(member("username", str_json(t.name.as_str())));
    login.push(member("totp", Json::Str(vaultwarden_totp_uri(t))));
    let mut item: Vec<(String, Json)> = Vec::new();
    item.push(member("name", str_json(t.name.as_str())));
    item.push(member("type", Json::Int(1)));
    proof {
        lemma_fields_view(login@);
        assert(json_fields_view(login@) =~= vaultwarden_item(*t)->Obj_0[2].1->Obj_0);
    }
    item.push(member("login", Json::Obj(login)));
    proof {
        lemma_fields_view(item@);
        assert(json_fields_view(item@) =~= vaultwarden_item(*t)->Obj_0);
    }
    Json::Obj(item)
}

/// Writes the tokens as a Vaultwarden / Bitwarden JSON import.
pub struct VaultwardenFormatter;

impl SchemaFormatter for VaultwardenFormatter {
    open spec fn formats_as(&self, tokens: Seq<DecryptedToken>, text: Seq<char>) -> bool {
        text == vaultwarden_text(tokens)
    }

    fn format(&self, tokens: &[DecryptedToken]) -> (text: String) {
        let mut items: Vec<Json> = Vec::new();
        let mut i: usize = 0;
        while i < tokens.len()
            invariant
                i <= tokens@.len(),
                items@.len() == i,
                forall|k: int| 0 <= k < i ==> #[trigger] items@[k]@ == vaultwarden_item(tokens@[k]),
            decreases tokens@.len() - i,
        {
            items.push(vaultwarden_item_json(&tokens[i]));
            i = i + 1;
        }
        let mut root: Vec<(String, Json)> = Vec::new();
        root.push(member("items", Json::Arr(items)));
        proof {
            lemma_seq_view(items@);
            let expected = tokens@.map_values(|t: DecryptedToken| vaultwarden_item(t));
            assert(items@.len() == tokens@.len());
            assert forall|k: int| 0 <= k < items@.len() implies json_seq_view(items@)[k]
                == expected[k] by {
                assert(items@[k]@ == vaultwarden_item(tokens@[k]));
            }
            assert(json_seq_view(items@) =~= expected);
            lemma_fields_view(root@);
            assert(json_fields_view(root@) =~= vaultwarden_document(tokens@)->Obj_0);
        }
        let doc = Json::Obj(root);
        to_string_pretty_indent(&doc, "    ")
    }
}

} // verus!
