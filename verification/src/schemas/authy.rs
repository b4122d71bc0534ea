use vstd::prelude::*;

use crate::decrypt::DecryptedToken;
use crate::json::{
    json_at, json_get, member_lookup, lemma_fields_view, lemma_seq_view, member, opt_json, opt_to_json, render, str_json,
    to_string_pretty_indent, Json, JsonV, json_fields_view, json_seq_view,
};

use super::SchemaFormatter;

verus! {

/// The JSON object of one token: all its fields, in declaration order.
pub open spec fn token_json(t: DecryptedToken) -> JsonV {
    JsonV::Obj(
        seq![
            ("account_type"@, JsonV::Str(t.account_type@)),
            ("name"@, JsonV::Str(t.name@)),
            ("issuer"@, opt_json(t.issuer)),
            ("decrypted_seed"@, JsonV::Str(t.decrypted_seed@)),
            ("digits"@, JsonV::Int(t.digits as int)),
            ("logo"@, opt_json(t.logo)),
            ("unique_id"@, JsonV::Str(t.unique_id@)),
        ],
    )
}

/// The document of the Authy schema: a success message and the tokens.
pub open spec fn authy_document(tokens: Seq<DecryptedToken>) -> JsonV {
    JsonV::Obj(
        seq![
            ("message"@, JsonV::Str("success"@)),
            ("success"@, JsonV::Bool(true)),
            ("tokens"@, JsonV::Arr(tokens.map_values(|t: DecryptedToken| token_json(t)))),
        ],
    )
}

/// The Authy schema text: the document printed with two-space indentation.
pub open spec fn authy_text(tokens: Seq<DecryptedToken>) -> Seq<char> {
    render(authy_document(tokens), Seq::empty(), "  "@)
}

/// The JSON object of one token.
pub fn token_to_json(t: &DecryptedToken) -> (j: Json)
    ensures
        j@ == token_json(*t),
{
    let mut m: Vec<(String, Json)> = Vec::new();
    m.push(member("account_type", str_json(t.account_type.as_str())));
    m.push(member("name", str_json(t.name.as_str())));
    m.push(member("issuer", opt_to_json(&t.issuer)));
    m.push(member("decrypted_seed", str_json(t.decrypted_seed.as_str())));
    m.push(member("digits", Json::Int(t.digits)));
    m.push(member("logo", opt_to_json(&t.logo)));
    m.push(member("unique_id", str_json(t.unique_id.as_str())));
    proof {
        lemma_fields_view(m@);
        assert(json_fields_view(m@) =~= token_json(*t)->Obj_0);
    }
    Json::Obj(m)
}

/// Writes the tokens as the Authy app's own export format.
pub struct AuthyFormatter;

impl SchemaFormatter for AuthyFormatter {
    open spec fn formats_as(&self, tokens: Seq<DecryptedToken>, text: Seq<char>) -> bool {
        text == authy_text(tokens)
    }

    fn format(&self, tokens: &[DecryptedToken]) -> (text: String) {
        let mut items: Vec<Json> = Vec::new();
        let mut i: usize = 0;
        while i < tokens.len()
            invariant
                i <= tokens@.len(),
                items@.len() == i,
                forall|k: int| 0 <= k < i ==> #[trigger] items@[k]@ == token_json(tokens@[k]),
            decreases tokens@.len() - i,
        {
            items.push(token_to_json(&tokens[i]));
            i = i + 1;
        }
        let mut root: Vec<(String, Json)> = Vec::new();
        root.push(member("message", str_json("success")));
        root.push(member("success", Json::Bool(true)));
        root.push(member("tokens", Json::Arr(items)));
        proof {
            lemma_seq_view(items@);
            let expected = tokens@.map_values(|t: DecryptedToken| token_json(t));
            assert(items@.len() == tokens@.len());
            assert forall|k: int| 0 <= k < items@.len() implies json_seq_view(items@)[k]
                == expected[k] by {
                assert(items@[k]@ == token_json(tokens@[k]));
            }
            assert(json_seq_view(items@) =~= expected);
            lemma_fields_view(root@);
            assert(json_fields_view(root@) =~= authy_document(tokens@)->Obj_0);
        }
        let doc = Json::Obj(root);
        to_string_pretty_indent(&doc, "  ")
    }
}


/// In the Authy document every token appears, in order, as an object that
/// carries all of its fields: its texts as JSON strings, its digits as a
/// number, and its issuer and its logo as JSON strings when it has them and as
/// `null` only when it has none.
pub proof fn lemma_authy_tokens_keep_their_fields(tokens: Seq<DecryptedToken>, i: int)
    requires
        0 <= i < tokens.len(),
    ensures
        ({
            let arr = json_get(authy_document(tokens), "tokens"@);
            let obj = json_at(arr->Some_0, i);
            let t = tokens[i];
            &&& arr is Some
            &&& arr->Some_0 is Arr
            &&& arr->Some_0->Arr_0.len() == tokens.len()
            &&& obj is Some
            &&& json_get(obj->Some_0, "account_type"@) == Some(JsonV::Str(t.account_type@))
            &&& json_get(obj->Some_0, "name"@) == Some(JsonV::Str(t.name@))
            &&& json_get(obj->Some_0, "issuer"@) == Some(
                match t.issuer {
                    Some(x) => JsonV::Str(x@),
                    None => JsonV::Null,
                },
            )
            &&& json_get(obj->Some_0, "decrypted_seed"@) == Some(JsonV::Str(t.decrypted_seed@))
            &&& json_get(obj->Some_0, "digits"@) == Some(JsonV::Int(t.digits as int))
            &&& json_get(obj->Some_0, "logo"@) == Some(
                match t.logo {
                    Some(x) => JsonV::Str(x@),
                    None => JsonV::Null,
                },
            )
            &&& json_get(obj->Some_0, "unique_id"@) == Some(JsonV::Str(t.unique_id@))
        }),
{
    reveal_strlit("message");
    reveal_strlit("success");
    reveal_strlit("tokens");
    reveal_strlit("account_type");
    reveal_strlit("name");
    reveal_strlit("issuer");
    reveal_strlit("decrypted_seed");
    reveal_strlit("digits");
    reveal_strlit("logo");
    reveal_strlit("unique_id");
    reveal_with_fuel(member_lookup, 8);
    let t = tokens[i];
    let obj = token_json(t);
    let ms = obj->Obj_0;
    assert(ms.drop_first().drop_first() =~= ms.subrange(2, 7));
    assert(ms.drop_first().drop_first().drop_first() =~= ms.subrange(3, 7));
    assert(ms.drop_first().drop_first().drop_first().drop_first() =~= ms.subrange(4, 7));
    assert(ms.drop_first().drop_first().drop_first().drop_first().drop_first() =~= ms.subrange(5, 7));
    assert(ms.drop_first().drop_first().drop_first().drop_first().drop_first().drop_first()
        =~= ms.subrange(6, 7));
    let top = authy_document(tokens)->Obj_0;
    assert(top.drop_first().drop_first() =~= top.subrange(2, 3));
    assert("message"@.len() != "tokens"@.len());
    assert("success"@.len() != "tokens"@.len());
    assert(member_lookup(top.drop_first().drop_first(), "tokens"@) == Some(top[2].1));
    assert(member_lookup(top.drop_first(), "tokens"@) == Some(top[2].1));
    assert(member_lookup(top, "tokens"@) == Some(top[2].1));
    let items = tokens.map_values(|x: DecryptedToken| token_json(x));
    assert("account_type"@.len() == 12 && "name"@.len() == 4 && "issuer"@.len() == 6);
    assert("decrypted_seed"@.len() == 14 && "digits"@.len() == 6 && "logo"@.len() == 4);
    assert("unique_id"@.len() == 9);
    assert("name"@[0] != "logo"@[0] && "issuer"@[0] != "digits"@[0]);
    assert("name"@ != "logo"@ && "issuer"@ != "digits"@);
    assert(json_at(JsonV::Arr(items), i) == Some(obj));
    assert(json_get(obj, "account_type"@) == Some(JsonV::Str(t.account_type@)));
    assert(json_get(obj, "name"@) == Some(JsonV::Str(t.name@)));
    assert(json_get(obj, "issuer"@) == Some(opt_json(t.issuer)));
    assert(json_get(obj, "decrypted_seed"@) == Some(JsonV::Str(t.decrypted_seed@)));
    assert(json_get(obj, "digits"@) == Some(JsonV::Int(t.digits as int)));
    assert(json_get(obj, "logo"@) == Some(opt_json(t.logo)));
    assert(json_get(obj, "unique_id"@) == Some(JsonV::Str(t.unique_id@)));
}

} // verus!
