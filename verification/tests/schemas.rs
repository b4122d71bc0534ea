use authy_decryptor::decrypt::format_tokens;
use authy_decryptor::json::{parse_json_value, to_string_pretty_indent, Json};
use authy_decryptor::schemas::aegis::{aegis_export, aegis_group_names, prefix_translation};
use authy_decryptor::schemas::{encode_uri_component, Formatter};
use authy_decryptor::{get_schema_formatter, DecryptedToken, SchemaFormatter};

fn token(name: &str, issuer: Option<&str>, logo: Option<&str>) -> DecryptedToken {
    DecryptedToken {
        account_type: "authenticator".to_string(),
        name: name.to_string(),
        issuer: issuer.map(|s| s.to_string()),
        decrypted_seed: "JBSWY3DPEHPK3PXP".to_string(),
        digits: 6,
        logo: logo.map(|s| s.to_string()),
        unique_id: "abc".to_string(),
    }
}

#[test]
fn schema_names_select_formatters() {
    assert!(matches!(get_schema_formatter("authy"), Some(Formatter::Authy(_))));
    assert!(matches!(get_schema_formatter("ente"), Some(Formatter::Ente(_))));
    assert!(matches!(get_schema_formatter("aegis"), Some(Formatter::Aegis(_))));
    assert!(matches!(get_schema_formatter("vaultwarden"), Some(Formatter::Vaultwarden(_))));
    assert!(get_schema_formatter("Authy").is_none());
    assert!(get_schema_formatter("").is_none());
}

#[test]
fn unsupported_schema_is_an_error() {
    assert_eq!(format_tokens(&[], "bitwarden").unwrap_err(), "❌ Unsupported schema: bitwarden");
}

#[test]
fn authy_schema_output() {
    let out = format_tokens(&[token("GitHub:alice", Some("GitHub"), None)], "authy").unwrap();
    let expected = r#"{
  "message": "success",
  "success": true,
  "tokens": [
    {
      "account_type": "authenticator",
      "name": "GitHub:alice",
      "issuer": "GitHub",
      "decrypted_seed": "JBSWY3DPEHPK3PXP",
      "digits": 6,
      "logo": null,
      "unique_id": "abc"
    }
  ]
}"#;
    assert_eq!(out, expected);
}

#[test]
fn authy_schema_with_no_tokens() {
    let out = format_tokens(&[], "authy").unwrap();
    assert_eq!(out, "{\n  \"message\": \"success\",\n  \"success\": true,\n  \"tokens\": []\n}");
}

#[test]
fn ente_schema_output() {
    let tokens = [token("My Bank", None, Some("bank logo")), token("a/b", Some("x"), None)];
    let out = format_tokens(&tokens, "ente").unwrap();
    assert_eq!(
        out,
        "otpauth://totp/My%20Bank-bank%20logo-authy?secret=JBSWY3DPEHPK3PXP\n\
         otpauth://totp/a%2Fb-authy?secret=JBSWY3DPEHPK3PXP"
    );
    assert_eq!(format_tokens(&[], "ente").unwrap(), "");
}

#[test]
fn vaultwarden_schema_output() {
    let mut t = token("alice@example.com", Some("Git Hub"), None);
    t.digits = -7;
    let out = format_tokens(&[t, token("bob", None, None)], "vaultwarden").unwrap();
    let expected = r#"{
    "items": [
        {
            "name": "alice@example.com",
            "type": 1,
            "login": {
                "username": "alice@example.com",
                "totp": "otpauth://totp/Git%20Hub:alice%40example.com?secret=JBSWY3DPEHPK3PXP&digits=-7&issuer=Git%20Hub"
            }
        },
        {
            "name": "bob",
            "type": 1,
            "login": {
                "username": "bob",
                "totp": "otpauth://totp/:bob?secret=JBSWY3DPEHPK3PXP&digits=6"
            }
        }
    ]
}"#;
    assert_eq!(out, expected);
}

#[test]
fn aegis_export_with_fixed_ids() {
    let tokens = [token("Google:me@gmail.com", None, Some("g.png")), token("aws:root", Some("Amazon Web Services"), None)];
    let groups = vec!["g1".to_string(), "g2".to_string(), "g3".to_string()];
    let entries = vec!["e1".to_string(), "e2".to_string()];
    let out = aegis_export(&tokens, &groups, &entries);
    let expected = r#"{
    "version": 1,
    "header": {
        "slots": null,
        "params": null
    },
    "db": {
        "version": 3,
        "entries": [
            {
                "type": "totp",
                "uuid": "e1",
                "name": "me@gmail.com",
                "issuer": "Google",
                "note": "logo: g.png",
                "favorite": false,
                "icon": null,
                "info": {
                    "secret": "JBSWY3DPEHPK3PXP",
                    "algo": "SHA1",
                    "digits": 6,
                    "period": 30
                },
                "groups": [
                    "g2"
                ]
            },
            {
                "type": "totp",
                "uuid": "e2",
                "name": "root",
                "issuer": "Amazon Web Services",
                "note": "",
                "favorite": false,
                "icon": null,
                "info": {
                    "secret": "JBSWY3DPEHPK3PXP",
                    "algo": "SHA1",
                    "digits": 6,
                    "period": 30
                },
                "groups": [
                    "g1"
                ]
            }
        ],
        "groups": [
            {
                "uuid": "g1",
                "name": "cloud"
            },
            {
                "uuid": "g2",
                "name": "email"
            },
            {
                "uuid": "g3",
                "name": "git"
            }
        ],
        "icons_optimized": true
    }
}"#;
    assert_eq!(out, expected);
}

#[test]
fn aegis_notes_keep_unexplained_prefixes() {
    let tokens = [token("Work:me", Some("Slack"), Some("s.png"))];
    let groups = vec!["g1".to_string(), "g2".to_string(), "g3".to_string()];
    let out = aegis_export(&tokens, &groups, &["e".to_string()]);
    assert!(out.contains("\"note\": \"prefix: Work\\nlogo: s.png\""), "{out}");
    assert!(out.contains("\"groups\": []"), "{out}");
    assert!(out.contains("\"name\": \"me\""), "{out}");
}

#[test]
fn aegis_format_uses_fresh_ids() {
    let out = format_tokens(&[token("GitHub:me", None, None)], "aegis").unwrap();
    assert!(out.contains("\"issuer\": \"GitHub\""));
    assert!(out.contains("\"name\": \"git\""));
    let a = get_schema_formatter("aegis").unwrap().format(&[]);
    let b = get_schema_formatter("aegis").unwrap().format(&[]);
    assert_ne!(a, b);
}

#[test]
fn aegis_groups_and_translations() {
    assert_eq!(aegis_group_names(), vec!["cloud".to_string(), "email".to_string(), "git".to_string()]);
    assert_eq!(prefix_translation("aws"), Some("Amazon Web Services"));
    assert_eq!(prefix_translation("AWS"), None);
}

#[test]
fn uri_component_encoding() {
    assert_eq!(encode_uri_component("a b"), "a%20b");
    assert_eq!(encode_uri_component("A-Z_a.z!~*'()09"), "A-Z_a.z!~*'()09");
    assert_eq!(encode_uri_component("é"), "%C3%A9");
    assert_eq!(encode_uri_component("a:b?c=d&e/f#"), "a%3Ab%3Fc%3Dd%26e%2Ff%23");
    assert_eq!(encode_uri_component(""), "");
}

#[test]
fn pretty_printing_matches_serde_json() {
    let doc = Json::Obj(vec![
        ("a".to_string(), Json::Arr(vec![Json::Int(-5), Json::Bool(false), Json::Null])),
        ("b".to_string(), Json::Str("quote \" backslash \\ tab \t newline \n ctl \u{1} é".to_string())),
        ("c".to_string(), Json::Obj(vec![])),
        ("d".to_string(), Json::Arr(vec![])),
        ("e".to_string(), Json::Obj(vec![("x".to_string(), Json::Int(i64::MIN))])),
    ]);
    let mut map = serde_json::Map::new();
    map.insert("a".into(), serde_json::Value::Array(vec![(-5).into(), false.into(), serde_json::Value::Null]));
    map.insert("b".into(), "quote \" backslash \\ tab \t newline \n ctl \u{1} é".into());
    map.insert("c".into(), serde_json::Value::Object(serde_json::Map::new()));
    map.insert("d".into(), serde_json::Value::Array(vec![]));
    let mut inner = serde_json::Map::new();
    inner.insert("x".into(), i64::MIN.into());
    map.insert("e".into(), serde_json::Value::Object(inner));
    let expected = serde_json::to_string_pretty(&serde_json::Value::Object(map)).unwrap();
    assert_eq!(to_string_pretty_indent(&doc, "  "), expected);
}

#[test]
fn parsed_json_keeps_every_value() {
    let j = parse_json_value(r#"{"b": [1, -2, 18446744073709551615, 2.5, null, true], "a": "x\ny"}"#)
        .unwrap();
    match j {
        Json::Obj(ms) => {
            // serde_json's map yields members ordered by key
            assert_eq!(ms.len(), 2);
            assert_eq!(ms[0].0, "a");
            match &ms[0].1 {
                Json::Str(s) => assert_eq!(s, "x\ny"),
                _ => panic!("expected a string"),
            }
            assert_eq!(ms[1].0, "b");
            match &ms[1].1 {
                Json::Arr(items) => {
                    assert_eq!(items.len(), 6);
                    assert!(matches!(items[0], Json::Int(1)));
                    assert!(matches!(items[1], Json::Int(-2)));
                    match &items[2] {
                        Json::Num(t) => assert_eq!(t, "18446744073709551615"),
                        _ => panic!("expected a number text"),
                    }
                    match &items[3] {
                        Json::Num(t) => assert_eq!(t, "2.5"),
                        _ => panic!("expected a number text"),
                    }
                    assert!(matches!(items[4], Json::Null));
                    assert!(matches!(items[5], Json::Bool(true)));
                }
                _ => panic!("expected an array"),
            }
        }
        _ => panic!("expected an object"),
    }
    assert!(parse_json_value("{").is_none());
    assert!(parse_json_value("").is_none());
}
