use vstd::prelude::*;
use vstd::string::StringExecFns;

use crate::decrypt::DecryptedToken;
use crate::json::{
    json_at, json_get, member_lookup, lemma_fields_view, lemma_seq_view, member, render, str_json, to_string_pretty_indent, Json,
    JsonV, json_fields_view, json_seq_view,
};
use crate::primitives::{ascii_lower, is_ascii_text, is_lower_hex_digit, is_uuid_v4_text, push_char, new_uuid_v4, to_lowercase, unicode_lowercase};
use crate::text::{chars_of, concat_str, join, join_strings, lemma_split_nonempty, split_on, split_str, str_equal, views};

use super::SchemaFormatter;

verus! {

/// The issuer that a lowercase name prefix stands for.
pub open spec fn prefix_translation_of(prefix: Seq<char>) -> Option<Seq<char>> {
    if prefix == "aws"@ {
        Some("Amazon Web Services"@)
    } else {
        None
    }
}

/// The issuer that a lowercase name prefix stands for ("aws" only).
pub fn prefix_translation(prefix: &str) -> (res: Option<&'static str>)
    ensures
        match res {
            Some(t) => prefix_translation_of(prefix@) == Some(t@),
            None => prefix_translation_of(prefix@) is None,
        },
{
    if str_equal(prefix, "aws") {
        Some("Amazon Web Services")
    } else {
        None
    }
}

/// Lowercase issuer names and the Aegis group that each one belongs to.
pub open spec fn group_table() -> Seq<(Seq<char>, Seq<char>)> {
    seq![
        ("amazon web services"@, "cloud"@),
        ("google"@, "email"@),
        ("protonmail"@, "email"@),
        ("gitlab"@, "git"@),
        ("github"@, "git"@),
        ("digitalocean"@, "cloud"@),
    ]
}

/// The table of issuer names and groups.
fn group_table_entries() -> (res: Vec<(&'static str, &'static str)>)
    ensures
        res@.len() == group_table().len(),
        forall|i: int|
            0 <= i < res@.len() ==> (#[trigger] res@[i]).0@ == group_table()[i].0 && res@[i].1@
                == group_table()[i].1,
{
    let mut v: Vec<(&'static str, &'static str)> = Vec::new();
    v.push(("amazon web services", "cloud"));
    v.push(("google", "email"));
    v.push(("protonmail", "email"));
    v.push(("gitlab", "git"));
    v.push(("github", "git"));
    v.push(("digitalocean", "cloud"));
    v
}

/// `names` without repetitions, each kept where it first occurs.
pub open spec fn distinct(names: Seq<Seq<char>>) -> Seq<Seq<char>>
    decreases names.len(),
{
    if names.len() == 0 {
        Seq::empty()
    } else {
        let d = distinct(names.drop_last());
        if d.contains(names.last()) {
            d
        } else {
            d.push(names.last())
        }
    }
}

/// The Aegis groups, in the order in which the table first names them.
pub open spec fn aegis_groups() -> Seq<Seq<char>> {
    distinct(group_table().map_values(|p: (Seq<char>, Seq<char>)| p.1))
}

/// The group of the first table entry whose issuer name is `keyword`.
pub open spec fn group_of(table: Seq<(Seq<char>, Seq<char>)>, keyword: Seq<char>) -> Option<
    Seq<char>,
>
    decreases table.len(),
{
    if table.len() == 0 {
        None
    } else if table[0].0 == keyword {
        Some(table[0].1)
    } else {
        group_of(table.drop_first(), keyword)
    }
}

/// The position of the first occurrence of `x` in `s`.
pub open spec fn first_index(s: Seq<Seq<char>>, x: Seq<char>) -> int
    decreases s.len(),
{
    if s.len() == 0 || s[0] == x {
        0
    } else {
        1 + first_index(s.drop_first(), x)
    }
}

/// The group ids of an entry whose lowercase issuer is `lower_issuer`: the id
/// of its group where the table names one, else none.
pub open spec fn entry_groups(lower_issuer: Seq<char>, group_ids: Seq<Seq<char>>) -> Seq<Seq<char>> {
    match group_of(group_table(), lower_issuer) {
        Some(g) => if aegis_groups().contains(g) {
            seq![group_ids[first_index(aegis_groups(), g)]]
        } else {
            Seq::empty()
        },
        None => Seq::empty(),
    }
}

/// The pieces of a token's name around ':'.
pub open spec fn name_parts(t: DecryptedToken) -> Seq<Seq<char>> {
    split_on(t.name@, ':')
}

/// The issuer of an entry: the token's own, else the first piece of its name.
pub open spec fn entry_issuer(t: DecryptedToken) -> Seq<char> {
    match t.issuer {
        Some(i) => i@,
        None => if name_parts(t).len() > 0 {
            name_parts(t)[0]
        } else {
            "unknown"@
        },
    }
}

/// The lowercase of a text: letter by letter for ASCII text, the Unicode
/// lowercase mapping beyond.
pub open spec fn lowercase_of(s: Seq<char>) -> Seq<char> {
    if is_ascii_text(s) {
        s.map_values(|c: char| ascii_lower(c))
    } else {
        unicode_lowercase(s)
    }
}

/// The note lines of an entry: the name's prefix where it names neither the
/// issuer nor (by translation) the issuer, and the logo where there is one.
pub open spec fn entry_notes(t: DecryptedToken) -> Seq<Seq<char>> {
    let parts = name_parts(t);
    let issuer = entry_issuer(t);
    let prefix = lowercase_of(parts[0]);
    let first = if parts.len() > 1 && prefix != lowercase_of(issuer) && prefix_translation_of(
        prefix,
    ) != Some(issuer) {
        seq!["prefix: "@ + parts[0]]
    } else {
        Seq::empty()
    };
    first + match t.logo {
        Some(l) => seq!["logo: "@ + l@],
        None => Seq::empty(),
    }
}

/// The JSON array of some strings.
pub open spec fn str_array(s: Seq<Seq<char>>) -> JsonV {
    JsonV::Arr(s.map_values(|x: Seq<char>| JsonV::Str(x)))
}

/// The Aegis entry of a token with id `uuid`.
pub open spec fn aegis_entry(t: DecryptedToken, uuid: Seq<char>, group_ids: Seq<Seq<char>>) -> JsonV {
    let issuer = entry_issuer(t);
    JsonV::Obj(
        seq![
            ("type"@, JsonV::Str("totp"@)),
            ("uuid"@, JsonV::Str(uuid)),
            ("name"@, JsonV::Str(name_parts(t).last())),
            ("issuer"@, JsonV::Str(issuer)),
            ("note"@, JsonV::Str(join(entry_notes(t), seq!['\n']))),
            ("favorite"@, JsonV::Bool(false)),
            ("icon"@, JsonV::Null),
            (
                "info"@,
                JsonV::Obj(
                    seq![
                        ("secret"@, JsonV::Str(t.decrypted_seed@)),
                        ("algo"@, JsonV::Str("SHA1"@)),
                        ("digits"@, JsonV::Int(t.digits as int)),
                        ("period"@, JsonV::Int(30)),
                    ],
                ),
            ),
            ("groups"@, str_array(entry_groups(lowercase_of(issuer), group_ids))),
        ],
    )
}

/// The Aegis group object with id `uuid`.
pub open spec fn aegis_group(uuid: Seq<char>, name: Seq<char>) -> JsonV {
    JsonV::Obj(seq![("uuid"@, JsonV::Str(uuid)), ("name"@, JsonV::Str(name))])
}

/// The Aegis vault document (unencrypted, version 1, database version 3).
pub open spec fn aegis_document(
    tokens: Seq<DecryptedToken>,
    group_ids: Seq<Seq<char>>,
    entry_ids: Seq<Seq<char>>,
) -> JsonV {
    JsonV::Obj(
        seq![
            ("version"@, JsonV::Int(1)),
            ("header"@, JsonV::Obj(seq![("slots"@, JsonV::Null), ("params"@, JsonV::Null)])),
            (
                "db"@,
                JsonV::Obj(
                    seq![
                        ("version"@, JsonV::Int(3)),
                        (
                            "entries"@,
                            JsonV::Arr(
                                Seq::new(
                                    tokens.len(),
                                    |i: int| aegis_entry(tokens[i], entry_ids[i], group_ids),
                                ),
                            ),
                        ),
                        (
                            "groups"@,
                            JsonV::Arr(
                                Seq::new(
                                    aegis_groups().len(),
                                    |i: int| aegis_group(group_ids[i], aegis_groups()[i]),
                                ),
                            ),
                        ),
                        ("icons_optimized"@, JsonV::Bool(true)),
                    ],
                ),
            ),
        ],
    )
}

/// The Aegis schema text for given group and entry ids, with four-space indentation.
pub open spec fn aegis_text(
    tokens: Seq<DecryptedToken>,
    group_ids: Seq<Seq<char>>,
    entry_ids: Seq<Seq<char>>,
) -> Seq<char> {
    render(aegis_document(tokens, group_ids, entry_ids), Seq::empty(), "    "@)
}

/// The position of the first string of `names` equal to `x`, if any.
fn position_of(names: &[String], x: &str) -> (res: Option<usize>)
    ensures
        match res {
            Some(k) => views(names@).contains(x@) && k == first_index(views(names@), x@) && k
                < names@.len(),
            None => !views(names@).contains(x@),
        },
{
    let ghost vs = views(names@);
    proof {
        assert(vs.skip(0) =~= vs);
    }
    let mut i: usize = 0;
    while i < names.len()
        invariant
            i <= names@.len(),
            vs == views(names@),
            forall|j: int| 0 <= j < i ==> vs[j] != x@,
            first_index(vs, x@) == i + first_index(vs.skip(i as int), x@),
        decreases names@.len() - i,
    {
        if str_equal(names[i].as_str(), x) {
            proof {
                assert(vs.skip(i as int)[0] == x@);
                assert(vs.contains(x@)) by {
                    assert(vs[i as int] == x@);
                }
            }
            return Some(i);
        }
        proof {
            assert(vs.skip(i as int).drop_first() =~= vs.skip(i + 1));
        }
        i = i + 1;
    }
    proof {
        if vs.contains(x@) {
            let j = choose|j: int| 0 <= j < vs.len() && vs[j] == x@;
            assert(vs[j] != x@);
        }
    }
    None
}

/// The Aegis groups, computed from the table.
pub fn aegis_group_names() -> (res: Vec<String>)
    ensures
        views(res@) == aegis_groups(),
{
    let table = group_table_entries();
    let ghost gs = group_table().map_values(|p: (Seq<char>, Seq<char>)| p.1);
    let mut names: Vec<String> = Vec::new();
    let mut i: usize = 0;
    while i < table.len()
        invariant
            i <= table@.len(),
            table@.len() == group_table().len(),
            forall|j: int|
                0 <= j < table@.len() ==> (#[trigger] table@[j]).0@ == group_table()[j].0
                    && table@[j].1@ == group_table()[j].1,
            gs == group_table().map_values(|p: (Seq<char>, Seq<char>)| p.1),
            views(names@) == distinct(gs.take(i as int)),
        decreases table@.len() - i,
    {
        let g = table[i].1;
        proof {
            assert(gs.take(i + 1).drop_last() =~= gs.take(i as int));
            assert(gs.take(i + 1).last() == g@);
        }
        match position_of(names.as_slice(), g) {
            Some(_) => {},
            None => {
                let ghost prev = names@;
                names.push(g.to_owned());
                proof {
                    assert(views(names@) =~= views(prev).push(g@));
                }
            },
        }
        i = i + 1;
    }
    proof {
        assert(gs.take(table@.len() as int) =~= gs);
    }
    names
}

/// The group of the first table entry whose issuer name is `keyword`.
fn group_of_keyword(keyword: &str) -> (res: Option<&'static str>)
    ensures
        match res {
            Some(g) => group_of(group_table(), keyword@) == Some(g@),
            None => group_of(group_table(), keyword@) is None,
        },
{
    let table = group_table_entries();
    proof {
        assert(group_table().skip(0) =~= group_table());
    }
    let mut i: usize = 0;
    while i < table.len()
        invariant
            i <= table@.len(),
            table@.len() == group_table().len(),
            forall|j: int|
                0 <= j < table@.len() ==> (#[trigger] table@[j]).0@ == group_table()[j].0
                    && table@[j].1@ == group_table()[j].1,
            group_of(group_table(), keyword@) == group_of(group_table().skip(i as int), keyword@),
        decreases table@.len() - i,
    {
        proof {
            assert(group_table().skip(i as int)[0] == group_table()[i as int]);
            assert(group_table().skip(i as int).drop_first() =~= group_table().skip(i + 1));
        }
        if str_equal(table[i].0, keyword) {
            return Some(table[i].1);
        }
        i = i + 1;
    }
    None
}

/// The Aegis entry of a token with id `uuid`, given the groups and their ids.
pub fn aegis_entry_json(t: &DecryptedToken, uuid: &str, names: &[String], group_ids: &[String]) -> (j:
    Json)
    requires
        views(names@) == aegis_groups(),
        group_ids@.len() == names@.len(),
    ensures
        j@ == aegis_entry(*t, uuid@, views(group_ids@)),
{
    let parts = split_str(t.name.as_str(), ':');
    proof {
        lemma_split_nonempty(t.name@, ':');
        assert(parts@.len() == views(parts@).len());
    }
    let last = parts.len() - 1;
    let entry_name = parts[last].clone();
    let issuer: String = match &t.issuer {
        Some(i) => i.clone(),
        None => if parts.len() > 0 {
            parts[0].clone()
        } else {
            String::from_str("unknown")
        },
    };
    proof {
        assert(views(parts@)[0] == parts@[0]@);
        assert(issuer@ == entry_issuer(*t));
    }
    let lower_issuer = to_lowercase(issuer.as_str());
    let mut notes: Vec<String> = Vec::new();
    if parts.len() > 1 {
        let prefix = to_lowercase(parts[0].as_str());
        let differs = match prefix_translation(prefix.as_str()) {
            Some(tr) => !str_equal(tr, issuer.as_str()),
            None => true,
        };
        if !str_equal(prefix.as_str(), lower_issuer.as_str()) && differs {
            notes.push(concat_str("prefix: ", parts[0].as_str()));
        }
    }
    match &t.logo {
        Some(l) => {
            notes.push(concat_str("logo: ", l.as_str()));
        },
        None => {},
    }
    proof {
        assert(views(notes@) =~= entry_notes(*t));
    }
    let note = join_strings(&notes, "\n");
    proof {
        reveal_strlit("\n");
        assert("\n"@ =~= seq!['\n']);
    }
    let mut groups: Vec<Json> = Vec::new();
    match group_of_keyword(lower_issuer.as_str()) {
        Some(g) => match position_of(names, g) {
            Some(k) => {
                groups.push(Json::Str(group_ids[k].clone()));
            },
            None => {},
        },
        None => {},
    }
    proof {
        lemma_seq_view(groups@);
        let expected = entry_groups(lowercase_of(issuer@), views(group_ids@));
        assert(json_seq_view(groups@) =~= expected.map_values(|x: Seq<char>| JsonV::Str(x)));
    }
    let mut info: Vec<(String, Json)> = Vec::new();
    info.push(member("secret", str_json(t.decrypted_seed.as_str())));
    info.push(member("algo", str_json("SHA1")));
    info.push(member("digits", Json::Int(t.digits)));
    info.push(member("period", Json::Int(30)));
    proof {
        lemma_fields_view(info@);
        assert(json_fields_view(info@) =~= aegis_entry(*t, uuid@, views(group_ids@))->Obj_0[7].1->Obj_0);
    }
    let mut m: Vec<(String, Json)> = Vec::new();
    m.push(member("type", str_json("totp")));
    m.push(member("uuid", str_json(uuid)));
    m.push(member("name", Json::Str(entry_name)));
    m.push(member("issuer", Json::Str(issuer)));
    m.push(member("note", Json::Str(note)));
    m.push(member("favorite", Json::Bool(false)));
    m.push(member("icon", Json::Null));
    m.push(member("info", Json::Obj(info)));
    m.push(member("groups", Json::Arr(groups)));
    proof {
        lemma_fields_view(m@);
        assert(json_fields_view(m@) =~= aegis_entry(*t, uuid@, views(group_ids@))->Obj_0);
    }
    Json::Obj(m)
}

/// The Aegis vault text for the tokens, with the given group ids (one per
/// group of `aegis_groups`, in order) and entry ids (one per token).
pub fn aegis_export(tokens: &[DecryptedToken], group_ids: &[String], entry_ids: &[String]) -> (text:
    String)
    requires
        group_ids@.len() == aegis_groups().len(),
        entry_ids@.len() == tokens@.len(),
    ensures
        text@ == aegis_text(tokens@, views(group_ids@), views(entry_ids@)),
{
    let names = aegis_group_names();
    let ghost gids = views(group_ids@);
    let ghost eids = views(entry_ids@);
    let mut groups: Vec<Json> = Vec::new();
    let mut i: usize = 0;
    while i < names.len()
        invariant
            i <= names@.len(),
            views(names@) == aegis_groups(),
            group_ids@.len() == names@.len(),
            gids == views(group_ids@),
            groups@.len() == i,
            forall|k: int|
                0 <= k < i ==> #[trigger] groups@[k]@ == aegis_group(gids[k], aegis_groups()[k]),
        decreases names@.len() - i,
    {
        let mut g: Vec<(String, Json)> = Vec::new();
        g.push(member("uuid", str_json(group_ids[i].as_str())));
        g.push(member("name", str_json(names[i].as_str())));
        proof {
            lemma_fields_view(g@);
            assert(json_fields_view(g@) =~= aegis_group(gids[i as int], aegis_groups()[i as int])->Obj_0);
        }
        groups.push(Json::Obj(g));
        i = i + 1;
    }
    let mut entries: Vec<Json> = Vec::new();
    let mut i: usize = 0;
    while i < tokens.len()
        invariant
            i <= tokens@.len(),
            views(names@) == aegis_groups(),
            group_ids@.len() == names@.len(),
            entry_ids@.len() == tokens@.len(),
            gids == views(group_ids@),
            eids == views(entry_ids@),
            entries@.len() == i,
            forall|k: int|
                0 <= k < i ==> #[trigger] entries@[k]@ == aegis_entry(tokens@[k], eids[k], gids),
        decreases tokens@.len() - i,
    {
        entries.push(aegis_entry_json(&tokens[i], entry_ids[i].as_str(), names.as_slice(), group_ids));
        i = i + 1;
    }
    let mut header: Vec<(String, Json)> = Vec::new();
    header.push(member("slots", Json::Null));
    header.push(member("params", Json::Null));
    let mut db: Vec<(String, Json)> = Vec::new();
    db.push(member("version", Json::Int(3)));
    proof {
        lemma_seq_view(entries@);
        lemma_seq_view(groups@);
        let doc = aegis_document(tokens@, gids, eids);
        let es = doc->Obj_0[2].1->Obj_0[1].1->Arr_0;
        assert(entries@.len() == es.len());
        assert forall|k: int| 0 <= k < entries@.len() implies json_seq_view(entries@)[k]
            == es[k] by {
            assert(entries@[k]@ == aegis_entry(tokens@[k], eids[k], gids));
        }
        assert(json_seq_view(entries@) =~= es);
        let gs = doc->Obj_0[2].1->Obj_0[2].1->Arr_0;
        assert(groups@.len() == gs.len());
        assert forall|k: int| 0 <= k < groups@.len() implies json_seq_view(groups@)[k]
            == gs[k] by {
            assert(groups@[k]@ == aegis_group(gids[k], aegis_groups()[k]));
        }
        assert(json_seq_view(groups@) =~= gs);
        lemma_fields_view(header@);
        assert(json_fields_view(header@) =~= doc->Obj_0[1].1->Obj_0);
    }
    db.push(member("entries", Json::Arr(entries)));
    db.push(member("groups", Json::Arr(groups)));
    db.push(member("icons_optimized", Json::Bool(true)));
    proof {
        lemma_fields_view(db@);
        assert(json_fields_view(db@) =~= aegis_document(tokens@, gids, eids)->Obj_0[2].1->Obj_0);
    }
    let mut root: Vec<(String, Json)> = Vec::new();
    root.push(member("version", Json::Int(1)));
    root.push(member("header", Json::Obj(header)));
    root.push(member("db", Json::Obj(db)));
    proof {
        lemma_fields_view(root@);
        assert(json_fields_view(root@) =~= aegis_document(tokens@, gids, eids)->Obj_0);
    }
    let doc = Json::Obj(root);
    to_string_pretty_indent(&doc, "    ")
}

/// Where the sixteen hex digits of a counter go in a UUID text: the last
/// twelve digits (from the end), then positions 22, 21, 20 and 17. None of them
/// is a hyphen, the version digit or the variant digit.
pub open spec fn counter_pos(k: int) -> int {
    if k < 12 {
        35 - k
    } else if k == 12 {
        22
    } else if k == 13 {
        21
    } else if k == 14 {
        20
    } else {
        17
    }
}

/// The `k`-th hex digit (from the least significant) of `j`.
pub open spec fn nibble(j: u64, k: int) -> u64 {
    (j >> ((4 * k) as u64)) & 15u64
}

/// The lowercase hex digit of a value below 16.
pub open spec fn counter_digit(d: u64) -> char {
    if d < 10 {
        (d + 48) as char
    } else {
        (d + 87) as char
    }
}

/// The digit index whose position is `p`, or -1 where `p` holds no digit of
/// the counter.
pub open spec fn counter_index(p: int) -> int {
    if 24 <= p < 36 {
        35 - p
    } else if p == 22 {
        12
    } else if p == 21 {
        13
    } else if p == 20 {
        14
    } else if p == 17 {
        15
    } else {
        -1
    }
}

/// `c` with the hex digits of `j` written at the counter positions.
pub open spec fn with_counter_text(c: Seq<char>, j: u64) -> Seq<char> {
    Seq::new(
        c.len(),
        |p: int|
            if counter_index(p) >= 0 {
                counter_digit(nibble(j, counter_index(p)))
            } else {
                c[p]
            },
    )
}

/// Different digit values give different digits.
proof fn lemma_counter_digit_injective(x: u64, y: u64)
    requires
        x < 16,
        y < 16,
        counter_digit(x) == counter_digit(y),
    ensures
        x == y,
{
    assert((counter_digit(x) as u32) == (if x < 10 { x + 48 } else { x + 87 }));
    assert((counter_digit(y) as u32) == (if y < 10 { y + 48 } else { y + 87 }));
}

/// Sixteen equal hex digits make equal numbers.
proof fn lemma_nibbles_determine(a: u64, b: u64)
    requires
        (a >> 0u64) & 15 == (b >> 0u64) & 15,
        (a >> 4u64) & 15 == (b >> 4u64) & 15,
        (a >> 8u64) & 15 == (b >> 8u64) & 15,
        (a >> 12u64) & 15 == (b >> 12u64) & 15,
        (a >> 16u64) & 15 == (b >> 16u64) & 15,
        (a >> 20u64) & 15 == (b >> 20u64) & 15,
        (a >> 24u64) & 15 == (b >> 24u64) & 15,
        (a >> 28u64) & 15 == (b >> 28u64) & 15,
        (a >> 32u64) & 15 == (b >> 32u64) & 15,
        (a >> 36u64) & 15 == (b >> 36u64) & 15,
        (a >> 40u64) & 15 == (b >> 40u64) & 15,
        (a >> 44u64) & 15 == (b >> 44u64) & 15,
        (a >> 48u64) & 15 == (b >> 48u64) & 15,
        (a >> 52u64) & 15 == (b >> 52u64) & 15,
        (a >> 56u64) & 15 == (b >> 56u64) & 15,
        (a >> 60u64) & 15 == (b >> 60u64) & 15,
    ensures
        a == b,
{
    assert(a == b) by (bit_vector)
        requires
            (a >> 0u64) & 15 == (b >> 0u64) & 15,
            (a >> 4u64) & 15 == (b >> 4u64) & 15,
            (a >> 8u64) & 15 == (b >> 8u64) & 15,
            (a >> 12u64) & 15 == (b >> 12u64) & 15,
            (a >> 16u64) & 15 == (b >> 16u64) & 15,
            (a >> 20u64) & 15 == (b >> 20u64) & 15,
            (a >> 24u64) & 15 == (b >> 24u64) & 15,
            (a >> 28u64) & 15 == (b >> 28u64) & 15,
            (a >> 32u64) & 15 == (b >> 32u64) & 15,
            (a >> 36u64) & 15 == (b >> 36u64) & 15,
            (a >> 40u64) & 15 == (b >> 40u64) & 15,
            (a >> 44u64) & 15 == (b >> 44u64) & 15,
            (a >> 48u64) & 15 == (b >> 48u64) & 15,
            (a >> 52u64) & 15 == (b >> 52u64) & 15,
            (a >> 56u64) & 15 == (b >> 56u64) & 15,
            (a >> 60u64) & 15 == (b >> 60u64) & 15,
    ;
}

/// Different counters give different texts.
proof fn lemma_with_counter_injective(c: Seq<char>, a: u64, b: u64)
    requires
        c.len() == 36,
        with_counter_text(c, a) == with_counter_text(c, b),
    ensures
        a == b,
{
    assert forall|k: int| 0 <= k < 16 implies nibble(a, k) == nibble(b, k) by {
        let p = counter_pos(k);
        assert(0 <= p < 36);
        assert(counter_index(p) == k);
        assert(with_counter_text(c, a)[p] == counter_digit(nibble(a, k)));
        assert(with_counter_text(c, b)[p] == counter_digit(nibble(b, k)));
        assert(nibble(a, k) < 16) by {
            let s = (4 * k) as u64;
            assert((a >> s) & 15u64 < 16) by (bit_vector);
        }
        assert(nibble(b, k) < 16) by {
            let s = (4 * k) as u64;
            assert((b >> s) & 15u64 < 16) by (bit_vector);
        }
        lemma_counter_digit_injective(nibble(a, k), nibble(b, k));
    }
    assert(nibble(a, 0) == nibble(b, 0) && nibble(a, 1) == nibble(b, 1));
    assert(nibble(a, 2) == nibble(b, 2) && nibble(a, 3) == nibble(b, 3));
    assert(nibble(a, 4) == nibble(b, 4) && nibble(a, 5) == nibble(b, 5));
    assert(nibble(a, 6) == nibble(b, 6) && nibble(a, 7) == nibble(b, 7));
    assert(nibble(a, 8) == nibble(b, 8) && nibble(a, 9) == nibble(b, 9));
    assert(nibble(a, 10) == nibble(b, 10) && nibble(a, 11) == nibble(b, 11));
    assert(nibble(a, 12) == nibble(b, 12) && nibble(a, 13) == nibble(b, 13));
    assert(nibble(a, 14) == nibble(b, 14) && nibble(a, 15) == nibble(b, 15));
    lemma_nibbles_determine(a, b);
}

/// Writing a counter into a version-4 UUID text keeps it one.
proof fn lemma_with_counter_is_uuid(c: Seq<char>, j: u64)
    requires
        is_uuid_v4_text(c),
    ensures
        is_uuid_v4_text(with_counter_text(c, j)),
{
    let v = with_counter_text(c, j);
    assert forall|p: int| 0 <= p < 36 implies if p == 8 || p == 13 || p == 18 || p == 23 {
        #[trigger] v[p] == '-'
    } else {
        is_lower_hex_digit(v[p])
    } by {
        if counter_index(p) >= 0 {
            let k = counter_index(p);
            let s = (4 * k) as u64;
            assert(nibble(j, k) < 16) by {
                assert((j >> s) & 15u64 < 16) by (bit_vector);
            }
        }
    }
    assert(v[14] == c[14]);
    assert(v[19] == c[19]);
}

/// The counter digit index of position `p`, where it holds one.
fn counter_index_at(p: usize) -> (k: Option<u64>)
    ensures
        match k {
            Some(k) => counter_index(p as int) == k as int,
            None => counter_index(p as int) < 0,
        },
{
    if 24 <= p && p < 36 {
        Some((35 - p) as u64)
    } else if p == 22 {
        Some(12)
    } else if p == 21 {
        Some(13)
    } else if p == 20 {
        Some(14)
    } else if p == 17 {
        Some(15)
    } else {
        None
    }
}

/// `c` with the hex digits of `j` written at the counter positions.
fn with_counter(c: &String, j: u64) -> (res: String)
    requires
        c@.len() == 36,
    ensures
        res@ == with_counter_text(c@, j),
{
    let cs = chars_of(c.as_str());
    let ghost target = with_counter_text(c@, j);
    let mut out = String::new();
    let mut p: usize = 0;
    while p < 36
        invariant
            cs@ == c@,
            c@.len() == 36,
            target == with_counter_text(c@, j),
            p <= 36,
            out@ =~= target.take(p as int),
        decreases 36 - p,
    {
        let ch = match counter_index_at(p) {
            Some(k) => {
                let d: u64 = (j >> (4 * k)) & 15;
                assert(d < 16) by (bit_vector)
                    requires
                        d == (j >> (4 * k)) & 15,
                ;
                assert(d == nibble(j, k as int));
                if d < 10 {
                    ((d as u8) + 48) as char
                } else {
                    ((d as u8) + 87) as char
                }
            },
            None => cs[p],
        };
        assert(ch == target[p as int]);
        push_char(&mut out, ch);
        assert(target.take(p + 1) =~= target.take(p as int).push(target[p as int]));
        p = p + 1;
    }
    assert(target.take(36) =~= target);
    out
}

/// Whether one of `taken` equals `s`.
fn contains_str(taken: &Vec<String>, s: &str) -> (res: bool)
    ensures
        res == views(taken@).contains(s@),
{
    let n = taken.len();
    let mut i: usize = 0;
    while i < n
        invariant
            n == taken@.len(),
            i <= n,
            forall|k: int| 0 <= k < i ==> taken@[k]@ != s@,
        decreases n - i,
    {
        if str_equal(taken[i].as_str(), s) {
            assert(views(taken@)[i as int] == s@);
            return true;
        }
        i = i + 1;
    }
    false
}

/// Among the counter variants 0 to `taken.len()` of one UUID text, one is not
/// in `taken`: they are one more than its length, and pairwise different.
proof fn lemma_counter_pigeonhole(c: Seq<char>, taken: Seq<Seq<char>>)
    requires
        c.len() == 36,
        taken.len() <= u64::MAX,
    ensures
        exists|x: int| 0 <= x <= taken.len() && !taken.contains(#[trigger] with_counter_text(c, x as u64)),
{
    if forall|x: int| 0 <= x <= taken.len() ==> taken.contains(#[trigger] with_counter_text(c, x as u64)) {
        let n = taken.len() as int;
        let xs = vstd::set_lib::set_int_range(0, n + 1);
        vstd::set_lib::lemma_int_range(0, n + 1);
        let f = |x: int| with_counter_text(c, x as u64);
        assert(vstd::relations::injective_on(f, xs)) by {
            assert forall|a: int, b: int|
                xs.contains(a) && xs.contains(b) && #[trigger] f(a) == #[trigger] f(b) implies a == b by {
                lemma_with_counter_injective(c, a as u64, b as u64);
            }
        }
        let ys = xs.map(f);
        vstd::set_lib::lemma_map_size(xs, ys, f);
        vstd::seq_lib::seq_to_set_is_finite(taken);
        assert(ys.subset_of(taken.to_set())) by {
            assert forall|y: Seq<char>| ys.contains(y) implies taken.to_set().contains(y) by {
                let x = choose|x: int| xs.contains(x) && f(x) == y;
                assert(taken.contains(with_counter_text(c, x as u64)));
            }
        }
        taken.lemma_cardinality_of_set();
        vstd::set_lib::lemma_len_subset(ys, taken.to_set());
    }
}

/// A fresh version-4 UUID that differs from every id in `taken`: a new random
/// UUID, or, should it collide with one of them, the first variant of it that
/// carries a counter in sixteen of its random digits and is not taken.
fn fresh_id(taken: &Vec<String>) -> (id: String)
    ensures
        is_uuid_v4_text(id@),
        !views(taken@).contains(id@),
{
    let c = new_uuid_v4();
    if !contains_str(taken, c.as_str()) {
        return c;
    }
    let n = taken.len();
    let mut j: usize = 0;
    while j < n
        invariant
            n == taken@.len(),
            j <= n,
            is_uuid_v4_text(c@),
            forall|x: int| 0 <= x < j ==> views(taken@).contains(#[trigger] with_counter_text(c@, x as u64)),
        decreases n - j,
    {
        let v = with_counter(&c, j as u64);
        if !contains_str(taken, v.as_str()) {
            proof {
                lemma_with_counter_is_uuid(c@, j as u64);
            }
            return v;
        }
        j = j + 1;
    }
    let v = with_counter(&c, n as u64);
    proof {
        lemma_with_counter_is_uuid(c@, n as u64);
        lemma_counter_pigeonhole(c@, views(taken@));
        let x = choose|x: int|
            0 <= x <= views(taken@).len() && !views(taken@).contains(
                #[trigger] with_counter_text(c@, x as u64),
            );
        assert(x == n);
    }
    v
}

/// Fresh random ids, one per position, no two of them alike.
fn fresh_ids(n: usize) -> (ids: Vec<String>)
    ensures
        ids@.len() == n,
        forall|i: int| 0 <= i < n ==> is_uuid_v4_text(#[trigger] ids@[i]@),
        forall|i: int, j: int| 0 <= i < j < n ==> (#[trigger] ids@[i])@ != (#[trigger] ids@[j])@,
{
    let mut ids: Vec<String> = Vec::new();
    let mut i: usize = 0;
    while i < n
        invariant
            i <= n,
            ids@.len() == i,
            forall|k: int| 0 <= k < i ==> is_uuid_v4_text(#[trigger] ids@[k]@),
            forall|a: int, b: int| 0 <= a < b < i ==> (#[trigger] ids@[a])@ != (#[trigger] ids@[b])@,
        decreases n - i,
    {
        let id = fresh_id(&ids);
        proof {
            assert forall|a: int| 0 <= a < i implies ids@[a]@ != id@ by {
                assert(views(ids@)[a] == ids@[a]@);
            }
        }
        ids.push(id);
        i = i + 1;
    }
    ids
}

/// Writes the tokens as an unencrypted Aegis vault, grouping known issuers.
pub struct AegisFormatter;

impl SchemaFormatter for AegisFormatter {
    /// The text is the Aegis vault of the tokens for some random version-4 UUID
    /// ids of its groups and entries, no two groups and no two entries alike.
    open spec fn formats_as(&self, tokens: Seq<DecryptedToken>, text: Seq<char>) -> bool {
        exists|group_ids: Seq<Seq<char>>, entry_ids: Seq<Seq<char>>|
            {
                &&& group_ids.len() == aegis_groups().len()
                &&& entry_ids.len() == tokens.len()
                &&& forall|i: int| 0 <= i < group_ids.len() ==> is_uuid_v4_text(#[trigger] group_ids[i])
                &&& forall|i: int| 0 <= i < entry_ids.len() ==> is_uuid_v4_text(#[trigger] entry_ids[i])
                &&& forall|i: int, j: int|
                    0 <= i < j < group_ids.len() ==> #[trigger] group_ids[i] != #[trigger] group_ids[j]
                &&& forall|i: int, j: int|
                    0 <= i < j < entry_ids.len() ==> #[trigger] entry_ids[i] != #[trigger] entry_ids[j]
                &&& text == #[trigger] aegis_text(tokens, group_ids, entry_ids)
            }
    }

    fn format(&self, tokens: &[DecryptedToken]) -> (text: String) {
        let names = aegis_group_names();
        let group_ids = fresh_ids(names.len());
        let entry_ids = fresh_ids(tokens.len());
        let text = aegis_export(tokens, group_ids.as_slice(), entry_ids.as_slice());
        proof {
            let g = views(group_ids@);
            let e = views(entry_ids@);
            assert(forall|i: int| 0 <= i < g.len() ==> is_uuid_v4_text(#[trigger] g[i]));
            assert(forall|i: int| 0 <= i < e.len() ==> is_uuid_v4_text(#[trigger] e[i]));
            assert(forall|i: int, j: int| 0 <= i < j < g.len() ==> #[trigger] g[i] != #[trigger] g[j]);
            assert(forall|i: int, j: int| 0 <= i < j < e.len() ==> #[trigger] e[i] != #[trigger] e[j]);
            assert(text@ == aegis_text(tokens@, g, e));
        }
        text
    }
}


/// An entry's note names a prefix only when the token's name has one: for a
/// name without ':' the note is the logo line alone, or empty when the token
/// has no logo.
pub proof fn lemma_aegis_note_without_prefix(t: DecryptedToken, uuid: Seq<char>, group_ids: Seq<Seq<char>>)
    requires
        !t.name@.contains(':'),
    ensures
        json_get(aegis_entry(t, uuid, group_ids), "note"@) == Some(
            JsonV::Str(
                match t.logo {
                    Some(l) => "logo: "@ + l@,
                    None => Seq::<char>::empty(),
                },
            ),
        ),
{
    lemma_split_nonempty(t.name@, ':');
    assert(name_parts(t).len() == 1);
    let notes = entry_notes(t);
    match t.logo {
        Some(l) => {
            assert(notes =~= seq!["logo: "@ + l@]);
        },
        None => {
            assert(notes =~= Seq::<Seq<char>>::empty());
        },
    }
    reveal_strlit("type");
    reveal_strlit("uuid");
    reveal_strlit("name");
    reveal_strlit("issuer");
    reveal_strlit("note");
    assert("type"@[0] != "note"@[0] && "uuid"@[0] != "note"@[0] && "name"@[1] != "note"@[1]);
    assert("issuer"@.len() != "note"@.len());
    assert("type"@ != "note"@ && "uuid"@ != "note"@ && "name"@ != "note"@ && "issuer"@ != "note"@);
    reveal_with_fuel(member_lookup, 6);
    let ms = aegis_entry(t, uuid, group_ids)->Obj_0;
    assert(ms.drop_first().drop_first() =~= ms.subrange(2, 9));
    assert(ms.drop_first().drop_first().drop_first() =~= ms.subrange(3, 9));
    assert(ms.drop_first().drop_first().drop_first().drop_first() =~= ms.subrange(4, 9));
}


/// The `uuid` member of item `i` of the vault's list `list` (`groups` or
/// `entries`).
pub open spec fn vault_item_uuid(doc: JsonV, list: Seq<char>, i: int) -> Option<JsonV> {
    match json_get(doc, "db"@) {
        Some(db) => match json_get(db, list) {
            Some(arr) => match json_at(arr, i) {
                Some(item) => json_get(item, "uuid"@),
                None => None,
            },
            None => None,
        },
        None => None,
    }
}

/// Each group and each entry of the vault carries the id given for it.
proof fn lemma_vault_item_uuids(
    tokens: Seq<DecryptedToken>,
    group_ids: Seq<Seq<char>>,
    entry_ids: Seq<Seq<char>>,
)
    requires
        entry_ids.len() == tokens.len(),
        group_ids.len() == aegis_groups().len(),
    ensures
        forall|i: int|
            0 <= i < aegis_groups().len() ==> #[trigger] vault_item_uuid(
                aegis_document(tokens, group_ids, entry_ids),
                "groups"@,
                i,
            ) == Some(JsonV::Str(group_ids[i])),
        forall|i: int|
            0 <= i < tokens.len() ==> #[trigger] vault_item_uuid(
                aegis_document(tokens, group_ids, entry_ids),
                "entries"@,
                i,
            ) == Some(JsonV::Str(entry_ids[i])),
{
    reveal_strlit("version");
    reveal_strlit("header");
    reveal_strlit("db");
    reveal_strlit("entries");
    reveal_strlit("groups");
    reveal_strlit("uuid");
    reveal_strlit("type");
    reveal_with_fuel(member_lookup, 4);
    assert("version"@.len() != "db"@.len() && "header"@.len() != "db"@.len());
    assert("version"@[0] != "entries"@[0] && "version"@.len() != "groups"@.len());
    assert("entries"@.len() != "groups"@.len() && "type"@[0] != "uuid"@[0]);
    let doc = aegis_document(tokens, group_ids, entry_ids);
    let top = doc->Obj_0;
    assert(top.drop_first().drop_first() =~= top.subrange(2, 3));
    let db = top[2].1;
    assert(json_get(doc, "db"@) == Some(db));
    let dms = db->Obj_0;
    assert(dms.drop_first().drop_first() =~= dms.subrange(2, 4));
    assert(json_get(db, "entries"@) == Some(dms[1].1));
    assert(json_get(db, "groups"@) == Some(dms[2].1));
    assert forall|i: int| 0 <= i < aegis_groups().len() implies #[trigger] vault_item_uuid(
        doc,
        "groups"@,
        i,
    ) == Some(JsonV::Str(group_ids[i])) by {
        assert(json_at(dms[2].1, i) == Some(aegis_group(group_ids[i], aegis_groups()[i])));
    }
    assert forall|i: int| 0 <= i < tokens.len() implies #[trigger] vault_item_uuid(
        doc,
        "entries"@,
        i,
    ) == Some(JsonV::Str(entry_ids[i])) by {
        let e = aegis_entry(tokens[i], entry_ids[i], group_ids);
        assert(json_at(dms[1].1, i) == Some(e));
        assert(e->Obj_0.drop_first()[0].0 == "uuid"@);
    }
}

/// In every vault that the Aegis formatter writes, no two groups and no two
/// entries share an id, so an entry's group reference names one group.
pub proof fn lemma_aegis_ids_distinct(tokens: Seq<DecryptedToken>, text: Seq<char>)
    requires
        AegisFormatter.formats_as(tokens, text),
    ensures
        exists|group_ids: Seq<Seq<char>>, entry_ids: Seq<Seq<char>>|
            {
                let doc = aegis_document(tokens, group_ids, entry_ids);
                &&& text == #[trigger] aegis_text(tokens, group_ids, entry_ids)
                &&& forall|i: int, j: int|
                    0 <= i < j < aegis_groups().len() ==> #[trigger] vault_item_uuid(doc, "groups"@, i)
                        is Some && vault_item_uuid(doc, "groups"@, i) != #[trigger] vault_item_uuid(
                        doc,
                        "groups"@,
                        j,
                    )
                &&& forall|i: int, j: int|
                    0 <= i < j < tokens.len() ==> #[trigger] vault_item_uuid(doc, "entries"@, i) is Some
                        && vault_item_uuid(doc, "entries"@, i) != #[trigger] vault_item_uuid(
                        doc,
                        "entries"@,
                        j,
                    )
            },
{
    let (g, e) = choose|group_ids: Seq<Seq<char>>, entry_ids: Seq<Seq<char>>|
        {
            &&& group_ids.len() == aegis_groups().len()
            &&& entry_ids.len() == tokens.len()
            &&& forall|i: int| 0 <= i < group_ids.len() ==> is_uuid_v4_text(#[trigger] group_ids[i])
            &&& forall|i: int| 0 <= i < entry_ids.len() ==> is_uuid_v4_text(#[trigger] entry_ids[i])
            &&& forall|i: int, j: int|
                0 <= i < j < group_ids.len() ==> #[trigger] group_ids[i] != #[trigger] group_ids[j]
            &&& forall|i: int, j: int|
                0 <= i < j < entry_ids.len() ==> #[trigger] entry_ids[i] != #[trigger] entry_ids[j]
            &&& text == #[trigger] aegis_text(tokens, group_ids, entry_ids)
        };
    lemma_vault_item_uuids(tokens, g, e);
    let doc = aegis_document(tokens, g, e);
    assert forall|i: int, j: int| 0 <= i < j < aegis_groups().len() implies #[trigger] vault_item_uuid(
        doc,
        "groups"@,
        i,
    ) is Some && vault_item_uuid(doc, "groups"@, i) != #[trigger] vault_item_uuid(doc, "groups"@, j) by {
        assert(g[i] != g[j]);
    }
    assert forall|i: int, j: int| 0 <= i < j < tokens.len() implies #[trigger] vault_item_uuid(
        doc,
        "entries"@,
        i,
    ) is Some && vault_item_uuid(doc, "entries"@, i) != #[trigger] vault_item_uuid(doc, "entries"@, j) by {
        assert(e[i] != e[j]);
    }
    assert(text == aegis_text(tokens, g, e));
}

} // verus!
