use vstd::prelude::*;

use crate::primitives::{
    json_node, json_parsed, json_quote, json_string_literal, node_holds, parse_value, push_char,
    value_contents, JsonNode,
};
use crate::text::{push_decimal_i64, signed_decimal};


verus! {

/// A JSON value as a mathematical object.
pub enum JsonV {
    Null,
    Bool(bool),
    Int(int),
    /// A number that is not an `i64`, by the text that `serde_json` shows for it.
    Num(Seq<char>),
    Str(Seq<char>),
    Arr(Seq<JsonV>),
    Obj(Seq<(Seq<char>, JsonV)>),
}

/// A JSON value in memory; object members keep their order.
pub enum Json {
    Null,
    Bool(bool),
    Int(i64),
    Num(String),
    Str(String),
    Arr(Vec<Json>),
    Obj(Vec<(String, Json)>),
}

pub open spec fn json_view(j: Json) -> JsonV
    decreases j,
{
    match j {
        Json::Null => JsonV::Null,
        Json::Bool(b) => JsonV::Bool(b),
        Json::Int(n) => JsonV::Int(n as int),
        Json::Num(t) => JsonV::Num(t@),
        Json::Str(s) => JsonV::Str(s@),
        Json::Arr(v) => JsonV::Arr(json_seq_view(v@)),
        Json::Obj(f) => JsonV::Obj(json_fields_view(f@)),
    }
}

pub open spec fn json_seq_view(s: Seq<Json>) -> Seq<JsonV>
    decreases s,
{
    if s.len() == 0 {
        Seq::empty()
    } else {
        json_seq_view(s.drop_last()).push(json_view(s.last()))
    }
}

pub open spec fn json_fields_view(s: Seq<(String, Json)>) -> Seq<(Seq<char>, JsonV)>
    decreases s,
{
    if s.len() == 0 {
        Seq::empty()
    } else {
        json_fields_view(s.drop_last()).push((s.last().0@, json_view(s.last().1)))
    }
}

/// The view of a sequence of values has one view per value, in order.
pub proof fn lemma_seq_view(s: Seq<Json>)
    ensures
        json_seq_view(s).len() == s.len(),
        forall|k: int| 0 <= k < s.len() ==> #[trigger] json_seq_view(s)[k] == json_view(s[k]),
    decreases s.len(),
{
    if s.len() > 0 {
        lemma_seq_view(s.drop_last());
    }
}

/// The view of a sequence of members has one member view per member, in order.
pub proof fn lemma_fields_view(s: Seq<(String, Json)>)
    ensures
        json_fields_view(s).len() == s.len(),
        forall|k: int|
            0 <= k < s.len() ==> #[trigger] json_fields_view(s)[k] == (s[k].0@, json_view(s[k].1)),
    decreases s.len(),
{
    if s.len() > 0 {
        lemma_fields_view(s.drop_last());
    }
}

impl View for Json {
    type V = JsonV;

    open spec fn view(&self) -> JsonV {
        json_view(*self)
    }
}

/// The text that `serde_json`'s pretty printer writes for `j`, where `cur` is the
/// indentation of the line on which `j` starts and `ind` is one indentation step.
pub open spec fn render(j: JsonV, cur: Seq<char>, ind: Seq<char>) -> Seq<char>
    decreases j,
{
    match j {
        JsonV::Null => seq!['n', 'u', 'l', 'l'],
        JsonV::Bool(b) => if b {
            seq!['t', 'r', 'u', 'e']
        } else {
            seq!['f', 'a', 'l', 's', 'e']
        },
        JsonV::Int(n) => signed_decimal(n),
        JsonV::Num(t) => t,
        JsonV::Str(s) => json_string_literal(s),
        JsonV::Arr(items) => if items.len() == 0 {
            seq!['[', ']']
        } else {
            seq!['['] + render_items(items, cur + ind, ind) + seq!['\n'] + cur + seq![']']
        },
        JsonV::Obj(members) => if members.len() == 0 {
            seq!['{', '}']
        } else {
            seq!['{'] + render_members(members, cur + ind, ind) + seq!['\n'] + cur + seq!['}']
        },
    }
}

/// The separator written before the element at position `i` of a container.
pub open spec fn element_lead(i: int, cur: Seq<char>) -> Seq<char> {
    if i == 0 {
        seq!['\n'] + cur
    } else {
        seq![',', '\n'] + cur
    }
}

/// The elements of a non-empty array, each on a line of its own at indentation `cur`.
pub open spec fn render_items(items: Seq<JsonV>, cur: Seq<char>, ind: Seq<char>) -> Seq<char>
    decreases items,
{
    if items.len() == 0 {
        Seq::empty()
    } else {
        render_items(items.drop_last(), cur, ind) + element_lead(items.len() - 1, cur) + render(
            items.last(),
            cur,
            ind,
        )
    }
}

/// The members of a non-empty object, each `"key": value` on a line of its own.
pub open spec fn render_members(
    members: Seq<(Seq<char>, JsonV)>,
    cur: Seq<char>,
    ind: Seq<char>,
) -> Seq<char>
    decreases members,
{
    if members.len() == 0 {
        Seq::empty()
    } else {
        render_members(members.drop_last(), cur, ind) + element_lead(members.len() - 1, cur)
            + json_string_literal(members.last().0) + seq![':', ' '] + render(
            members.last().1,
            cur,
            ind,
        )
    }
}

/// Appends a string slice to `out`.
pub fn push_str(out: &mut String, s: &str)
    ensures
        final(out)@ == old(out)@ + s@,
{
    out.append(s);
}

/// Appends the pretty-printed text of `j` to `out`.
pub fn write_json(j: &Json, cur: &String, ind: &str, out: &mut String)
    ensures
        final(out)@ == old(out)@ + render(j@, cur@, ind@),
    decreases j,
{
    match j {
        Json::Null => {
            push_str(out, "null");
            proof { reveal_strlit("null"); }
        },
        Json::Bool(b) => {
            if *b {
                push_str(out, "true");
                proof { reveal_strlit("true"); }
            } else {
                push_str(out, "false");
                proof { reveal_strlit("false"); }
            }
        },
        Json::Int(n) => {
            push_decimal_i64(out, *n);
        },
        Json::Num(t) => {
            push_str(out, t.as_str());
        },
        Json::Str(s) => {
            let q = json_quote(s.as_str());
            push_str(out, q.as_str());
        },
        Json::Arr(items) => {
            if items.len() == 0 {
                push_char(out, '[');
                push_char(out, ']');
            } else {
                let ghost start = out@;
                let mut child = cur.clone();
                push_str(&mut child, ind);
                push_char(out, '[');
                let n = items.len();
                let mut i: usize = 0;
                while i < n
                    invariant
                        n == items@.len(),
                        *j == Json::Arr(*items),
                        0 <= i <= n,
                        child@ == cur@ + ind@,
                        out@ == start + seq!['['] + render_items(
                            json_seq_view(items@.take(i as int)),
                            child@,
                            ind@,
                        ),
                    decreases n - i,
                {
                    let ghost before = out@;
                    if i > 0 {
                        push_char(out, ',');
                    }
                    push_char(out, '\n');
                    push_str(out, child.as_str());
                    proof {
                        assert(decreases_to!(*j => (*j)->Arr_0));
                        assert(decreases_to!(*items => items@));
                        assert(decreases_to!(items@ => items@[i as int]));
                    }
                    write_json(&items[i], &child, ind, out);
                    proof {
                        assert(items@.take(i + 1).drop_last() =~= items@.take(i as int));
                        let vs = json_seq_view(items@.take(i + 1));
                        assert(vs.drop_last() =~= json_seq_view(items@.take(i as int)));
                        lemma_seq_view(items@.take(i + 1));
                        assert(vs.len() == i + 1);
                        assert(out@ =~= before + element_lead(i as int, child@) + render(
                            vs.last(),
                            child@,
                            ind@,
                        ));
                    }
                    i = i + 1;
                }
                push_char(out, '\n');
                push_str(out, cur.as_str());
                push_char(out, ']');
                proof {
                    assert(items@.take(n as int) =~= items@);
                }
            }
        },
        Json::Obj(members) => {
            if members.len() == 0 {
                push_char(out, '{');
                push_char(out, '}');
            } else {
                let ghost start = out@;
                let mut child = cur.clone();
                push_str(&mut child, ind);
                push_char(out, '{');
                let n = members.len();
                let mut i: usize = 0;
                while i < n
                    invariant
                        n == members@.len(),
                        *j == Json::Obj(*members),
                        0 <= i <= n,
                        child@ == cur@ + ind@,
                        out@ == start + seq!['{'] + render_members(
                            json_fields_view(members@.take(i as int)),
                            child@,
                            ind@,
                        ),
                    decreases n - i,
                {
                    let ghost before = out@;
                    if i > 0 {
                        push_char(out, ',');
                    }
                    push_char(out, '\n');
                    push_str(out, child.as_str());
                    let key = json_quote(members[i].0.as_str());
                    push_str(out, key.as_str());
                    push_char(out, ':');
                    push_char(out, ' ');
                    proof {
                        assert(decreases_to!(*j => (*j)->Obj_0));
                        assert(decreases_to!(*members => members@));
                        assert(decreases_to!(members@ => members@[i as int]));
                        assert(decreases_to!(members@[i as int] => members@[i as int].1));
                    }
                    write_json(&members[i].1, &child, ind, out);
                    proof {
                        assert(members@.take(i + 1).drop_last() =~= members@.take(i as int));
                        let vs = json_fields_view(members@.take(i + 1));
                        assert(vs.drop_last() =~= json_fields_view(members@.take(i as int)));
                        lemma_fields_view(members@.take(i + 1));
                        assert(vs.len() == i + 1);
                        assert(out@ =~= before + element_lead(i as int, child@) + json_string_literal(
                            vs.last().0,
                        ) + seq![':', ' '] + render(vs.last().1, child@, ind@));
                    }
                    i = i + 1;
                }
                push_char(out, '\n');
                push_str(out, cur.as_str());
                push_char(out, '}');
                proof {
                    assert(members@.take(n as int) =~= members@);
                }
            }
        },
    }
}

/// The pretty-printed text of `j` with `ind` as the indentation step, as
/// `serde_json`'s `PrettyFormatter::with_indent(ind)` writes it.
pub fn to_string_pretty_indent(j: &Json, ind: &str) -> (res: String)
    ensures
        res@ == render(j@, Seq::empty(), ind@),
{
    let mut out = String::new();
    let cur = String::new();
    write_json(j, &cur, ind, &mut out);
    assert(out@ =~= render(j@, Seq::empty(), ind@));
    out
}

/// A JSON string holding the characters of an optional string, or `null`.
pub open spec fn opt_json(o: Option<String>) -> JsonV {
    match o {
        Some(s) => JsonV::Str(s@),
        None => JsonV::Null,
    }
}

/// The JSON value of an optional string.
pub fn opt_to_json(o: &Option<String>) -> (j: Json)
    ensures
        j@ == opt_json(*o),
{
    match o {
        Some(s) => Json::Str(s.clone()),
        None => Json::Null,
    }
}

/// A JSON string holding the characters of `s`.
pub fn str_json(s: &str) -> (j: Json)
    ensures
        j@ == JsonV::Str(s@),
{
    Json::Str(s.to_owned())
}

/// An object member with key `key`.
pub fn member(key: &str, value: Json) -> (m: (String, Json))
    ensures
        m.0@ == key@,
        m.1 == value,
{
    (key.to_owned(), value)
}


/// The `Json` of what a `serde_json::Value` holds.
pub fn json_from_value(v: &serde_json::Value) -> (j: Json)
    ensures
        j@ == value_contents(*v),
    decreases value_contents(*v),
{
    let ghost c = value_contents(*v);
    match json_node(v) {
        JsonNode::Null => Json::Null,
        JsonNode::Bool(b) => Json::Bool(b),
        JsonNode::Number(Some(i), _) => Json::Int(i),
        JsonNode::Number(None, t) => Json::Num(t),
        JsonNode::Str(t) => Json::Str(t),
        JsonNode::Array(items) => {
            let ghost cs = c->Arr_0;
            let mut out: Vec<Json> = Vec::new();
            let n = items.len();
            let mut i: usize = 0;
            while i < n
                invariant
                    n == items@.len(),
                    c == JsonV::Arr(cs),
                    c == value_contents(*v),
                    cs.len() == n,
                    forall|k: int| 0 <= k < n ==> value_contents(#[trigger] items@[k]) == cs[k],
                    i <= n,
                    out@.len() == i,
                    forall|k: int| 0 <= k < i ==> json_view(#[trigger] out@[k]) == cs[k],
                decreases n - i,
            {
                proof {
                    assert(decreases_to!(c => c->Arr_0));
                    assert(decreases_to!(cs => cs[i as int]));
                    assert(value_contents(items@[i as int]) == cs[i as int]);
                }
                let x = json_from_value(&items[i]);
                out.push(x);
                i = i + 1;
            }
            proof {
                lemma_seq_view(out@);
                assert(json_seq_view(out@) =~= cs);
            }
            Json::Arr(out)
        },
        JsonNode::Object(ms) => {
            let ghost cms = c->Obj_0;
            let mut out: Vec<(String, Json)> = Vec::new();
            let n = ms.len();
            let mut i: usize = 0;
            while i < n
                invariant
                    n == ms@.len(),
                    c == JsonV::Obj(cms),
                    c == value_contents(*v),
                    cms.len() == n,
                    forall|k: int|
                        0 <= k < n ==> (#[trigger] ms@[k]).0@ == cms[k].0 && value_contents(ms@[k].1)
                            == cms[k].1,
                    i <= n,
                    out@.len() == i,
                    forall|k: int|
                        0 <= k < i ==> (#[trigger] out@[k]).0@ == cms[k].0 && json_view(out@[k].1)
                            == cms[k].1,
                decreases n - i,
            {
                proof {
                    assert(decreases_to!(c => c->Obj_0));
                    assert(decreases_to!(cms => cms[i as int]));
                    assert(decreases_to!(cms[i as int] => cms[i as int].1));
                    assert(ms@[i as int].0@ == cms[i as int].0);
                }
                let key = ms[i].0.clone();
                let x = json_from_value(&ms[i].1);
                out.push((key, x));
                i = i + 1;
            }
            proof {
                lemma_fields_view(out@);
                assert(json_fields_view(out@) =~= cms);
            }
            Json::Obj(out)
        },
    }
}

/// Parses JSON text with `serde_json`: the value it holds, or `None` where the
/// text is not JSON.
pub fn parse_json_value(text: &str) -> (res: Option<Json>)
    ensures
        match res {
            Some(j) => json_parsed(text@) == Some(j@),
            None => json_parsed(text@) is None,
        },
{
    match parse_value(text) {
        Some(v) => Some(json_from_value(&v)),
        None => None,
    }
}


/// The value of the first member of `ms` with key `key`.
pub open spec fn member_lookup(ms: Seq<(Seq<char>, JsonV)>, key: Seq<char>) -> Option<JsonV>
    decreases ms.len(),
{
    if ms.len() == 0 {
        None
    } else if ms[0].0 == key {
        Some(ms[0].1)
    } else {
        member_lookup(ms.drop_first(), key)
    }
}

/// The member `key` of an object, if `v` is an object that has one.
pub open spec fn json_get(v: JsonV, key: Seq<char>) -> Option<JsonV> {
    match v {
        JsonV::Obj(ms) => member_lookup(ms, key),
        _ => None,
    }
}

/// The item at position `i` of an array, if `v` is an array that has one.
pub open spec fn json_at(v: JsonV, i: int) -> Option<JsonV> {
    match v {
        JsonV::Arr(items) => if 0 <= i < items.len() {
            Some(items[i])
        } else {
            None
        },
        _ => None,
    }
}

} // verus!
