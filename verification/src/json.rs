//! A JSON value model for the Jira payloads the library builds and reads.

use vstd::prelude::*;
use vstd::string::StringExecFns;

verus! {

/// A JSON value. Numbers are kept as their text; objects keep their entries
/// in order.
#[derive(Debug)]
pub enum JsonValue {
    Null,
    Bool(bool),
    Number(String),
    Str(String),
    Array(Vec<JsonValue>),
    Object(Vec<(String, JsonValue)>),
}

} // verus!

verus! {

/// Mathematical model of a JSON value.
pub enum JsonModel {
    Null,
    Bool(bool),
    Number(Seq<char>),
    Str(Seq<char>),
    Array(Seq<JsonModel>),
    Object(Seq<(Seq<char>, JsonModel)>),
}

impl JsonValue {
    pub open spec fn model(&self) -> JsonModel
        decreases self,
    {
        match self {
            JsonValue::Null => JsonModel::Null,
            JsonValue::Bool(b) => JsonModel::Bool(*b),
            JsonValue::Number(n) => JsonModel::Number(n@),
            JsonValue::Str(s) => JsonModel::Str(s@),
            JsonValue::Array(v) => JsonModel::Array(items_model(v@)),
            JsonValue::Object(v) => JsonModel::Object(entries_model(v@)),
        }
    }
}

pub open spec fn items_model(s: Seq<JsonValue>) -> Seq<JsonModel>
    decreases s,
{
    if s.len() == 0 {
        seq![]
    } else {
        seq![s[0].model()] + items_model(s.drop_first())
    }
}

pub open spec fn entries_model(s: Seq<(String, JsonValue)>) -> Seq<(Seq<char>, JsonModel)>
    decreases s,
{
    if s.len() == 0 {
        seq![]
    } else {
        seq![(s[0].0@, s[0].1.model())] + entries_model(s.drop_first())
    }
}

} // verus!

verus! {

/// Index of the first entry of an object with the given key, from `i` on.
pub open spec fn key_index_from(m: Seq<(Seq<char>, JsonModel)>, key: Seq<char>, i: int) -> Option<int>
    decreases m.len() - i,
{
    if i < 0 || i >= m.len() {
        None
    } else if m[i].0 == key {
        Some(i)
    } else {
        key_index_from(m, key, i + 1)
    }
}

/// Index of the entry that an object lookup of `key` finds.
pub open spec fn key_index(m: Seq<(Seq<char>, JsonModel)>, key: Seq<char>) -> Option<int> {
    key_index_from(m, key, 0)
}

pub proof fn lemma_key_index_from(m: Seq<(Seq<char>, JsonModel)>, key: Seq<char>, i: int)
    requires
        0 <= i,
    ensures
        match key_index_from(m, key, i) {
            Some(k) => i <= k < m.len() && m[k].0 == key && forall|j: int| i <= j < k ==> m[j].0 != key,
            None => forall|j: int| i <= j < m.len() ==> m[j].0 != key,
        },
    decreases m.len() - i,
{
    if i < m.len() && m[i].0 != key {
        lemma_key_index_from(m, key, i + 1);
    }
}

/// Value of `key` in a JSON object model.
pub open spec fn get(m: Seq<(Seq<char>, JsonModel)>, key: Seq<char>) -> Option<JsonModel> {
    match key_index(m, key) {
        Some(k) => Some(m[k].1),
        None => None,
    }
}

pub fn key_index_exec(m: &Vec<(String, JsonValue)>, key: &str) -> (r: Option<usize>)
    ensures
        match r {
            Some(k) => key_index(entries_model(m@), key@) == Some(k as int),
            None => key_index(entries_model(m@), key@) is None,
        },
{
    let mut i: usize = 0;
    proof {
        lemma_entries_model(m@);
    }
    let key_s = String::from_str(key);
    while i < m.len()
        invariant
            i <= m.len(),
            key_s@ == key@,
            entries_model(m@).len() == m@.len(),
            forall|j: int| 0 <= j < m@.len() ==> #[trigger] entries_model(m@)[j].0 == m@[j].0@,
            key_index(entries_model(m@), key@) == key_index_from(entries_model(m@), key@, i as int),
        decreases m.len() - i,
    {
        if m[i].0 == key_s {
            return Some(i);
        }
        i += 1;
    }
    None
}

pub proof fn lemma_entries_model(s: Seq<(String, JsonValue)>)
    ensures
        entries_model(s).len() == s.len(),
        forall|j: int| 0 <= j < s.len() ==> #[trigger] entries_model(s)[j] == (s[j].0@, s[j].1.model()),
    decreases s.len(),
{
    if s.len() > 0 {
        lemma_entries_model(s.drop_first());
        assert forall|j: int| 0 <= j < s.len() implies #[trigger] entries_model(s)[j] == (
            s[j].0@,
            s[j].1.model(),
        ) by {
            if j > 0 {
                assert(s.drop_first()[j - 1] == s[j]);
            }
        }
    }
}

pub proof fn lemma_items_model(s: Seq<JsonValue>)
    ensures
        items_model(s).len() == s.len(),
        forall|j: int| 0 <= j < s.len() ==> #[trigger] items_model(s)[j] == s[j].model(),
    decreases s.len(),
{
    if s.len() > 0 {
        lemma_items_model(s.drop_first());
        assert forall|j: int| 0 <= j < s.len() implies #[trigger] items_model(s)[j] == s[j].model() by {
            if j > 0 {
                assert(s.drop_first()[j - 1] == s[j]);
            }
        }
    }
}

} // verus!

verus! {

/// `out` with a separating space added unless it is empty or already ends
/// with a space or newline.
pub open spec fn with_separator(out: Seq<char>) -> Seq<char> {
    if out.len() > 0 && out.last() != ' ' && out.last() != '\n' {
        out.push(' ')
    } else {
        out
    }
}

/// The node's `type` is `paragraph` or `heading`.
pub open spec fn is_block(m: Seq<(Seq<char>, JsonModel)>) -> bool {
    match get(m, "type"@) {
        Some(JsonModel::Str(t)) => t == "paragraph"@ || t == "heading"@,
        _ => false,
    }
}

/// Text of an Atlassian Document Format node appended to `out`: its `text`
/// (space-separated from what precedes), then its `content` children, and a
/// line break after a paragraph or heading that has children.
pub open spec fn adf_walk(node: JsonModel, out: Seq<char>) -> Seq<char>
    decreases node, 0nat,
{
    match node {
        JsonModel::Object(m) => {
            let out1 = match key_index(m, "text"@) {
                Some(i) => {
                    proof {
                        lemma_key_index_from(m, "text"@, 0);
                    }
                    match m[i].1 {
                        JsonModel::Str(t) => with_separator(out) + t,
                        _ => out,
                    }
                },
                None => out,
            };
            match key_index(m, "content"@) {
                Some(j) => {
                    proof {
                        lemma_key_index_from(m, "content"@, 0);
                    }
                    match m[j].1 {
                        JsonModel::Array(children) => {
                            let out2 = adf_walk_items(children, out1);
                            if is_block(m) {
                                out2.push('\n')
                            } else {
                                out2
                            }
                        },
                        _ => out1,
                    }
                },
                None => out1,
            }
        },
        JsonModel::Array(items) => adf_walk_items(items, out),
        _ => out,
    }
}

pub open spec fn adf_walk_items(items: Seq<JsonModel>, out: Seq<char>) -> Seq<char>
    decreases items, 1nat,
{
    if items.len() == 0 {
        out
    } else {
        adf_walk_items(items.drop_first(), adf_walk(items[0], out))
    }
}

} // verus!

verus! {

fn str_equals(s: &String, lit: &str) -> (r: bool)
    ensures
        r == (s@ == lit@),
{
    let l = String::from_str(lit);
    *s == l
}

fn is_block_exec(m: &Vec<(String, JsonValue)>) -> (r: bool)
    ensures
        r == is_block(entries_model(m@)),
{
    proof {
        lemma_entries_model(m@);
        lemma_key_index_from(entries_model(m@), "type"@, 0);
    }
    match key_index_exec(m, "type") {
        Some(k) => match &m[k].1 {
            JsonValue::Str(t) => str_equals(t, "paragraph") || str_equals(t, "heading"),
            _ => false,
        },
        None => false,
    }
}

/// Append the text of an Atlassian Document Format node to `out`.
pub fn adf_walk_exec(node: &JsonValue, out: &mut Vec<char>)
    ensures
        final(out)@ == adf_walk(node.model(), old(out)@),
    decreases node, 0nat,
{
    match node {
        JsonValue::Object(m) => {
            proof {
                lemma_entries_model(m@);
                lemma_key_index_from(entries_model(m@), "text"@, 0);
                lemma_key_index_from(entries_model(m@), "content"@, 0);
            }
            match key_index_exec(m, "text") {
                Some(i) => match &m[i].1 {
                    JsonValue::Str(t) => {
                        if out.len() > 0 && out[out.len() - 1] != ' ' && out[out.len() - 1] != '\n' {
                            out.push(' ');
                        }
                        let tv = crate::text::chars_of(t.as_str());
                        let mut k: usize = 0;
                        let ghost base = out@;
                        while k < tv.len()
                            invariant
                                k <= tv.len(),
                                out@ == base + tv@.take(k as int),
                            decreases tv.len() - k,
                        {
                            out.push(tv[k]);
                            assert(out@ =~= base + tv@.take(k + 1));
                            k += 1;
                        }
                        assert(tv@.take(tv.len() as int) =~= tv@);
                    },
                    _ => {},
                },
                None => {},
            }
            match key_index_exec(m, "content") {
                Some(j) => match &m[j].1 {
                    JsonValue::Array(children) => {
                        adf_walk_items_exec(children, out);
                        if is_block_exec(m) {
                            out.push('\n');
                        }
                    },
                    _ => {},
                },
                None => {},
            }
        },
        JsonValue::Array(items) => {
            adf_walk_items_exec(items, out);
        },
        _ => {},
    }
}

pub fn adf_walk_items_exec(items: &Vec<JsonValue>, out: &mut Vec<char>)
    ensures
        final(out)@ == adf_walk_items(items_model(items@), old(out)@),
    decreases items, 1nat,
{
    proof {
        lemma_items_model(items@);
    }
    let mut k: usize = 0;
    assert(items_model(items@).skip(0) =~= items_model(items@));
    while k < items.len()
        invariant
            k <= items.len(),
            items_model(items@).len() == items@.len(),
            forall|j: int| 0 <= j < items@.len() ==> #[trigger] items_model(items@)[j] == items@[j].model(),
            adf_walk_items(items_model(items@), old(out)@) == adf_walk_items(
                items_model(items@).skip(k as int),
                out@,
            ),
        decreases items.len() - k,
    {
        let ghost before = out@;
        adf_walk_exec(&items[k], out);
        assert(items_model(items@).skip(k as int)[0] == items@[k as int].model());
        assert(items_model(items@).skip(k as int).drop_first() =~= items_model(items@).skip(k + 1));
        k += 1;
    }
}

} // verus!

verus! {

/// The object model of parsed entries, when there are any.
pub open spec fn parsed_model(parsed: Option<Vec<(String, JsonValue)>>) -> Option<Seq<(Seq<char>, JsonModel)>> {
    match parsed {
        Some(m) => Some(entries_model(m@)),
        None => None,
    }
}

#[verifier::external_type_specification]
#[verifier::external_body]
pub struct ExSerdeJsonValue(serde_json::Value);

/// What `serde_json::from_str` reads from a text as a JSON object: its
/// entries (in the order `serde_json::Map` iterates them, one per key) with
/// numbers as their text, or `None` when the text
/// is not one JSON object. The grammar and the number formatting take
/// pages to state, so the result is only named.
pub uninterp spec fn json_object_of(text: Seq<char>) -> Option<Seq<(Seq<char>, JsonModel)>>;

/// A `serde_json::Value` as a [`JsonValue`], one variant for another
/// (`serde_json::Number` by its `to_string`). Part of the parse below,
/// whose contract covers it.
#[verifier::external_body]
fn json_value_from(v: serde_json::Value) -> JsonValue {
    match v {
        serde_json::Value::Null => JsonValue::Null,
        serde_json::Value::Bool(b) => JsonValue::Bool(b),
        serde_json::Value::Number(n) => JsonValue::Number(n.to_string()),
        serde_json::Value::String(s) => JsonValue::Str(s),
        serde_json::Value::Array(a) => JsonValue::Array(a.into_iter().map(json_value_from).collect()),
        serde_json::Value::Object(m) => JsonValue::Object(m.into_iter().map(|(k, x)| (k, json_value_from(x))).collect()),
    }
}

/// Calls `serde_json::from_str` for a `serde_json::Map<String, Value>` and
/// converts the entries. The contract names the outcome: the entries read,
/// or `None` when the text does not parse as one object.
#[verifier::external_body]
pub(crate) fn parse_json_object(text: &str) -> (r: Option<Vec<(String, JsonValue)>>)
    ensures
        parsed_model(r) == json_object_of(text@),
{
    match serde_json::from_str::<serde_json::Map<String, serde_json::Value>>(text) {
        Ok(m) => Some(m.into_iter().map(|(k, v)| (k, json_value_from(v))).collect()),
        Err(_) => None,
    }
}

} // verus!
