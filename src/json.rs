//! Maps of JSON values: strings are quoted and escaped, `null`, booleans and
//! numbers are written bare, arrays and objects as compact JSON text with
//! their closing script tags escaped.
use crate::emit::{rendered, Literal};
use crate::escape::{close_tags_escaped, text_escaped};
use crate::maps::{MapToJavaScriptHTML, RenderedPair};
use crate::script::{pairs_rendered, Pair};
use serde_json::Value;
use vstd::prelude::*;

verus! {

/// A JSON value as the emitter reads it.
#[derive(Clone, Debug, PartialEq, Eq)]
pub enum JsonValue {
    Null,
    Bool(bool),
    /// A number, as its JSON text.
    Number(String),
    Text(String),
    /// An array or an object, as its compact JSON text.
    Composite(String),
}

/// `serde_json::Value`, carried through opaquely inside a map.
#[verifier::external_type_specification]
#[verifier::external_body]
pub struct ExValue(serde_json::Value);

/// `serde_json::Map`, read through `json_map_entries` and `json_map_get`.
#[verifier::external_type_specification]
#[verifier::external_body]
#[verifier::reject_recursive_types(K)]
#[verifier::reject_recursive_types(V)]
pub struct ExJsonMap<K, V>(serde_json::Map<K, V>);

/// The keys of a JSON object map, in the order its iterator yields them.
pub uninterp spec fn json_map_keys(m: serde_json::Map<String, serde_json::Value>) -> Seq<
    Seq<char>,
>;

/// What a JSON object map holds: each key with its value, read as a
/// `JsonValue` (a number, an array or an object as its `Display` text).
pub uninterp spec fn json_map_values(m: serde_json::Map<String, serde_json::Value>) -> Map<
    Seq<char>,
    JsonValue,
>;

/// Relies on `serde_json::Map::iter`: it yields every entry once, with the
/// keys in the map's own order; each value is read by its variant, a number,
/// an array or an object through `Display`.
#[verifier::external_body]
fn json_map_entries(m: &serde_json::Map<String, Value>) -> (r: Vec<(String, JsonValue)>)
    ensures
        r@.map_values(|e: (String, JsonValue)| e.0@) == json_map_keys(*m),
        forall|i: int|
            0 <= i < r@.len() ==> json_map_values(*m).contains_key(#[trigger] r@[i].0@)
                && json_map_values(*m)[r@[i].0@] == r@[i].1,
{
    m.iter().map(|(k, v)| (k.clone(), match v {
        Value::Null => JsonValue::Null,
        Value::Bool(b) => JsonValue::Bool(*b),
        Value::Number(n) => JsonValue::Number(n.to_string()),
        Value::String(t) => JsonValue::Text(t.clone()),
        Value::Array(_) | Value::Object(_) => JsonValue::Composite(v.to_string()),
    })).collect()
}

/// Relies on `serde_json::Map::get`: it finds the value of `key` exactly
/// when the map holds that key; the value is read as by `json_map_entries`.
#[verifier::external_body]
fn json_map_get(m: &serde_json::Map<String, Value>, key: &str) -> (r: Option<JsonValue>)
    ensures
        r == if json_map_values(*m).contains_key(key@) {
            Some(json_map_values(*m)[key@])
        } else {
            None::<JsonValue>
        },
{
    m.get(key).map(|v| match v {
        Value::Null => JsonValue::Null,
        Value::Bool(b) => JsonValue::Bool(*b),
        Value::Number(n) => JsonValue::Number(n.to_string()),
        Value::String(t) => JsonValue::Text(t.clone()),
        Value::Array(_) | Value::Object(_) => JsonValue::Composite(v.to_string()),
    })
}

/// How a JSON value is written into a statement.
pub open spec fn json_rendered(v: JsonValue) -> Seq<char> {
    match v {
        JsonValue::Null => seq!['n', 'u', 'l', 'l'],
        JsonValue::Bool(b) => if b {
            seq!['t', 'r', 'u', 'e']
        } else {
            seq!['f', 'a', 'l', 's', 'e']
        },
        JsonValue::Number(s) => s@,
        JsonValue::Text(s) => seq!['\''] + text_escaped(s@) + seq!['\''],
        JsonValue::Composite(s) => close_tags_escaped(s@),
    }
}

/// The literal for a JSON value.
pub fn json_literal(v: &JsonValue) -> (r: Literal)
    ensures
        rendered(r) == json_rendered(*v),
{
    match v {
        JsonValue::Null => {
            let r = Literal::Bare(String::from_str("null"));
            proof {
                reveal_strlit("null");
            }
            r
        },
        JsonValue::Bool(b) => {
            if *b {
                let r = Literal::Bare(String::from_str("true"));
                proof {
                    reveal_strlit("true");
                }
                r
            } else {
                let r = Literal::Bare(String::from_str("false"));
                proof {
                    reveal_strlit("false");
                }
                r
            }
        },
        JsonValue::Number(s) => Literal::Bare(s.clone()),
        JsonValue::Text(s) => Literal::Text(s.clone()),
        JsonValue::Composite(s) => Literal::Script(s.clone()),
    }
}

/// The quoted, escaped rendering of a key.
pub open spec fn key_rendered(k: Seq<char>) -> Seq<char> {
    seq!['\''] + text_escaped(k) + seq!['\'']
}

/// A JSON object map: entries are walked in the map's key order; keys are
/// quoted text, values are written as `json_rendered` says.
impl<'a> MapToJavaScriptHTML<&'a str> for serde_json::Map<String, Value> {
    open spec fn modelled(&self) -> bool {
        true
    }

    open spec fn scan(&self) -> Seq<RenderedPair> {
        json_map_keys(*self).map_values(
            |k: Seq<char>| (key_rendered(k), Some(json_rendered(json_map_values(*self)[k]))),
        )
    }

    open spec fn key_text(key: &'a str) -> Seq<char> {
        key_rendered(key@)
    }

    open spec fn lookup(&self, key: &'a str) -> RenderedPair {
        (
            key_rendered(key@),
            if json_map_values(*self).contains_key(key@) {
                Some(json_rendered(json_map_values(*self)[key@]))
            } else {
                None
            },
        )
    }

    fn pairs(&self) -> (r: Vec<Pair>) {
        let entries = json_map_entries(self);
        let ghost keys = json_map_keys(*self);
        let mut r: Vec<Pair> = Vec::new();
        let mut i: usize = 0;
        while i < entries.len()
            invariant
                i <= entries@.len(),
                keys == json_map_keys(*self),
                entries@.map_values(|e: (String, JsonValue)| e.0@) == keys,
                forall|j: int|
                    0 <= j < entries@.len() ==> json_map_values(*self).contains_key(
                        #[trigger] entries@[j].0@,
                    ) && json_map_values(*self)[entries@[j].0@] == entries@[j].1,
                pairs_rendered(r@) == self.scan().take(i as int),
            decreases entries.len() - i,
        {
            let (k, v) = &entries[i];
            let ghost old_r = r@;
            r.push((Literal::Text(k.clone()), Some(json_literal(v))));
            proof {
                assert(entries@.map_values(|e: (String, JsonValue)| e.0@)[i as int] == k@);
                assert(json_map_values(*self)[entries@[i as int].0@] == entries@[i as int].1);
                assert(pairs_rendered(r@) =~= pairs_rendered(old_r).push(
                    crate::script::pair_rendered(r@.last()),
                ));
                assert(self.scan().take(i + 1) =~= self.scan().take(i as int).push(
                    self.scan()[i as int],
                ));
            }
            i = i + 1;
        }
        assert(self.scan().take(entries@.len() as int) =~= self.scan());
        r
    }

    fn pairs_with_keys(&self, keys: &[&'a str]) -> (r: Vec<Pair>) {
        let mut r: Vec<Pair> = Vec::new();
        let mut i: usize = 0;
        while i < keys.len()
            invariant
                i <= keys@.len(),
                r@.len() == i,
                pairs_rendered(r@) == keys@.take(i as int).map_values(
                    |k: &'a str| self.lookup(k),
                ),
            decreases keys.len() - i,
        {
            let k: &str = keys[i];
            let value = match json_map_get(self, k) {
                Some(v) => Some(json_literal(&v)),
                None => None,
            };
            let ghost old_r = r@;
            r.push((Literal::Text(k.to_owned()), value));
            proof {
                assert(pairs_rendered(r@) =~= pairs_rendered(old_r).push(
                    crate::script::pair_rendered(r@.last()),
                ));
                assert(keys@.take(i + 1).map_values(|k: &'a str| self.lookup(k)) =~= keys@.take(
                    i as int,
                ).map_values(|k: &'a str| self.lookup(k)).push(self.lookup(keys@[i as int])));
            }
            i = i + 1;
        }
        assert(keys@.take(keys@.len() as int) =~= keys@);
        assert forall|j: int| 0 <= j < r@.len() implies #[trigger] pairs_rendered(r@)[j].0
            == Self::key_text(keys@[j]) by {
            assert(pairs_rendered(r@)[j] == keys@.map_values(|k: &'a str| self.lookup(k))[j]);
        }
        r
    }
}

} // verus!
