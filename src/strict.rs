//! Keyed scans over a hash map that reject a key the map lacks, instead of
//! writing `undefined` for it.
use crate::emit::{joined, statements};
use crate::layout::{indent_text, laid_out, Indent, IndentUnit};
use crate::maps::MapToJavaScriptHTML;
use crate::script::{laid_out_text, pairs_rendered, script_text, Pair};
use crate::value::ScriptValue;
use std::collections::HashMap;
use std::hash::Hash;
use vstd::prelude::*;

verus! {

/// Why a strict keyed scan produced no script.
#[derive(Clone, Debug, PartialEq, Eq)]
pub enum ScriptError {
    /// The map lacks a requested key; its text is given.
    MissingKey(String),
    /// The indentation unit code is neither `0` (tab) nor `1` (space).
    UnknownIndentUnit(usize),
}

/// The indentation unit that `code` stands for: `0` for a tab, `1` for a
/// space.
pub open spec fn unit_of_code(code: usize) -> Option<IndentUnit> {
    if code == 0 {
        Some(IndentUnit::Tab)
    } else if code == 1 {
        Some(IndentUnit::Space)
    } else {
        None
    }
}

/// Whether `i` is the index of the first pair with no value.
pub open spec fn first_missing(ps: Seq<(Seq<char>, Option<Seq<char>>)>, i: int) -> bool {
    0 <= i < ps.len() && ps[i].1 is None && forall|j: int| 0 <= j < i ==> ps[j].1 is Some
}

/// Finds the first pair with no value.
fn find_missing(pairs: &Vec<Pair>) -> (r: Option<usize>)
    ensures
        match r {
            Some(i) => first_missing(pairs_rendered(pairs@), i as int),
            None => forall|j: int|
                0 <= j < pairs@.len() ==> (#[trigger] pairs_rendered(pairs@)[j]).1 is Some,
        },
{
    let mut i: usize = 0;
    while i < pairs.len()
        invariant
            i <= pairs@.len(),
            forall|j: int| 0 <= j < i ==> (#[trigger] pairs_rendered(pairs@)[j]).1 is Some,
        decreases pairs.len() - i,
    {
        if pairs[i].1.is_none() {
            return Some(i);
        }
        i = i + 1;
    }
    None
}

/// The minified script for the entries of `keys`, in their order, or the
/// first key that `map` lacks.
pub fn hash_map_to_javascript_html<K: ScriptValue + Eq + Hash, V: ScriptValue>(
    map: &HashMap<K, V>,
    variable_name: &str,
    keys: &[K],
) -> (r: Result<String, ScriptError>)
    ensures
        map.modelled() ==> ({
            let ps = keys@.map_values(|k: K| map.lookup(k));
            match r {
                Ok(s) => (forall|j: int| 0 <= j < ps.len() ==> (#[trigger] ps[j]).1 is Some)
                    && s@ == joined(statements(variable_name@, ps, false)),
                Err(e) => exists|i: int|
                    first_missing(ps, i) && e is MissingKey && e->MissingKey_0@ == keys@[i].text(),
            }
        }),
{
    let pairs = map.pairs_with_keys(keys);
    match find_missing(&pairs) {
        Some(i) => Err(ScriptError::MissingKey(keys[i].to_text())),
        None => Ok(script_text(variable_name, &pairs)),
    }
}

/// The script for the entries of `keys`, one statement per line, each line
/// starting with `indent_count` copies of the unit that `indent_unit` names
/// (`0` for a tab, `1` for a space); or why there is none.
pub fn hash_map_to_javascript_html_beautify<K: ScriptValue + Eq + Hash, V: ScriptValue>(
    map: &HashMap<K, V>,
    variable_name: &str,
    keys: &[K],
    indent_count: usize,
    indent_unit: usize,
) -> (r: Result<String, ScriptError>)
    ensures
        unit_of_code(indent_unit) is None ==> r == Err::<String, ScriptError>(
            ScriptError::UnknownIndentUnit(indent_unit),
        ),
        unit_of_code(indent_unit) is Some && map.modelled() ==> ({
            let ps = keys@.map_values(|k: K| map.lookup(k));
            let indent = Indent { unit: unit_of_code(indent_unit)->0, count: indent_count };
            match r {
                Ok(s) => (forall|j: int| 0 <= j < ps.len() ==> (#[trigger] ps[j]).1 is Some)
                    && s@ == laid_out(statements(variable_name@, ps, true), indent_text(indent)),
                Err(e) => exists|i: int|
                    first_missing(ps, i) && e is MissingKey && e->MissingKey_0@ == keys@[i].text(),
            }
        }),
{
    let unit = if indent_unit == 0 {
        IndentUnit::Tab
    } else if indent_unit == 1 {
        IndentUnit::Space
    } else {
        return Err(ScriptError::UnknownIndentUnit(indent_unit));
    };
    let pairs = map.pairs_with_keys(keys);
    match find_missing(&pairs) {
        Some(i) => Err(ScriptError::MissingKey(keys[i].to_text())),
        None => Ok(laid_out_text(variable_name, &pairs, Indent { unit, count: indent_count })),
    }
}

} // verus!
