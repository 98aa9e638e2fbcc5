//! Serialising a map to JavaScript statements for an HTML `<script>` block.
use crate::emit::{joined, rendered, statements};
use crate::layout::{indent_text, laid_out, Indent};
use crate::script::{
    laid_out_text, lemma_streamed_is_encoded, pair_rendered, pairs_rendered, script_text, streamed,
    write_script, Pair,
};
use crate::sink::ByteSink;
use crate::value::{literal_of, value_rendered, ScriptValue};
use std::collections::{BTreeMap, HashMap};
use std::hash::Hash;
use vstd::prelude::*;
use vstd::std_specs::btree::{into_iter, increasing_seq, key_obeys_cmp_spec, spec_btree_map_iter};
use vstd::std_specs::hash::{into_iter as hash_iter_entries, obeys_key_model, spec_hash_map_iter};
use vstd::std_specs::iter::IteratorSpec;
use vstd::string::{StrSliceExecFns, StringExecFns, StringSliceAdditionalSpecFns};
use vstd::utf8::encode_utf8;

verus! {

/// Appends `text` to `output` and returns the part appended.
fn appended<'a>(output: &'a mut String, text: &str) -> (r: &'a str)
    ensures
        final(output)@ == old(output)@ + text@,
        r@ == text@,
{
    let start = output.as_str().unicode_len();
    output.append(text);
    let end = output.as_str().unicode_len();
    let r = output.as_str().substring_char(start, end);
    assert(r@ =~= text@);
    r
}

/// A rendered key with its rendered value, or with no value when the key is
/// absent.
pub type RenderedPair = (Seq<char>, Option<Seq<char>>);

/// Serialising a map to minified JavaScript code in HTML.
///
/// Each entry becomes `name[key]=value;`. The variable name is written as
/// it is: it is never escaped, and the caller answers for it.
pub trait MapToJavaScriptHTML<K> {
    /// Whether `scan` and `lookup` describe this map: the key type obeys the
    /// laws that the container relies on (a total order, or a hash
    /// consistent with equality).
    spec fn modelled(&self) -> bool;

    /// The rendered pairs of a walk over every entry, in iteration order.
    spec fn scan(&self) -> Seq<RenderedPair>;

    /// The rendered pair for `key`, with no value when the map lacks it.
    spec fn lookup(&self, key: K) -> RenderedPair;

    /// How `key` is written, whether or not the map holds it.
    spec fn key_text(key: K) -> Seq<char>;

    /// The literal pairs of every entry, in iteration order.
    fn pairs(&self) -> (r: Vec<Pair>)
        ensures
            self.modelled() ==> pairs_rendered(r@) == self.scan(),
    ;

    /// The literal pairs for `keys`, in their order.
    fn pairs_with_keys(&self, keys: &[K]) -> (r: Vec<Pair>)
        ensures
            r@.len() == keys@.len(),
            forall|i: int|
                0 <= i < r@.len() ==> #[trigger] pairs_rendered(r@)[i].0 == Self::key_text(
                    keys@[i],
                ),
            self.modelled() ==> pairs_rendered(r@) == keys@.map_values(|k: K| self.lookup(k)),
    ;

    /// Converts this map to minified JavaScript code in HTML.
    fn to_javascript_html(&self, variable_name: &str) -> (r: String)
        ensures
            self.modelled() ==> r@ == joined(statements(variable_name@, self.scan(), false)),
    {
        script_text(variable_name, &self.pairs())
    }

    /// Appends the minified JavaScript code to `output` and returns the text
    /// written.
    fn to_javascript_html_to_string<'a>(&self, variable_name: &str, output: &'a mut String) -> (r:
        &'a str)
        ensures
            final(output)@ == old(output)@ + r@,
            self.modelled() ==> r@ == joined(statements(variable_name@, self.scan(), false)),
    {
        let s = self.to_javascript_html(variable_name);
        appended(output, s.as_str())
    }

    /// Appends the UTF-8 bytes of the minified JavaScript code to `output`
    /// and returns the bytes written.
    fn to_javascript_html_to_vec<'a>(&self, variable_name: &str, output: &'a mut Vec<u8>) -> (r:
        &'a [u8])
        ensures
            final(output)@ == old(output)@ + r@,
            self.modelled() ==> r@ == encode_utf8(
                joined(statements(variable_name@, self.scan(), false)),
            ),
    {
        let start = output.len();
        let s = self.to_javascript_html(variable_name);
        let _ = output.write_all(s.as_str().as_bytes());
        let r = vstd::slice::slice_subrange(output.as_slice(), start, output.len());
        assert(r@ =~= encode_utf8(s@));
        r
    }

    /// Writes the minified JavaScript code to `output`, one statement at a
    /// time; the first failed write ends the scan.
    fn to_javascript_html_to_writer<W: ByteSink>(&self, variable_name: &str, output: &mut W) -> (r:
        Result<(), std::io::Error>)
        ensures
            self.modelled() && r is Ok ==> final(output).written() == old(output).written()
                + streamed(statements(variable_name@, self.scan(), false)),
            self.modelled() ==> exists|n: int|
                0 <= n <= streamed(statements(variable_name@, self.scan(), false)).len()
                    && final(output).written() == old(output).written() + streamed(
                    statements(variable_name@, self.scan(), false),
                ).take(n),
            old(output).infallible() ==> r is Ok,
            self.modelled() && self.scan().len() == 0 ==> r is Ok && final(output).written()
                == old(output).written(),
    {
        write_script(variable_name, &self.pairs(), output)
    }

    /// Converts this map to JavaScript code laid out one statement per line,
    /// each line starting with `indent`.
    fn to_javascript_html_beautify(&self, variable_name: &str, indent: Indent) -> (r: String)
        ensures
            self.modelled() ==> r@ == laid_out(
                statements(variable_name@, self.scan(), true),
                indent_text(indent),
            ),
    {
        laid_out_text(variable_name, &self.pairs(), indent)
    }

    /// Appends the UTF-8 bytes of the laid-out JavaScript code to `output`
    /// and returns the bytes written.
    fn to_javascript_html_beautify_to_vec<'a>(
        &self,
        variable_name: &str,
        indent: Indent,
        output: &'a mut Vec<u8>,
    ) -> (r: &'a [u8])
        ensures
            final(output)@ == old(output)@ + r@,
            self.modelled() ==> r@ == encode_utf8(
                laid_out(statements(variable_name@, self.scan(), true), indent_text(indent)),
            ),
    {
        let start = output.len();
        let s = self.to_javascript_html_beautify(variable_name, indent);
        let _ = output.write_all(s.as_str().as_bytes());
        let r = vstd::slice::slice_subrange(output.as_slice(), start, output.len());
        assert(r@ =~= encode_utf8(s@));
        r
    }

    /// Writes the UTF-8 bytes of the laid-out JavaScript code to `output`.
    fn to_javascript_html_beautify_to_writer<W: ByteSink>(
        &self,
        variable_name: &str,
        indent: Indent,
        output: &mut W,
    ) -> (r: Result<(), std::io::Error>)
        ensures
            self.modelled() && r is Ok ==> final(output).written() == old(output).written()
                + encode_utf8(
                laid_out(statements(variable_name@, self.scan(), true), indent_text(indent)),
            ),
            self.modelled() ==> exists|n: int|
                0 <= n <= encode_utf8(
                    laid_out(statements(variable_name@, self.scan(), true), indent_text(indent)),
                ).len() && final(output).written() == old(output).written() + encode_utf8(
                    laid_out(statements(variable_name@, self.scan(), true), indent_text(indent)),
                ).take(n),
            old(output).infallible() ==> r is Ok,
    {
        let s = self.to_javascript_html_beautify(variable_name, indent);
        output.write_all(s.as_str().as_bytes())
    }

    /// Converts the entries of `keys`, in their order, to minified
    /// JavaScript code in HTML; a key the map lacks gets `undefined`.
    fn to_javascript_html_with_keys(&self, variable_name: &str, keys: &[K]) -> (r: String)
        ensures
            self.modelled() ==> r@ == joined(
                statements(variable_name@, keys@.map_values(|k: K| self.lookup(k)), false),
            ),
            exists|ps: Seq<RenderedPair>|
                ps.len() == keys@.len() && (forall|i: int|
                    0 <= i < ps.len() ==> #[trigger] ps[i].0 == Self::key_text(keys@[i])) && r@
                    == joined(#[trigger] statements(variable_name@, ps, false)),
    {
        let p = self.pairs_with_keys(keys);
        let r = script_text(variable_name, &p);
        assert(r@ == joined(statements(variable_name@, pairs_rendered(p@), false)));
        r
    }

    /// Appends the minified JavaScript code for `keys` to `output` and
    /// returns the text written.
    fn to_javascript_html_with_keys_to_string<'a>(
        &self,
        variable_name: &str,
        keys: &[K],
        output: &'a mut String,
    ) -> (r: &'a str)
        ensures
            final(output)@ == old(output)@ + r@,
            self.modelled() ==> r@ == joined(
                statements(variable_name@, keys@.map_values(|k: K| self.lookup(k)), false),
            ),
            exists|ps: Seq<RenderedPair>|
                ps.len() == keys@.len() && (forall|i: int|
                    0 <= i < ps.len() ==> #[trigger] ps[i].0 == Self::key_text(keys@[i])) && r@
                    == joined(#[trigger] statements(variable_name@, ps, false)),
    {
        let s = self.to_javascript_html_with_keys(variable_name, keys);
        appended(output, s.as_str())
    }

    /// Appends the UTF-8 bytes of the minified JavaScript code for `keys` to
    /// `output` and returns the bytes written.
    fn to_javascript_html_with_keys_to_vec<'a>(
        &self,
        variable_name: &str,
        keys: &[K],
        output: &'a mut Vec<u8>,
    ) -> (r: &'a [u8])
        ensures
            final(output)@ == old(output)@ + r@,
            self.modelled() ==> r@ == encode_utf8(
                joined(statements(variable_name@, keys@.map_values(|k: K| self.lookup(k)), false)),
            ),            exists|ps: Seq<RenderedPair>|
                ps.len() == keys@.len() && (forall|i: int|
                    0 <= i < ps.len() ==> #[trigger] ps[i].0 == Self::key_text(keys@[i])) && r@
                    == encode_utf8(joined(#[trigger] statements(variable_name@, ps, false))),
    {
        let start = output.len();
        let s = self.to_javascript_html_with_keys(variable_name, keys);
        let _ = output.write_all(s.as_str().as_bytes());
        let r = vstd::slice::slice_subrange(output.as_slice(), start, output.len());
        assert(r@ =~= encode_utf8(s@));
        r
    }

    /// Writes the minified JavaScript code for `keys` to `output`, one
    /// statement at a time; the first failed write ends the scan.
    fn to_javascript_html_with_keys_to_writer<W: ByteSink>(
        &self,
        variable_name: &str,
        keys: &[K],
        output: &mut W,
    ) -> (r: Result<(), std::io::Error>)
        ensures
            self.modelled() && r is Ok ==> final(output).written() == old(output).written()
                + streamed(
                statements(variable_name@, keys@.map_values(|k: K| self.lookup(k)), false),
            ),
            self.modelled() ==> ({
                let bytes = streamed(
                    statements(variable_name@, keys@.map_values(|k: K| self.lookup(k)), false),
                );
                exists|n: int|
                    0 <= n <= bytes.len() && final(output).written() == old(output).written()
                        + bytes.take(n)
            }),
            old(output).infallible() ==> r is Ok,
            keys@.len() == 0 ==> r is Ok && final(output).written() == old(output).written(),
    {
        write_script(variable_name, &self.pairs_with_keys(keys), output)
    }

    /// Converts the entries of `keys` to JavaScript code laid out one
    /// statement per line, each line starting with `indent`.
    fn to_javascript_html_with_keys_beautify(
        &self,
        variable_name: &str,
        keys: &[K],
        indent: Indent,
    ) -> (r: String)
        ensures
            self.modelled() ==> r@ == laid_out(
                statements(variable_name@, keys@.map_values(|k: K| self.lookup(k)), true),
                indent_text(indent),
            ),
            exists|ps: Seq<RenderedPair>|
                ps.len() == keys@.len() && (forall|i: int|
                    0 <= i < ps.len() ==> #[trigger] ps[i].0 == Self::key_text(keys@[i])) && r@
                    == laid_out(
                    #[trigger] statements(variable_name@, ps, true),
                    indent_text(indent),
                ),
    {
        let p = self.pairs_with_keys(keys);
        let r = laid_out_text(variable_name, &p, indent);
        assert(r@ == laid_out(
            statements(variable_name@, pairs_rendered(p@), true),
            indent_text(indent),
        ));
        r
    }
}

/// The bytes a map's script streams into a sink are the bytes its buffer
/// variant appends, for a full scan and for a keyed scan alike.
pub proof fn lemma_sink_equivalence<K, M: MapToJavaScriptHTML<K>>(
    m: &M,
    name: Seq<char>,
    keys: Seq<K>,
)
    ensures
        streamed(statements(name, m.scan(), false)) == encode_utf8(
            joined(statements(name, m.scan(), false)),
        ),
        streamed(statements(name, keys.map_values(|k: K| m.lookup(k)), false)) == encode_utf8(
            joined(statements(name, keys.map_values(|k: K| m.lookup(k)), false)),
        ),
{
    lemma_streamed_is_encoded(statements(name, m.scan(), false));
    lemma_streamed_is_encoded(statements(name, keys.map_values(|k: K| m.lookup(k)), false));
}

/// The next item of `it`, as the iterator's own contract gives it.
fn next_item<I: Iterator>(it: &mut I) -> (r: Option<I::Item>)
    ensures
        (*final(it)).obeys_prophetic_iter_laws() == (*old(it)).obeys_prophetic_iter_laws(),
        (*final(it)).obeys_prophetic_iter_laws() ==> if (*old(it)).remaining().len() > 0 {
            &&& (*final(it)).remaining() == (*old(it)).remaining().drop_first()
            &&& r == Some((*old(it)).remaining()[0])
        } else {
            r is None
        },
{
    it.next()
}

/// `es` lists every entry of `m`, each exactly once.
pub open spec fn lists_each_entry<K, V>(es: Seq<(K, V)>, m: Map<K, V>) -> bool {
    &&& es.len() == m.len()
    &&& forall|i: int|
        0 <= i < es.len() ==> m.contains_key(#[trigger] es[i].0) && m[es[i].0] == es[i].1
    &&& forall|i: int, j: int| 0 <= i < j < es.len() ==> #[trigger] es[i].0 != #[trigger] es[j].0
}

/// The entries of `m` in the order its iterator yields them: increasing key
/// order.
pub open spec fn btree_entries<K, V>(m: &BTreeMap<K, V>) -> Seq<(K, V)> {
    into_iter(spec_btree_map_iter(m))
}

/// An ordered map: entries are walked in increasing key order, keys and
/// values of numeric types are written bare.
impl<K: ScriptValue + Ord, V: ScriptValue> MapToJavaScriptHTML<K> for BTreeMap<K, V> {
    open spec fn modelled(&self) -> bool {
        key_obeys_cmp_spec::<K>()
    }

    open spec fn scan(&self) -> Seq<RenderedPair> {
        btree_entries(self).map_values(
            |kv: (K, V)| (value_rendered(&kv.0), Some(value_rendered(&kv.1))),
        )
    }

    open spec fn key_text(key: K) -> Seq<char> {
        value_rendered(&key)
    }

    open spec fn lookup(&self, key: K) -> RenderedPair {
        (
            value_rendered(&key),
            if self@.contains_key(key) {
                Some(value_rendered(&self@[key]))
            } else {
                None
            },
        )
    }

    fn pairs(&self) -> (r: Vec<Pair>)
        ensures
            key_obeys_cmp_spec::<K>() ==> lists_each_entry(btree_entries(self), self@),
            key_obeys_cmp_spec::<K>() ==> increasing_seq(
                btree_entries(self).map_values(|kv: (K, V)| kv.0),
            ),
    {
        broadcast use vstd::std_specs::btree::group_btree_axioms;

        let n = self.len();
        let mut it = self.iter();
        let ghost all = btree_entries(self);
        proof {
            if key_obeys_cmp_spec::<K>() {
                let v = spec_btree_map_iter(self).remaining();
                assert(all == v.unref());
                assert(all.map_values(|kv: (K, V)| kv.0) =~= v.map_values(
                    |kv: (&K, &V)| *kv.0,
                ));
                assert forall|i: int, j: int| 0 <= i < j < all.len() implies #[trigger] all[i].0
                    != #[trigger] all[j].0 by {
                    if all[i].0 == all[j].0 {
                        assert(self@.contains_key(*v[i].0));
                        assert(self@.contains_key(*v[j].0));
                        assert(v[i] == v[j]);
                    }
                }
                assert forall|i: int| 0 <= i < all.len() implies self@.contains_key(
                    #[trigger] all[i].0,
                ) && self@[all[i].0] == all[i].1 by {
                    assert(self@.contains_key(*v[i].0));
                }
            }
        }
        let mut r: Vec<Pair> = Vec::new();
        let mut i: usize = 0;
        while i < n
            invariant
                i <= n,
                all == btree_entries(self),
                key_obeys_cmp_spec::<K>() ==> {
                    &&& all.len() == n
                    &&& it.remaining().unref() == all.skip(i as int)
                    &&& pairs_rendered(r@) == all.take(i as int).map_values(
                        |kv: (K, V)| (value_rendered(&kv.0), Some(value_rendered(&kv.1))),
                    )
                },
            decreases n - i,
        {
            let ghost before = it.remaining();
            match next_item(&mut it) {
                Some(kv) => {
                    let (k, v) = kv;
                    let ghost old_r = r@;
                    r.push((literal_of(k), Some(literal_of(v))));
                    proof {
                        if key_obeys_cmp_spec::<K>() {
                            assert(before.unref() == all.skip(i as int));
                            assert(before.len() > 0);
                            assert(it.remaining() == before.drop_first());
                            assert(before.unref()[0] == all[i as int]);
                            assert(it.remaining().unref() =~= before.unref().drop_first());
                            assert(all.skip(i as int).drop_first() =~= all.skip(i + 1));
                            assert(pairs_rendered(r@) =~= pairs_rendered(old_r).push(
                                pair_rendered(r@.last()),
                            ));
                            assert(pair_rendered(r@.last()) == (
                                value_rendered(&all[i as int].0),
                                Some(value_rendered(&all[i as int].1)),
                            ));
                            assert(pairs_rendered(r@) =~= all.take(i + 1).map_values(
                                |kv: (K, V)| (value_rendered(&kv.0), Some(value_rendered(&kv.1))),
                            ));
                        }
                    }
                },
                None => {},
            }
            i = i + 1;
        }
        proof {
            if key_obeys_cmp_spec::<K>() {
                assert(all.take(n as int) =~= all);
            }
        }
        r
    }

    fn pairs_with_keys(&self, keys: &[K]) -> (r: Vec<Pair>) {
        broadcast use vstd::std_specs::btree::group_btree_axioms;

        let mut r: Vec<Pair> = Vec::new();
        let mut i: usize = 0;
        while i < keys.len()
            invariant
                i <= keys@.len(),
                r@.len() == i,
                forall|j: int|
                    0 <= j < i ==> #[trigger] rendered(r@[j].0) == value_rendered(&keys@[j]),
                key_obeys_cmp_spec::<K>() ==> pairs_rendered(r@) == keys@.take(i as int).map_values(
                    |k: K| self.lookup(k),
                ),
            decreases keys.len() - i,
        {
            let k = &keys[i];
            let value = match self.get(k) {
                Some(v) => Some(literal_of(v)),
                None => None,
            };
            let ghost old_r = r@;
            r.push((literal_of(k), value));
            proof {
                if key_obeys_cmp_spec::<K>() {
                    assert(pairs_rendered(r@) =~= pairs_rendered(old_r).push(
                        pair_rendered(r@.last()),
                    ));
                    assert(keys@.take(i + 1).map_values(|k: K| self.lookup(k)) =~= keys@.take(
                        i as int,
                    ).map_values(|k: K| self.lookup(k)).push(self.lookup(keys@[i as int])));
                }
            }
            i = i + 1;
        }
        assert(keys@.take(keys@.len() as int) =~= keys@);
        assert forall|j: int| 0 <= j < r@.len() implies #[trigger] pairs_rendered(r@)[j].0
            == Self::key_text(keys@[j]) by {
            assert(rendered(r@[j].0) == value_rendered(&keys@[j]));
        }
        r
    }
}

/// The entries of `m` in the order its iterator yields them.
pub open spec fn hash_entries<K, V>(m: &HashMap<K, V>) -> Seq<(K, V)> {
    hash_iter_entries(spec_hash_map_iter(m))
}

/// A hash map: entries are walked in the map's own order, which is
/// unspecified; keys and values of numeric types are written bare.
impl<K: ScriptValue + Eq + Hash, V: ScriptValue> MapToJavaScriptHTML<K> for HashMap<K, V> {
    open spec fn modelled(&self) -> bool {
        obeys_key_model::<K>()
    }

    open spec fn scan(&self) -> Seq<RenderedPair> {
        hash_entries(self).map_values(
            |kv: (K, V)| (value_rendered(&kv.0), Some(value_rendered(&kv.1))),
        )
    }

    open spec fn key_text(key: K) -> Seq<char> {
        value_rendered(&key)
    }

    open spec fn lookup(&self, key: K) -> RenderedPair {
        (
            value_rendered(&key),
            if self@.contains_key(key) {
                Some(value_rendered(&self@[key]))
            } else {
                None
            },
        )
    }

    fn pairs(&self) -> (r: Vec<Pair>)
        ensures
            obeys_key_model::<K>() ==> lists_each_entry(hash_entries(self), self@),
    {
        broadcast use vstd::std_specs::hash::group_hash_axioms;

        let n = self.len();
        let mut it = self.iter();
        let ghost all = hash_entries(self);
        proof {
            if obeys_key_model::<K>() {
                let v = spec_hash_map_iter(self).remaining();
                assert(all == v.unref());
                assert forall|i: int, j: int| 0 <= i < j < all.len() implies #[trigger] all[i].0
                    != #[trigger] all[j].0 by {
                    if all[i].0 == all[j].0 {
                        assert(self@.contains_key(*v[i].0));
                        assert(self@.contains_key(*v[j].0));
                        assert(v[i] == v[j]);
                    }
                }
                assert forall|i: int| 0 <= i < all.len() implies self@.contains_key(
                    #[trigger] all[i].0,
                ) && self@[all[i].0] == all[i].1 by {
                    assert(self@.contains_key(*v[i].0));
                }
            }
        }
        let mut r: Vec<Pair> = Vec::new();
        let mut i: usize = 0;
        while i < n
            invariant
                i <= n,
                all == hash_entries(self),
                obeys_key_model::<K>() ==> {
                    &&& all.len() == n
                    &&& it.remaining().unref() == all.skip(i as int)
                    &&& pairs_rendered(r@) == all.take(i as int).map_values(
                        |kv: (K, V)| (value_rendered(&kv.0), Some(value_rendered(&kv.1))),
                    )
                },
            decreases n - i,
        {
            let ghost before = it.remaining();
            match next_item(&mut it) {
                Some(kv) => {
                    let (k, v) = kv;
                    let ghost old_r = r@;
                    r.push((literal_of(k), Some(literal_of(v))));
                    proof {
                        if obeys_key_model::<K>() {
                            assert(before.unref() == all.skip(i as int));
                            assert(before.len() > 0);
                            assert(it.remaining() == before.drop_first());
                            assert(before.unref()[0] == all[i as int]);
                            assert(it.remaining().unref() =~= before.unref().drop_first());
                            assert(all.skip(i as int).drop_first() =~= all.skip(i + 1));
                            assert(pairs_rendered(r@) =~= pairs_rendered(old_r).push(
                                pair_rendered(r@.last()),
                            ));
                            assert(pair_rendered(r@.last()) == (
                                value_rendered(&all[i as int].0),
                                Some(value_rendered(&all[i as int].1)),
                            ));
                            assert(pairs_rendered(r@) =~= all.take(i + 1).map_values(
                                |kv: (K, V)| (value_rendered(&kv.0), Some(value_rendered(&kv.1))),
                            ));
                        }
                    }
                },
                None => {},
            }
            i = i + 1;
        }
        proof {
            if obeys_key_model::<K>() {
                assert(all.take(n as int) =~= all);
            }
        }
        r
    }

    fn pairs_with_keys(&self, keys: &[K]) -> (r: Vec<Pair>) {
        broadcast use vstd::std_specs::hash::group_hash_axioms;

        let mut r: Vec<Pair> = Vec::new();
        let mut i: usize = 0;
        while i < keys.len()
            invariant
                i <= keys@.len(),
                r@.len() == i,
                forall|j: int|
                    0 <= j < i ==> #[trigger] rendered(r@[j].0) == value_rendered(&keys@[j]),
                obeys_key_model::<K>() ==> pairs_rendered(r@) == keys@.take(i as int).map_values(
                    |k: K| self.lookup(k),
                ),
            decreases keys.len() - i,
        {
            let k = &keys[i];
            let value = match self.get(k) {
                Some(v) => Some(literal_of(v)),
                None => None,
            };
            let ghost old_r = r@;
            r.push((literal_of(k), value));
            proof {
                if obeys_key_model::<K>() {
                    assert(pairs_rendered(r@) =~= pairs_rendered(old_r).push(
                        pair_rendered(r@.last()),
                    ));
                    assert(keys@.take(i + 1).map_values(|k: K| self.lookup(k)) =~= keys@.take(
                        i as int,
                    ).map_values(|k: K| self.lookup(k)).push(self.lookup(keys@[i as int])));
                }
            }
            i = i + 1;
        }
        assert(keys@.take(keys@.len() as int) =~= keys@);
        assert forall|j: int| 0 <= j < r@.len() implies #[trigger] pairs_rendered(r@)[j].0
            == Self::key_text(keys@[j]) by {
            assert(rendered(r@[j].0) == value_rendered(&keys@[j]));
        }
        r
    }
}

} // verus!
