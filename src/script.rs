//! Scripts built from (key, value) literal pairs: minified, laid out, or
//! streamed statement by statement into a byte sink.
use crate::emit::{joined, push_statement, rendered, starts_of, statements, Literal};
use crate::escape::{chars_of, string_of};
use crate::layout::{beautify, indent_text, laid_out, lemma_retrofit_lays_out, Indent};
use crate::sink::ByteSink;
use vstd::prelude::*;
use vstd::string::StringSliceAdditionalSpecFns;
use vstd::utf8::encode_utf8;

verus! {

/// A key with its value, or with no value when the key is absent.
pub type Pair = (Literal, Option<Literal>);

pub open spec fn pair_rendered(p: Pair) -> (Seq<char>, Option<Seq<char>>) {
    (
        rendered(p.0),
        match p.1 {
            Some(v) => Some(rendered(v)),
            None => None,
        },
    )
}

pub open spec fn pairs_rendered(ps: Seq<Pair>) -> Seq<(Seq<char>, Option<Seq<char>>)> {
    ps.map_values(|p: Pair| pair_rendered(p))
}

/// The UTF-8 bytes of the statements, encoded one after the other.
pub open spec fn streamed(stmts: Seq<Seq<char>>) -> Seq<u8>
    decreases stmts.len(),
{
    if stmts.len() == 0 {
        Seq::empty()
    } else {
        streamed(stmts.drop_last()) + encode_utf8(stmts.last())
    }
}

proof fn lemma_statements_push(name: Seq<char>, ps: Seq<Pair>, i: int, pretty: bool)
    requires
        0 <= i < ps.len(),
    ensures
        statements(name, pairs_rendered(ps.take(i + 1)), pretty) == statements(
            name,
            pairs_rendered(ps.take(i)),
            pretty,
        ).push(
            {
                let p = pair_rendered(ps[i]);
                crate::emit::statement(name, p.0, p.1, pretty)
            },
        ),
{
    assert(statements(name, pairs_rendered(ps.take(i + 1)), pretty) =~= statements(
        name,
        pairs_rendered(ps.take(i)),
        pretty,
    ).push(
        {
            let p = pair_rendered(ps[i]);
            crate::emit::statement(name, p.0, p.1, pretty)
        },
    ));
}

/// Emits one statement per pair, in order, recording where each starts.
pub fn emit_pairs(name: &Vec<char>, pairs: &Vec<Pair>, pretty: bool) -> (r: (
    Vec<char>,
    Vec<usize>,
))
    ensures
        r.0@ == joined(statements(name@, pairs_rendered(pairs@), pretty)),
        r.1@ == starts_of(statements(name@, pairs_rendered(pairs@), pretty)),
{
    let mut buf: Vec<char> = Vec::new();
    let mut starts: Vec<usize> = Vec::new();
    let mut i: usize = 0;
    assert(statements(name@, pairs_rendered(pairs@.take(0)), pretty) =~= Seq::empty());
    while i < pairs.len()
        invariant
            i <= pairs.len(),
            buf@ == joined(statements(name@, pairs_rendered(pairs@.take(i as int)), pretty)),
            starts@ == starts_of(statements(name@, pairs_rendered(pairs@.take(i as int)), pretty)),
        decreases pairs.len() - i,
    {
        let ghost before = statements(name@, pairs_rendered(pairs@.take(i as int)), pretty);
        let ghost old_len = buf@.len();
        let (k, v) = &pairs[i];
        let v_ref: Option<&Literal> = match v {
            Some(x) => Some(x),
            None => None,
        };
        push_statement(&mut buf, &mut starts, name, k, v_ref, pretty);
        proof {
            lemma_statements_push(name@, pairs@, i as int, pretty);
            let after = statements(name@, pairs_rendered(pairs@.take(i + 1)), pretty);
            assert(after.drop_last() == before);
            assert forall|j: int| 0 <= j < before.len() implies #[trigger] after.take(j)
                == before.take(j) by {
                assert(after.take(j) =~= before.take(j));
            }
            assert(after.take(before.len() as int) =~= before);
            assert(starts@ =~= starts_of(after));
        }
        i = i + 1;
    }
    assert(pairs@.take(pairs.len() as int) =~= pairs@);
    (buf, starts)
}

/// The minified script for `pairs`: `name[key]=value;` for each, in order.
pub fn script_text(name: &str, pairs: &Vec<Pair>) -> (r: String)
    ensures
        r@ == joined(statements(name@, pairs_rendered(pairs@), false)),
{
    let (buf, _starts) = emit_pairs(&chars_of(name), pairs, false);
    string_of(&buf)
}

/// The laid-out script for `pairs`: `name[key] = value;` for each, one per
/// line, each line starting with `indent`.
pub fn laid_out_text(name: &str, pairs: &Vec<Pair>, indent: Indent) -> (r: String)
    ensures
        r@ == laid_out(statements(name@, pairs_rendered(pairs@), true), indent_text(indent)),
{
    let (mut buf, starts) = emit_pairs(&chars_of(name), pairs, true);
    let ghost stmts = statements(name@, pairs_rendered(pairs@), true);
    let _len = buf.len();
    proof {
        assert forall|i: int| 0 <= i < starts.len() implies starts[i] <= buf@.len() by {
            crate::layout::lemma_joined_prefix_len(stmts, i);
        }
        lemma_retrofit_lays_out(stmts, indent_text(indent));
    }
    beautify(&mut buf, &starts, indent);
    string_of(&buf)
}

/// The bytes streamed for the first `i` statements are a prefix of those
/// streamed for all of them.
proof fn lemma_streamed_prefix(stmts: Seq<Seq<char>>, i: int)
    requires
        0 <= i <= stmts.len(),
    ensures
        streamed(stmts.take(i)).len() <= streamed(stmts).len(),
        streamed(stmts).take(streamed(stmts.take(i)).len() as int) == streamed(stmts.take(i)),
    decreases stmts.len(),
{
    if i == stmts.len() {
        assert(stmts.take(i) =~= stmts);
        assert(streamed(stmts).take(streamed(stmts).len() as int) =~= streamed(stmts));
    } else {
        let rest = stmts.drop_last();
        assert(stmts.take(i) =~= rest.take(i));
        lemma_streamed_prefix(rest, i);
        let p = streamed(rest.take(i));
        assert(streamed(stmts).take(p.len() as int) =~= streamed(rest).take(p.len() as int));
    }
}

/// Writes the minified script for `pairs` into `out`, one statement at a
/// time; the first failed write ends the scan and its error is returned.
/// Whatever the outcome, what was written is a first part of the script.
pub fn write_script<W: ByteSink>(name: &str, pairs: &Vec<Pair>, out: &mut W) -> (r: Result<
    (),
    std::io::Error,
>)
    ensures
        r is Ok ==> final(out).written() == old(out).written() + streamed(
            statements(name@, pairs_rendered(pairs@), false),
        ),
        exists|n: int|
            0 <= n <= streamed(statements(name@, pairs_rendered(pairs@), false)).len()
                && final(out).written() == old(out).written() + streamed(
                statements(name@, pairs_rendered(pairs@), false),
            ).take(n),
        old(out).infallible() ==> r is Ok,
        pairs@.len() == 0 ==> r is Ok && final(out).written() == old(out).written(),
{
    let ghost all = statements(name@, pairs_rendered(pairs@), false);
    let name_chars = chars_of(name);
    let mut i: usize = 0;
    assert(statements(name@, pairs_rendered(pairs@.take(0)), false) =~= Seq::empty());
    while i < pairs.len()
        invariant
            i <= pairs.len(),
            name_chars@ == name@,
            all == statements(name@, pairs_rendered(pairs@), false),
            old(out).infallible() ==> out.infallible(),
            out.written() == old(out).written() + streamed(
                statements(name@, pairs_rendered(pairs@.take(i as int)), false),
            ),
        decreases pairs.len() - i,
    {
        let mut buf: Vec<char> = Vec::new();
        let mut starts: Vec<usize> = Vec::new();
        let (k, v) = &pairs[i];
        let v_ref: Option<&Literal> = match v {
            Some(x) => Some(x),
            None => None,
        };
        push_statement(&mut buf, &mut starts, &name_chars, k, v_ref, false);
        let text = string_of(&buf);
        let ghost written_before = out.written();
        let res = out.write_all(text.as_str().as_bytes());
        proof {
            lemma_statements_push(name@, pairs@, i as int, false);
            let before = statements(name@, pairs_rendered(pairs@.take(i as int)), false);
            let after = statements(name@, pairs_rendered(pairs@.take(i + 1)), false);
            assert(after.drop_last() =~= before);
            assert(buf@ =~= after.last());
            assert(streamed(after) == streamed(before) + encode_utf8(after.last()));
            assert(after =~= all.take(i + 1));
            lemma_streamed_prefix(all, i + 1);
            let bytes = encode_utf8(after.last());
            let n = choose|n: int|
                0 <= n <= bytes.len() && out.written() == written_before + bytes.take(n);
            let lb = streamed(before).len() as int;
            assert(streamed(before) + bytes.take(n) =~= streamed(after).take(lb + n));
            assert(streamed(after).take(lb + n) =~= streamed(all).take(lb + n));
            assert(out.written() =~= old(out).written() + streamed(all).take(lb + n));
        }
        match res {
            Ok(()) => {},
            Err(e) => {
                return Err(e);
            },
        }
        i = i + 1;
    }
    assert(pairs@.take(pairs.len() as int) =~= pairs@);
    assert(streamed(all).take(streamed(all).len() as int) =~= streamed(all));
    Ok(())
}

/// The UTF-8 encoding of a concatenation is the concatenation of the
/// encodings.
pub proof fn lemma_encode_utf8_concat(a: Seq<char>, b: Seq<char>)
    ensures
        encode_utf8(a + b) == encode_utf8(a) + encode_utf8(b),
    decreases a.len(),
{
    if a.len() == 0 {
        assert(a + b =~= b);
    } else {
        assert((a + b).drop_first() =~= a.drop_first() + b);
        lemma_encode_utf8_concat(a.drop_first(), b);
    }
}

/// Streaming the statements one at a time writes the same bytes as
/// encoding the whole script at once.
pub proof fn lemma_streamed_is_encoded(stmts: Seq<Seq<char>>)
    ensures
        streamed(stmts) == encode_utf8(joined(stmts)),
    decreases stmts.len(),
{
    if stmts.len() > 0 {
        lemma_streamed_is_encoded(stmts.drop_last());
        lemma_encode_utf8_concat(joined(stmts.drop_last()), stmts.last());
    } else {
        assert(encode_utf8(Seq::<char>::empty()) == Seq::<u8>::empty());
    }
}

} // verus!
