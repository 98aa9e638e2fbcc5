//! The layout pass: one statement per line, each line indented.
use crate::emit::{joined, push_all, starts_of};
use vstd::prelude::*;

verus! {

/// The character an indentation is made of.
#[derive(Clone, Copy, Debug, PartialEq, Eq)]
pub enum IndentUnit {
    Space,
    Tab,
}

/// An indentation: `count` copies of `unit`.
#[derive(Clone, Copy, Debug, PartialEq, Eq)]
pub struct Indent {
    pub unit: IndentUnit,
    pub count: usize,
}

pub open spec fn unit_char(unit: IndentUnit) -> char {
    match unit {
        IndentUnit::Space => ' ',
        IndentUnit::Tab => '\t',
    }
}

/// The characters of an indentation.
pub open spec fn indent_text(indent: Indent) -> Seq<char> {
    Seq::new(indent.count as nat, |i: int| unit_char(indent.unit))
}

/// What goes before statement `i`: the indentation, after a newline for
/// every statement but the first.
pub open spec fn separator(i: int, indent: Seq<char>) -> Seq<char> {
    if i == 0 {
        indent
    } else {
        seq!['\n'] + indent
    }
}

/// The statements one per line, each line starting with `indent`, with no
/// newline after the last.
pub open spec fn laid_out(stmts: Seq<Seq<char>>, indent: Seq<char>) -> Seq<char>
    decreases stmts.len(),
{
    if stmts.len() == 0 {
        Seq::empty()
    } else {
        laid_out(stmts.drop_last(), indent) + separator(stmts.len() - 1, indent) + stmts.last()
    }
}

/// `b` with `piece` inserted at index `at`.
pub open spec fn inserted(b: Seq<char>, at: int, piece: Seq<char>) -> Seq<char> {
    b.take(at) + piece + b.skip(at)
}

/// The separators inserted into `b` at the recorded offsets, the highest
/// offset first, so that each insertion leaves the lower offsets in place.
pub open spec fn retrofit(b: Seq<char>, starts: Seq<usize>, indent: Seq<char>) -> Seq<char>
    decreases starts.len(),
{
    if starts.len() == 0 {
        b
    } else {
        retrofit(
            inserted(b, starts.last() as int, separator(starts.len() - 1, indent)),
            starts.drop_last(),
            indent,
        )
    }
}

/// The characters of `indent`.
pub fn indent_chars(indent: Indent) -> (r: Vec<char>)
    ensures
        r@ == indent_text(indent),
{
    let c = match indent.unit {
        IndentUnit::Space => ' ',
        IndentUnit::Tab => '\t',
    };
    let mut r: Vec<char> = Vec::new();
    let mut i: usize = 0;
    while i < indent.count
        invariant
            i <= indent.count,
            c == unit_char(indent.unit),
            r@ == Seq::new(i as nat, |j: int| unit_char(indent.unit)),
        decreases indent.count - i,
    {
        r.push(c);
        assert(r@ =~= Seq::new((i + 1) as nat, |j: int| unit_char(indent.unit)));
        i = i + 1;
    }
    r
}

/// Inserts `piece` into `buf` at index `at`.
fn insert_chars(buf: &mut Vec<char>, at: usize, piece: &Vec<char>)
    requires
        at <= old(buf)@.len(),
    ensures
        final(buf)@ == inserted(old(buf)@, at as int, piece@),
{
    let ghost b = buf@;
    let mut j: usize = 0;
    while j < piece.len()
        invariant
            at <= b.len(),
            j <= piece.len(),
            buf@ == b.take(at as int) + piece@.take(j as int) + b.skip(at as int),
        decreases piece.len() - j,
    {
        assert(at + j <= buf.len());
        buf.insert(at + j, piece[j]);
        assert(buf@ =~= b.take(at as int) + piece@.take(j + 1) + b.skip(at as int));
        j = j + 1;
    }
    assert(piece@.take(piece.len() as int) =~= piece@);
}

/// Lays out a minified script in place: inserts, at each recorded statement
/// start, from the highest down, a newline (except before the first
/// statement) and the indentation.
pub fn beautify(buf: &mut Vec<char>, starts: &Vec<usize>, indent: Indent)
    requires
        forall|i: int| 0 <= i < starts.len() ==> starts[i] <= old(buf)@.len(),
    ensures
        final(buf)@ == retrofit(old(buf)@, starts@, indent_text(indent)),
{
    let ind = indent_chars(indent);
    let mut nl: Vec<char> = Vec::new();
    nl.push('\n');
    push_all(&mut nl, &ind);
    let mut k: usize = starts.len();
    assert(starts@.take(k as int) =~= starts@);
    while k > 0
        invariant
            k <= starts.len(),
            ind@ == indent_text(indent),
            nl@ == seq!['\n'] + indent_text(indent),
            forall|i: int| 0 <= i < k ==> starts[i] <= buf@.len(),
            retrofit(buf@, starts@.take(k as int), ind@) == retrofit(
                old(buf)@,
                starts@,
                ind@,
            ),
        decreases k,
    {
        let at = starts[k - 1];
        let ghost before = buf@;
        if k == 1 {
            insert_chars(buf, at, &ind);
        } else {
            insert_chars(buf, at, &nl);
        }
        assert(starts@.take(k as int).drop_last() =~= starts@.take(k - 1));
        assert(buf@ == inserted(before, at as int, separator(k - 1, ind@)));
        k = k - 1;
    }
    assert(starts@.take(0) =~= Seq::<usize>::empty());
}

proof fn lemma_retrofit_tail(b: Seq<char>, tail: Seq<char>, starts: Seq<usize>, indent: Seq<char>)
    requires
        forall|i: int| 0 <= i < starts.len() ==> starts[i] <= b.len(),
    ensures
        retrofit(b + tail, starts, indent) == retrofit(b, starts, indent) + tail,
    decreases starts.len(),
{
    if starts.len() > 0 {
        let o = starts.last() as int;
        let sep = separator(starts.len() - 1, indent);
        assert(inserted(b + tail, o, sep) =~= inserted(b, o, sep) + tail);
        lemma_retrofit_tail(inserted(b, o, sep), tail, starts.drop_last(), indent);
    }
}

pub(crate) proof fn lemma_joined_prefix_len(stmts: Seq<Seq<char>>, i: int)
    requires
        0 <= i <= stmts.len(),
    ensures
        joined(stmts.take(i)).len() <= joined(stmts).len(),
    decreases stmts.len(),
{
    if i == stmts.len() {
        assert(stmts.take(i) =~= stmts);
    } else {
        let rest = stmts.drop_last();
        assert(stmts.take(i) =~= rest.take(i));
        lemma_joined_prefix_len(rest, i);
    }
}

/// Inserting the separators at the recorded statement starts of a minified
/// script gives the laid-out script.
pub proof fn lemma_retrofit_lays_out(stmts: Seq<Seq<char>>, indent: Seq<char>)
    requires
        joined(stmts).len() <= usize::MAX,
    ensures
        retrofit(joined(stmts), starts_of(stmts), indent) == laid_out(stmts, indent),
    decreases stmts.len(),
{
    let n = stmts.len();
    if n > 0 {
        let rest = stmts.drop_last();
        assert(stmts.take(n - 1) =~= rest);
        lemma_joined_prefix_len(stmts, n - 1);
        assert forall|i: int| 0 <= i < n - 1 implies #[trigger] stmts.take(i) == rest.take(i) by {
            assert(stmts.take(i) =~= rest.take(i));
        }
        assert(starts_of(stmts).drop_last() =~= starts_of(rest));
        assert forall|i: int| 0 <= i < starts_of(rest).len() implies starts_of(rest)[i]
            <= joined(rest).len() by {
            lemma_joined_prefix_len(rest, i);
        }
        let sep = separator(n - 1, indent);
        let o = joined(rest).len() as int;
        assert(inserted(joined(stmts), o, sep) =~= joined(rest) + (sep + stmts.last()));
        lemma_retrofit_tail(joined(rest), sep + stmts.last(), starts_of(rest), indent);
        lemma_retrofit_lays_out(rest, indent);
        assert(laid_out(stmts, indent) =~= laid_out(rest, indent) + (sep + stmts.last()));
    }
}

/// Laying out `n >= 1` statements adds `n` indentations and `n - 1`
/// newlines to their minified length.
pub proof fn lemma_laid_out_len(stmts: Seq<Seq<char>>, indent: Seq<char>)
    requires
        stmts.len() >= 1,
    ensures
        laid_out(stmts, indent).len() == joined(stmts).len() + stmts.len() * indent.len()
            + stmts.len() - 1,
    decreases stmts.len(),
{
    let n = stmts.len();
    let m = indent.len();
    let rest = stmts.drop_last();
    if n == 1 {
        assert(laid_out(rest, indent).len() == 0);
        assert(joined(rest).len() == 0);
    } else {
        lemma_laid_out_len(rest, indent);
        assert((n - 1) * m + m == n * m) by (nonlinear_arith);
    }
}

/// Beautifying `n >= 1` statements at their recorded starts makes the
/// output longer by `n` indentations and `n - 1` newlines.
pub proof fn lemma_beautify_len(stmts: Seq<Seq<char>>, indent: Seq<char>)
    requires
        stmts.len() >= 1,
        joined(stmts).len() <= usize::MAX,
    ensures
        retrofit(joined(stmts), starts_of(stmts), indent).len() == joined(stmts).len() + stmts.len()
            * indent.len() + stmts.len() - 1,
{
    lemma_retrofit_lays_out(stmts, indent);
    lemma_laid_out_len(stmts, indent);
}

} // verus!
