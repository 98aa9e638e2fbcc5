//! Statements of the form `name[key]=value;`, the scripts made of them, and
//! the layout pass that puts one statement on each indented line.
use crate::escape::{
    chars_of, close_tags_escaped, escape_close_tag_chars, escape_text_chars, text_escaped,
};
use vstd::prelude::*;

verus! {

/// How a key or a value is written into a statement.
#[derive(Clone, Debug, PartialEq, Eq)]
pub enum Literal {
    /// Written as it is: a number, `true`, `false` or `null`.
    Bare(String),
    /// Written between single quotes, with its text escaped.
    Text(String),
    /// Compact JSON source text: written unquoted, closing script tags escaped.
    Script(String),
}

/// The characters that stand for `l` in a statement.
pub open spec fn rendered(l: Literal) -> Seq<char> {
    match l {
        Literal::Bare(s) => s@,
        Literal::Text(s) => seq!['\''] + text_escaped(s@) + seq!['\''],
        Literal::Script(s) => close_tags_escaped(s@),
    }
}

/// The token written in place of the value of a key that is absent.
pub open spec fn undefined() -> Seq<char> {
    seq!['u', 'n', 'd', 'e', 'f', 'i', 'n', 'e', 'd']
}

/// `=` between key and value, or ` = ` when the output is laid out.
pub open spec fn assign(pretty: bool) -> Seq<char> {
    if pretty {
        seq![' ', '=', ' ']
    } else {
        seq!['=']
    }
}

/// One statement: `name[key]=value;`, with `undefined` for an absent value.
pub open spec fn statement(
    name: Seq<char>,
    key: Seq<char>,
    value: Option<Seq<char>>,
    pretty: bool,
) -> Seq<char> {
    name + seq!['['] + key + seq![']'] + assign(pretty) + match value {
        Some(v) => v,
        None => undefined(),
    } + seq![';']
}

/// The statements for a sequence of rendered (key, value) pairs.
pub open spec fn statements(
    name: Seq<char>,
    pairs: Seq<(Seq<char>, Option<Seq<char>>)>,
    pretty: bool,
) -> Seq<Seq<char>> {
    pairs.map_values(|p: (Seq<char>, Option<Seq<char>>)| statement(name, p.0, p.1, pretty))
}

/// The statements written one after the other.
pub open spec fn joined(stmts: Seq<Seq<char>>) -> Seq<char>
    decreases stmts.len(),
{
    if stmts.len() == 0 {
        Seq::empty()
    } else {
        joined(stmts.drop_last()) + stmts.last()
    }
}

/// Where each statement starts in `joined(stmts)`.
pub open spec fn starts_of(stmts: Seq<Seq<char>>) -> Seq<usize> {
    Seq::new(stmts.len(), |i: int| joined(stmts.take(i)).len() as usize)
}

/// Appends the characters of `v` to `buf`.
pub(crate) fn push_all(buf: &mut Vec<char>, v: &Vec<char>)
    ensures
        final(buf)@ == old(buf)@ + v@,
{
    let mut i: usize = 0;
    while i < v.len()
        invariant
            i <= v.len(),
            buf@ == old(buf)@ + v@.take(i as int),
        decreases v.len() - i,
    {
        buf.push(v[i]);
        assert(v@.take(i + 1) =~= v@.take(i as int).push(v@[i as int]));
        i = i + 1;
    }
    assert(v@.take(v.len() as int) =~= v@);
}

/// Appends the rendering of `l` to `buf`.
pub fn push_literal(buf: &mut Vec<char>, l: &Literal)
    ensures
        final(buf)@ == old(buf)@ + rendered(*l),
{
    match l {
        Literal::Bare(s) => {
            push_all(buf, &chars_of(s.as_str()));
        },
        Literal::Text(s) => {
            buf.push('\'');
            push_all(buf, &escape_text_chars(&chars_of(s.as_str())));
            buf.push('\'');
            assert(final(buf)@ =~= old(buf)@ + rendered(*l));
        },
        Literal::Script(s) => {
            push_all(buf, &escape_close_tag_chars(&chars_of(s.as_str())));
        },
    }
}

/// Appends one statement to `buf` and records where it starts in `starts`.
pub fn push_statement(
    buf: &mut Vec<char>,
    starts: &mut Vec<usize>,
    name: &Vec<char>,
    key: &Literal,
    value: Option<&Literal>,
    pretty: bool,
)
    ensures
        final(buf)@ == old(buf)@ + statement(
            name@,
            rendered(*key),
            match value {
                Some(v) => Some(rendered(*v)),
                None => None,
            },
            pretty,
        ),
        final(starts)@ == old(starts)@.push(old(buf)@.len() as usize),
{
    starts.push(buf.len());
    push_all(buf, name);
    buf.push('[');
    push_literal(buf, key);
    buf.push(']');
    if pretty {
        buf.push(' ');
        buf.push('=');
        buf.push(' ');
    } else {
        buf.push('=');
    }
    match value {
        Some(v) => {
            push_literal(buf, v);
        },
        None => {
            buf.push('u');
            buf.push('n');
            buf.push('d');
            buf.push('e');
            buf.push('f');
            buf.push('i');
            buf.push('n');
            buf.push('e');
            buf.push('d');
        },
    }
    buf.push(';');
    assert(final(buf)@ =~= old(buf)@ + statement(
        name@,
        rendered(*key),
        match value {
            Some(v) => Some(rendered(*v)),
            None => None,
        },
        pretty,
    ));
}

} // verus!
