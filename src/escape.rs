//! Text transforms that make arbitrary text safe inside a single-quoted
//! JavaScript string literal that itself lives inside an HTML `<script>` block.
use vstd::prelude::*;
use vstd::std_specs::iter::IteratorSpec;

verus! {

/// The concatenation of `piece(0)`, `piece(1)`, ..., `piece(n - 1)`.
pub open spec fn expand(n: nat, piece: spec_fn(int) -> Seq<char>) -> Seq<char>
    decreases n,
{
    if n == 0 {
        Seq::empty()
    } else {
        expand((n - 1) as nat, piece) + piece(n - 1)
    }
}

/// A single quote that no backslash precedes gets a backslash in front of it.
pub open spec fn quote_piece(s: Seq<char>, i: int) -> Seq<char> {
    if s[i] == '\'' && (i == 0 || s[i - 1] != '\\') {
        seq!['\\', '\'']
    } else {
        seq![s[i]]
    }
}

pub open spec fn quotes_escaped_upto(s: Seq<char>, n: nat) -> Seq<char> {
    expand(n, |i: int| quote_piece(s, i))
}

/// `s` with a backslash inserted before every single quote that is not
/// already preceded by one.
pub open spec fn quotes_escaped(s: Seq<char>) -> Seq<char> {
    quotes_escaped_upto(s, s.len())
}

/// The nine characters of an HTML closing script tag, `</script>`.
pub open spec fn close_tag() -> Seq<char> {
    seq!['<', '/', 's', 'c', 'r', 'i', 'p', 't', '>']
}

/// Whether a closing script tag starts at index `i` of `s`.
pub open spec fn close_tag_at(s: Seq<char>, i: int) -> bool {
    0 <= i && i + 9 <= s.len() && s.subrange(i, i + 9) == close_tag()
}

/// The `<` of a closing script tag is followed by a backslash.
pub open spec fn close_tag_piece(s: Seq<char>, i: int) -> Seq<char> {
    if close_tag_at(s, i) {
        seq!['<', '\\']
    } else {
        seq![s[i]]
    }
}

pub open spec fn close_tags_escaped_upto(s: Seq<char>, n: nat) -> Seq<char> {
    expand(n, |i: int| close_tag_piece(s, i))
}

/// `s` with every `</script>` rewritten as `<\/script>`.
pub open spec fn close_tags_escaped(s: Seq<char>) -> Seq<char> {
    close_tags_escaped_upto(s, s.len())
}

/// What becomes of a newline character.
#[derive(Clone, Copy, Debug, PartialEq, Eq)]
pub enum NewlinePolicy {
    /// A newline is written as the two characters `\n`.
    Escape,
    /// A newline is removed.
    Strip,
}

pub open spec fn newline_piece(s: Seq<char>, i: int, policy: NewlinePolicy) -> Seq<char> {
    if s[i] == '\n' {
        match policy {
            NewlinePolicy::Escape => seq!['\\', 'n'],
            NewlinePolicy::Strip => Seq::empty(),
        }
    } else {
        seq![s[i]]
    }
}

pub open spec fn newlines_escaped_upto(s: Seq<char>, n: nat, policy: NewlinePolicy) -> Seq<char> {
    expand(n, |i: int| newline_piece(s, i, policy))
}

/// `s` with its newline characters escaped or removed, as `policy` says.
pub open spec fn newlines_escaped(s: Seq<char>, policy: NewlinePolicy) -> Seq<char> {
    newlines_escaped_upto(s, s.len(), policy)
}

/// The full escaping of text placed inside a single-quoted string literal:
/// quotes first, then closing script tags, then newlines (escaped).
pub open spec fn text_escaped(s: Seq<char>) -> Seq<char> {
    newlines_escaped(close_tags_escaped(quotes_escaped(s)), NewlinePolicy::Escape)
}

/// The characters of `s`, in order.
pub fn chars_of(s: &str) -> (r: Vec<char>)
    ensures
        r@ == s@,
{
    broadcast use vstd::string::group_string_axioms;

    let mut r: Vec<char> = Vec::new();
    for c in iter: s.chars()
        invariant
            r@ == iter.seq().take(iter.index() as int),
    {
        r.push(c);
    }
    assert(r@ == s@);
    r
}

/// Escapes unescaped single quotes.
pub fn escape_quote_chars(s: &Vec<char>) -> (r: Vec<char>)
    ensures
        r@ == quotes_escaped(s@),
{
    let mut r: Vec<char> = Vec::new();
    let mut i: usize = 0;
    while i < s.len()
        invariant
            i <= s.len(),
            r@ == quotes_escaped_upto(s@, i as nat),
        decreases s.len() - i,
    {
        if s[i] == '\'' && (i == 0 || s[i - 1] != '\\') {
            r.push('\\');
        }
        r.push(s[i]);
        proof {
            assert(quotes_escaped_upto(s@, (i + 1) as nat) == quotes_escaped_upto(s@, i as nat)
                + quote_piece(s@, i as int));
        }
        assert(r@ == quotes_escaped_upto(s@, (i + 1) as nat));
        i = i + 1;
    }
    r
}

/// Whether a closing script tag starts at index `i` of `s`.
fn is_close_tag_at(s: &Vec<char>, i: usize) -> (r: bool)
    requires
        i < s@.len(),
    ensures
        r == close_tag_at(s@, i as int),
{
    if s.len() < 9 || i > s.len() - 9 {
        return false;
    }
    let r = s[i] == '<' && s[i + 1] == '/' && s[i + 2] == 's' && s[i + 3] == 'c' && s[i + 4]
        == 'r' && s[i + 5] == 'i' && s[i + 6] == 'p' && s[i + 7] == 't' && s[i + 8] == '>';
    if r {
        assert(s@.subrange(i as int, i + 9) =~= close_tag());
    } else {
        assert(s@.subrange(i as int, i + 9) != close_tag()) by {
            if s@.subrange(i as int, i + 9) == close_tag() {
                assert(s@.subrange(i as int, i + 9)[0] == s@[i as int]);
                assert(s@.subrange(i as int, i + 9)[1] == s@[i + 1]);
                assert(s@.subrange(i as int, i + 9)[2] == s@[i + 2]);
                assert(s@.subrange(i as int, i + 9)[3] == s@[i + 3]);
                assert(s@.subrange(i as int, i + 9)[4] == s@[i + 4]);
                assert(s@.subrange(i as int, i + 9)[5] == s@[i + 5]);
                assert(s@.subrange(i as int, i + 9)[6] == s@[i + 6]);
                assert(s@.subrange(i as int, i + 9)[7] == s@[i + 7]);
                assert(s@.subrange(i as int, i + 9)[8] == s@[i + 8]);
            }
        }
    }
    r
}

/// Escapes every closing script tag.
pub fn escape_close_tag_chars(s: &Vec<char>) -> (r: Vec<char>)
    ensures
        r@ == close_tags_escaped(s@),
{
    let mut r: Vec<char> = Vec::new();
    let mut i: usize = 0;
    while i < s.len()
        invariant
            i <= s.len(),
            r@ == close_tags_escaped_upto(s@, i as nat),
        decreases s.len() - i,
    {
        if is_close_tag_at(s, i) {
            r.push('<');
            r.push('\\');
        } else {
            r.push(s[i]);
        }
        assert(r@ == close_tags_escaped_upto(s@, (i + 1) as nat));
        i = i + 1;
    }
    r
}

/// Escapes or removes newline characters.
pub fn escape_newline_chars(s: &Vec<char>, policy: NewlinePolicy) -> (r: Vec<char>)
    ensures
        r@ == newlines_escaped(s@, policy),
{
    let mut r: Vec<char> = Vec::new();
    let mut i: usize = 0;
    while i < s.len()
        invariant
            i <= s.len(),
            r@ == newlines_escaped_upto(s@, i as nat, policy),
        decreases s.len() - i,
    {
        if s[i] == '\n' {
            match policy {
                NewlinePolicy::Escape => {
                    r.push('\\');
                    r.push('n');
                },
                NewlinePolicy::Strip => {},
            }
        } else {
            r.push(s[i]);
        }
        assert(r@ == newlines_escaped_upto(s@, (i + 1) as nat, policy));
        i = i + 1;
    }
    r
}

/// The full escaping of text for a single-quoted string literal.
pub fn escape_text_chars(s: &Vec<char>) -> (r: Vec<char>)
    ensures
        r@ == text_escaped(s@),
{
    let quoted = escape_quote_chars(s);
    let closed = escape_close_tag_chars(&quoted);
    escape_newline_chars(&closed, NewlinePolicy::Escape)
}

/// Relies on `String: FromIterator<&char>`: the string holds the characters
/// in order.
#[verifier::external_body]
pub(crate) fn string_of(v: &Vec<char>) -> (r: String)
    ensures
        r@ == v@,
{
    v.iter().collect()
}

/// Inserts a backslash before every single quote of `text` that is not
/// already preceded by one.
pub fn escape_quote(text: &str) -> (r: String)
    ensures
        r@ == quotes_escaped(text@),
{
    string_of(&escape_quote_chars(&chars_of(text)))
}

/// Rewrites every `</script>` of `text` as `<\/script>`.
pub fn escape_script_close_tag(text: &str) -> (r: String)
    ensures
        r@ == close_tags_escaped(text@),
{
    string_of(&escape_close_tag_chars(&chars_of(text)))
}

/// Escapes (as `\n`) or removes the newline characters of `text`.
pub fn escape_newlines(text: &str, policy: NewlinePolicy) -> (r: String)
    ensures
        r@ == newlines_escaped(text@, policy),
{
    string_of(&escape_newline_chars(&chars_of(text), policy))
}

/// Escapes `text` for a single-quoted JavaScript string inside a `<script>`
/// element: unescaped quotes, then closing script tags, then newlines.
pub fn escape_text(text: &str) -> (r: String)
    ensures
        r@ == text_escaped(text@),
{
    string_of(&escape_text_chars(&chars_of(text)))
}

proof fn lemma_expand_identity(s: Seq<char>, n: nat, piece: spec_fn(int) -> Seq<char>)
    requires
        n <= s.len(),
        forall|i: int| 0 <= i < n ==> #[trigger] piece(i) == seq![s[i]],
    ensures
        expand(n, piece) == s.take(n as int),
    decreases n,
{
    if n > 0 {
        lemma_expand_identity(s, (n - 1) as nat, piece);
        assert(s.take(n as int) =~= s.take(n - 1) + seq![s[n - 1]]);
    } else {
        assert(s.take(0) =~= Seq::<char>::empty());
    }
}

/// Text that holds no single quote, no `</script>` and no newline is left
/// unchanged by escaping.
pub proof fn lemma_safe_text_unchanged(s: Seq<char>)
    requires
        !s.contains('\''),
        forall|i: int| !#[trigger] close_tag_at(s, i),
        !s.contains('\n'),
    ensures
        text_escaped(s) == s,
        quotes_escaped(s) == s,
        close_tags_escaped(s) == s,
        newlines_escaped(s, NewlinePolicy::Escape) == s,
        newlines_escaped(s, NewlinePolicy::Strip) == s,
{
    assert forall|i: int| 0 <= i < s.len() implies #[trigger] quote_piece(s, i) == seq![s[i]] by {
        assert(s[i] != '\'') by {
            if s[i] == '\'' {
                assert(s.contains('\''));
            }
        }
    }
    lemma_expand_identity(s, s.len(), |i: int| quote_piece(s, i));
    assert forall|i: int| 0 <= i < s.len() implies #[trigger] close_tag_piece(s, i) == seq![
        s[i],
    ] by {
        assert(!close_tag_at(s, i));
    }
    lemma_expand_identity(s, s.len(), |i: int| close_tag_piece(s, i));
    assert forall|p: NewlinePolicy, i: int| 0 <= i < s.len() implies #[trigger] newline_piece(
        s,
        i,
        p,
    ) == seq![s[i]] by {
        assert(s[i] != '\n') by {
            if s[i] == '\n' {
                assert(s.contains('\n'));
            }
        }
    }
    lemma_expand_identity(s, s.len(), |i: int| newline_piece(s, i, NewlinePolicy::Escape));
    lemma_expand_identity(s, s.len(), |i: int| newline_piece(s, i, NewlinePolicy::Strip));
    assert(s.take(s.len() as int) =~= s);
}

/// In the prefix escaped so far, every single quote has a backslash before
/// it, and the last character is the last one of the input read.
proof fn lemma_quotes_escaped_shape(s: Seq<char>, n: nat)
    requires
        n <= s.len(),
    ensures
        ({
            let t = quotes_escaped_upto(s, n);
            &&& n > 0 ==> t.len() > 0 && t.last() == s[n - 1]
            &&& forall|j: int| 0 <= j < t.len() && #[trigger] t[j] == '\'' ==> j > 0 && t[j - 1]
                == '\\'
        }),
    decreases n,
{
    if n > 0 {
        lemma_quotes_escaped_shape(s, (n - 1) as nat);
        let prev = quotes_escaped_upto(s, (n - 1) as nat);
        let t = quotes_escaped_upto(s, n);
        assert(t == prev + quote_piece(s, n - 1));
        assert forall|j: int| 0 <= j < t.len() && #[trigger] t[j] == '\'' implies j > 0 && t[j - 1]
            == '\\' by {
            if j >= prev.len() && quote_piece(s, n - 1).len() == 1 {
                assert(n - 1 > 0 && s[n - 2] == '\\');
                assert(t[j - 1] == prev.last());
            }
        }
    }
}

/// Escaping quotes a second time changes nothing: every quote of the first
/// result already has its backslash.
pub proof fn lemma_escape_quote_idempotent(s: Seq<char>)
    ensures
        quotes_escaped(quotes_escaped(s)) == quotes_escaped(s),
{
    let t = quotes_escaped(s);
    lemma_quotes_escaped_shape(s, s.len());
    assert forall|i: int| 0 <= i < t.len() implies #[trigger] quote_piece(t, i) == seq![t[i]] by {
        if t[i] == '\'' {
            assert(i > 0 && t[i - 1] == '\\');
        }
    }
    lemma_expand_identity(t, t.len(), |i: int| quote_piece(t, i));
    assert(t.take(t.len() as int) =~= t);
}

} // verus!
