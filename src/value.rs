//! Which keys and values are written bare (numbers) and which are written
//! as quoted text, and the text of each.
use crate::emit::{rendered, statement, Literal};
use crate::escape::{string_of, text_escaped};
use vstd::prelude::*;

verus! {

/// A key or value that can be written into a statement.
///
/// The classification depends on the type alone: values of a numeric type
/// are written bare, all others quoted and escaped.
pub trait ScriptValue {
    /// Whether values of this type are written bare.
    spec fn numeric() -> bool;

    /// The text of the value; for a number, its decimal form.
    spec fn text(&self) -> Seq<char>;

    fn is_numeric() -> (r: bool)
        ensures
            r == Self::numeric(),
    ;

    fn to_text(&self) -> (r: String)
        ensures
            r@ == self.text(),
    ;
}

/// Whether values of type `T` are written bare, as numbers.
pub fn is_number<T: ScriptValue>() -> (r: bool)
    ensures
        r == T::numeric(),
{
    T::is_numeric()
}

/// How `v` is written into a statement.
pub open spec fn value_rendered<T: ScriptValue>(v: &T) -> Seq<char> {
    if T::numeric() {
        v.text()
    } else {
        seq!['\''] + text_escaped(v.text()) + seq!['\'']
    }
}

/// The literal for `v`: bare for a number, quoted text otherwise.
pub fn literal_of<T: ScriptValue>(v: &T) -> (r: Literal)
    ensures
        rendered(r) == value_rendered(v),
{
    let t = v.to_text();
    if T::is_numeric() {
        Literal::Bare(t)
    } else {
        Literal::Text(t)
    }
}

/// A key and a value of numeric types are written bare: the statement is
/// `name[k]=v;` with their decimal texts and no quote anywhere.
pub proof fn lemma_numeric_statement_bare<K: ScriptValue, V: ScriptValue>(
    name: Seq<char>,
    k: K,
    v: V,
)
    requires
        K::numeric(),
        V::numeric(),
    ensures
        statement(name, value_rendered(&k), Some(value_rendered(&v)), false) == name + seq!['[']
            + k.text() + seq![']', '='] + v.text() + seq![';'],
{
    assert(statement(name, value_rendered(&k), Some(value_rendered(&v)), false) =~= name
        + seq!['['] + k.text() + seq![']', '='] + v.text() + seq![';']);
}

pub open spec fn digit_char(d: nat) -> char {
    if d == 0 {
        '0'
    } else if d == 1 {
        '1'
    } else if d == 2 {
        '2'
    } else if d == 3 {
        '3'
    } else if d == 4 {
        '4'
    } else if d == 5 {
        '5'
    } else if d == 6 {
        '6'
    } else if d == 7 {
        '7'
    } else if d == 8 {
        '8'
    } else {
        '9'
    }
}

/// The decimal digits of `n`, most significant first, with no leading zero.
pub open spec fn decimal(n: nat) -> Seq<char>
    decreases n,
{
    if n < 10 {
        seq![digit_char(n)]
    } else {
        decimal(n / 10) + seq![digit_char(n % 10)]
    }
}

/// The decimal form of `n`, with a leading `-` when it is negative.
pub open spec fn signed_decimal(n: int) -> Seq<char> {
    if n < 0 {
        seq!['-'] + decimal((-n) as nat)
    } else {
        decimal(n as nat)
    }
}

fn digit(d: u128) -> (c: char)
    requires
        d < 10,
    ensures
        c == digit_char(d as nat),
{
    if d == 0 {
        '0'
    } else if d == 1 {
        '1'
    } else if d == 2 {
        '2'
    } else if d == 3 {
        '3'
    } else if d == 4 {
        '4'
    } else if d == 5 {
        '5'
    } else if d == 6 {
        '6'
    } else if d == 7 {
        '7'
    } else if d == 8 {
        '8'
    } else {
        '9'
    }
}

fn push_decimal(buf: &mut Vec<char>, n: u128)
    ensures
        final(buf)@ == old(buf)@ + decimal(n as nat),
    decreases n,
{
    if n >= 10 {
        push_decimal(buf, n / 10);
    }
    buf.push(digit(n % 10));
}

/// The decimal form of an unsigned number.
pub fn unsigned_text(n: u128) -> (r: String)
    ensures
        r@ == decimal(n as nat),
{
    let mut buf: Vec<char> = Vec::new();
    push_decimal(&mut buf, n);
    assert(buf@ =~= decimal(n as nat));
    string_of(&buf)
}

/// The decimal form of a signed number.
pub fn signed_text(n: i128) -> (r: String)
    ensures
        r@ == signed_decimal(n as int),
{
    let mut buf: Vec<char> = Vec::new();
    if n < 0 {
        buf.push('-');
        let magnitude: u128 = (-(n + 1)) as u128 + 1;
        push_decimal(&mut buf, magnitude);
    } else {
        push_decimal(&mut buf, n as u128);
    }
    assert(buf@ =~= signed_decimal(n as int));
    string_of(&buf)
}

impl<'a> ScriptValue for &'a str {
    open spec fn numeric() -> bool {
        false
    }

    open spec fn text(&self) -> Seq<char> {
        (*self)@
    }

    fn is_numeric() -> (r: bool) {
        false
    }

    fn to_text(&self) -> (r: String) {
        (*self).to_owned()
    }
}

impl ScriptValue for bool {
    open spec fn numeric() -> bool {
        false
    }

    open spec fn text(&self) -> Seq<char> {
        if *self {
            seq!['t', 'r', 'u', 'e']
        } else {
            seq!['f', 'a', 'l', 's', 'e']
        }
    }

    fn is_numeric() -> (r: bool) {
        false
    }

    fn to_text(&self) -> (r: String) {
        if *self {
            let r = String::from_str("true");
            proof {
                reveal_strlit("true");
            }
            r
        } else {
            let r = String::from_str("false");
            proof {
                reveal_strlit("false");
            }
            r
        }
    }
}

impl ScriptValue for char {
    open spec fn numeric() -> bool {
        false
    }

    open spec fn text(&self) -> Seq<char> {
        seq![*self]
    }

    fn is_numeric() -> (r: bool) {
        false
    }

    fn to_text(&self) -> (r: String) {
        let mut buf: Vec<char> = Vec::new();
        buf.push(*self);
        assert(buf@ =~= seq![*self]);
        string_of(&buf)
    }
}

impl ScriptValue for String {
    open spec fn numeric() -> bool {
        false
    }

    open spec fn text(&self) -> Seq<char> {
        self@
    }

    fn is_numeric() -> (r: bool) {
        false
    }

    fn to_text(&self) -> (r: String) {
        self.clone()
    }
}

impl ScriptValue for u8 {
    open spec fn numeric() -> bool {
        true
    }

    open spec fn text(&self) -> Seq<char> {
        decimal(*self as nat)
    }

    fn is_numeric() -> (r: bool) {
        true
    }

    fn to_text(&self) -> (r: String) {
        unsigned_text(*self as u128)
    }
}

impl ScriptValue for u16 {
    open spec fn numeric() -> bool {
        true
    }

    open spec fn text(&self) -> Seq<char> {
        decimal(*self as nat)
    }

    fn is_numeric() -> (r: bool) {
        true
    }

    fn to_text(&self) -> (r: String) {
        unsigned_text(*self as u128)
    }
}

impl ScriptValue for u32 {
    open spec fn numeric() -> bool {
        true
    }

    open spec fn text(&self) -> Seq<char> {
        decimal(*self as nat)
    }

    fn is_numeric() -> (r: bool) {
        true
    }

    fn to_text(&self) -> (r: String) {
        unsigned_text(*self as u128)
    }
}

impl ScriptValue for u64 {
    open spec fn numeric() -> bool {
        true
    }

    open spec fn text(&self) -> Seq<char> {
        decimal(*self as nat)
    }

    fn is_numeric() -> (r: bool) {
        true
    }

    fn to_text(&self) -> (r: String) {
        unsigned_text(*self as u128)
    }
}

impl ScriptValue for u128 {
    open spec fn numeric() -> bool {
        true
    }

    open spec fn text(&self) -> Seq<char> {
        decimal(*self as nat)
    }

    fn is_numeric() -> (r: bool) {
        true
    }

    fn to_text(&self) -> (r: String) {
        unsigned_text(*self as u128)
    }
}

impl ScriptValue for usize {
    open spec fn numeric() -> bool {
        true
    }

    open spec fn text(&self) -> Seq<char> {
        decimal(*self as nat)
    }

    fn is_numeric() -> (r: bool) {
        true
    }

    fn to_text(&self) -> (r: String) {
        unsigned_text(*self as u128)
    }
}

impl ScriptValue for i8 {
    open spec fn numeric() -> bool {
        true
    }

    open spec fn text(&self) -> Seq<char> {
        signed_decimal(*self as int)
    }

    fn is_numeric() -> (r: bool) {
        true
    }

    fn to_text(&self) -> (r: String) {
        signed_text(*self as i128)
    }
}

impl ScriptValue for i16 {
    open spec fn numeric() -> bool {
        true
    }

    open spec fn text(&self) -> Seq<char> {
        signed_decimal(*self as int)
    }

    fn is_numeric() -> (r: bool) {
        true
    }

    fn to_text(&self) -> (r: String) {
        signed_text(*self as i128)
    }
}

impl ScriptValue for i32 {
    open spec fn numeric() -> bool {
        true
    }

    open spec fn text(&self) -> Seq<char> {
        signed_decimal(*self as int)
    }

    fn is_numeric() -> (r: bool) {
        true
    }

    fn to_text(&self) -> (r: String) {
        signed_text(*self as i128)
    }
}

impl ScriptValue for i64 {
    open spec fn numeric() -> bool {
        true
    }

    open spec fn text(&self) -> Seq<char> {
        signed_decimal(*self as int)
    }

    fn is_numeric() -> (r: bool) {
        true
    }

    fn to_text(&self) -> (r: String) {
        signed_text(*self as i128)
    }
}

impl ScriptValue for i128 {
    open spec fn numeric() -> bool {
        true
    }

    open spec fn text(&self) -> Seq<char> {
        signed_decimal(*self as int)
    }

    fn is_numeric() -> (r: bool) {
        true
    }

    fn to_text(&self) -> (r: String) {
        signed_text(*self as i128)
    }
}

impl ScriptValue for isize {
    open spec fn numeric() -> bool {
        true
    }

    open spec fn text(&self) -> Seq<char> {
        signed_decimal(*self as int)
    }

    fn is_numeric() -> (r: bool) {
        true
    }

    fn to_text(&self) -> (r: String) {
        signed_text(*self as i128)
    }
}

} // verus!
