//! How a text is written as a JSON string: in double quotes, with `"` and `\`
//! escaped, the usual short escapes for backspace, tab, line feed, form feed
//! and carriage return, `\u00XX` (lowercase hex) for the other control
//! characters below U+0020, and every other character as it is.
use vstd::prelude::*;

use crate::cache::{hex_digit, lemma_hex_digit_injective};

verus! {

/// The JSON spelling of one character inside a string literal.
pub open spec fn json_char(c: char) -> Seq<char> {
    if c == '"' {
        seq!['\\', '"']
    } else if c == '\\' {
        seq!['\\', '\\']
    } else if c == '\u{8}' {
        seq!['\\', 'b']
    } else if c == '\t' {
        seq!['\\', 't']
    } else if c == '\n' {
        seq!['\\', 'n']
    } else if c == '\u{c}' {
        seq!['\\', 'f']
    } else if c == '\r' {
        seq!['\\', 'r']
    } else if (c as u32) < 0x20 {
        seq!['\\', 'u', '0', '0', hex_digit(c as int / 16), hex_digit(c as int % 16)]
    } else {
        seq![c]
    }
}

/// The escaped characters of `s`, without the quotes.
pub open spec fn json_escaped(s: Seq<char>) -> Seq<char>
    decreases s.len(),
{
    if s.len() == 0 {
        Seq::<char>::empty()
    } else {
        json_escaped(s.drop_last()) + json_char(s.last())
    }
}

/// The JSON string literal for `s`.
pub open spec fn json_quote(s: Seq<char>) -> Seq<char> {
    seq!['"'] + json_escaped(s) + seq!['"']
}

/// A character that JSON writes as an escape sequence.
pub open spec fn json_escaped_char(c: char) -> bool {
    c == '"' || c == '\\' || (c as u32) < 0x20
}

/// The shape of one character's spelling: a plain character stands for
/// itself; an escaped one starts with a backslash and is six characters long
/// when its second is `u`, two otherwise.
proof fn lemma_json_char_shape(c: char)
    ensures
        json_char(c).len() >= 1,
        (json_char(c)[0] == '\\') == json_escaped_char(c),
        !json_escaped_char(c) ==> json_char(c) == seq![c],
        json_escaped_char(c) ==> json_char(c).len() >= 2 && (json_char(c)[1] == 'u'
            <==> json_char(c).len() == 6) && (json_char(c).len() == 2 || json_char(c).len()
            == 6),
{
}

/// Distinct characters are spelled differently.
proof fn lemma_json_char_injective(a: char, b: char)
    requires
        json_char(a) == json_char(b),
    ensures
        a == b,
{
    lemma_json_char_shape(a);
    lemma_json_char_shape(b);
    if json_escaped_char(a) && json_char(a)[1] == 'u' {
        assert((a as u32) < 0x20 && (b as u32) < 0x20);
        let x = a as int;
        let y = b as int;
        assert(json_char(a)[4] == hex_digit(x / 16));
        assert(json_char(b)[4] == hex_digit(y / 16));
        assert(json_char(a)[5] == hex_digit(x % 16));
        assert(json_char(b)[5] == hex_digit(y % 16));
        lemma_hex_digit_injective(x / 16, y / 16);
        lemma_hex_digit_injective(x % 16, y % 16);
        assert(x == y);
    }
}

/// Escaping read from the front: the first character's spelling, then the
/// rest escaped.
proof fn lemma_json_escaped_front(s: Seq<char>)
    requires
        s.len() > 0,
    ensures
        json_escaped(s) == json_char(s[0]) + json_escaped(s.drop_first()),
    decreases s.len(),
{
    if s.len() == 1 {
        assert(s.drop_last() =~= Seq::<char>::empty());
        assert(s.drop_first() =~= Seq::<char>::empty());
        assert(json_escaped(s) =~= json_char(s[0]) + json_escaped(s.drop_first()));
    } else {
        lemma_json_escaped_front(s.drop_last());
        assert(s.drop_first().drop_last() =~= s.drop_last().drop_first());
        assert(s.drop_first().last() == s.last());
        assert(s.drop_last()[0] == s[0]);
        assert(json_escaped(s) =~= json_char(s[0]) + json_escaped(s.drop_first()));
    }
}

/// Two spellings that both begin a text are the same spelling.
proof fn lemma_json_char_prefix(a: char, b: char, e: Seq<char>)
    requires
        json_char(a).len() <= e.len(),
        json_char(b).len() <= e.len(),
        e.subrange(0, json_char(a).len() as int) == json_char(a),
        e.subrange(0, json_char(b).len() as int) == json_char(b),
    ensures
        json_char(a) == json_char(b),
{
    lemma_json_char_shape(a);
    lemma_json_char_shape(b);
    assert(json_char(a)[0] == e[0]);
    assert(json_char(b)[0] == e[0]);
    if json_escaped_char(a) {
        assert(json_char(a)[1] == e[1]);
        assert(json_char(b)[1] == e[1]);
    }
    assert(json_char(a).len() == json_char(b).len());
    assert(json_char(a) =~= json_char(b));
}

/// Escaping loses nothing: different texts are escaped differently.
pub proof fn lemma_json_escaped_injective(a: Seq<char>, b: Seq<char>)
    requires
        json_escaped(a) == json_escaped(b),
    ensures
        a == b,
    decreases a.len(),
{
    if a.len() == 0 && b.len() == 0 {
        assert(a =~= b);
    } else if a.len() == 0 {
        lemma_json_escaped_front(b);
        lemma_json_char_shape(b[0]);
        assert(json_escaped(a) =~= Seq::<char>::empty());
        assert(json_escaped(b).len() >= 1);
        assert(false);
    } else if b.len() == 0 {
        lemma_json_escaped_front(a);
        lemma_json_char_shape(a[0]);
        assert(json_escaped(b) =~= Seq::<char>::empty());
        assert(json_escaped(a).len() >= 1);
        assert(false);
    } else {
        lemma_json_escaped_front(a);
        lemma_json_escaped_front(b);
        let e = json_escaped(a);
        let ca = json_char(a[0]);
        let cb = json_char(b[0]);
        assert(e.subrange(0, ca.len() as int) =~= ca);
        assert(e.subrange(0, cb.len() as int) =~= cb);
        lemma_json_char_prefix(a[0], b[0], e);
        lemma_json_char_injective(a[0], b[0]);
        assert(json_escaped(a.drop_first()) =~= e.subrange(ca.len() as int, e.len() as int));
        assert(json_escaped(b.drop_first()) =~= e.subrange(cb.len() as int, e.len() as int));
        lemma_json_escaped_injective(a.drop_first(), b.drop_first());
        assert(a =~= seq![a[0]] + a.drop_first());
        assert(b =~= seq![b[0]] + b.drop_first());
    }
}

/// Writing a text as a JSON string loses nothing: different texts give
/// different string literals.
pub proof fn lemma_json_quote_injective(a: Seq<char>, b: Seq<char>)
    requires
        json_quote(a) == json_quote(b),
    ensures
        a == b,
{
    let qa = json_quote(a);
    assert(json_escaped(a) =~= qa.subrange(1, qa.len() - 1));
    assert(json_escaped(b) =~= json_quote(b).subrange(1, json_quote(b).len() - 1));
    lemma_json_escaped_injective(a, b);
}

} // verus!
