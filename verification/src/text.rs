//! Characters and texts: the identifier rule, equality and the dictionary
//! order of texts, all over `Seq<char>`.

use vstd::prelude::*;

verus! {

/// What `char::is_alphanumeric` of std answers for `c`: whether Unicode counts
/// the character as a letter or as a number.
pub uninterp spec fn is_alphanumeric(c: char) -> bool;

/// `char::is_alphanumeric` of std. The answer depends on the character alone,
/// so it is given the name above; nothing else is claimed of it.
pub assume_specification[ char::is_alphanumeric ](c: char) -> (r: bool)
    ensures
        r == is_alphanumeric(c),
;

/// `String::push` of std: appends one character to the end of the string.
pub assume_specification[ String::push ](s: &mut String, c: char)
    ensures
        final(s)@ == old(s)@.push(c),
;

/// Whether `c` may stand in an identifier as it is.
pub open spec fn keeps(c: char) -> bool {
    is_alphanumeric(c) || c == '_'
}

/// The character that stands for `c` in an identifier.
pub open spec fn identifier_char(c: char) -> char {
    if keeps(c) {
        c
    } else {
        '_'
    }
}

/// `raw` with every character that is neither alphanumeric nor an underscore
/// replaced by an underscore.
pub open spec fn sanitized(raw: Seq<char>) -> Seq<char> {
    raw.map_values(|c: char| identifier_char(c))
}

/// `a` comes strictly before `b` in dictionary order, characters compared by
/// code point: the order of `str` in std.
pub open spec fn precedes(a: Seq<char>, b: Seq<char>) -> bool
    decreases a.len(),
{
    if b.len() == 0 {
        false
    } else if a.len() == 0 {
        true
    } else if a[0] == b[0] {
        precedes(a.drop_first(), b.drop_first())
    } else {
        a[0] < b[0]
    }
}

/// The characters of a text, in order.
pub fn chars_of(s: &str) -> (chars: Vec<char>)
    ensures
        chars@ == s@,
{
    let mut chars: Vec<char> = Vec::new();
    for c in it: s.chars()
        invariant
            it.seq() == s@,
            chars@ == s@.take(it.index() as int),
    {
        chars.push(c);
    }
    chars
}

/// Whether two sequences of characters are the same.
pub fn same_chars(a: &Vec<char>, b: &Vec<char>) -> (same: bool)
    ensures
        same == (a@ == b@),
{
    if a.len() != b.len() {
        return false;
    }
    let mut i: usize = 0;
    while i < a.len()
        invariant
            i <= a.len(),
            a.len() == b.len(),
            a@.take(i as int) == b@.take(i as int),
        decreases a.len() - i,
    {
        if a[i] != b[i] {
            return false;
        }
        assert(a@.take(i + 1) == a@.take(i as int).push(a@[i as int]));
        assert(b@.take(i + 1) == b@.take(i as int).push(b@[i as int]));
        i += 1;
    }
    assert(a@ == a@.take(a.len() as int));
    assert(b@ == b@.take(b.len() as int));
    true
}

/// Whether two texts are the same.
pub fn same_text(a: &str, b: &str) -> (same: bool)
    ensures
        same == (a@ == b@),
{
    let x = chars_of(a);
    let y = chars_of(b);
    same_chars(&x, &y)
}

/// The identifier that stands for `raw`.
pub fn sanitize(raw: &str) -> (ident: String)
    ensures
        ident@ == sanitized(raw@),
{
    let chars = chars_of(raw);
    let mut ident = String::new();
    let mut i: usize = 0;
    while i < chars.len()
        invariant
            i <= chars.len(),
            chars@ == raw@,
            ident@ == sanitized(raw@.take(i as int)),
        decreases chars.len() - i,
    {
        let c = chars[i];
        if c.is_alphanumeric() || c == '_' {
            ident.push(c);
        } else {
            ident.push('_');
        }
        assert(raw@.take(i + 1) == raw@.take(i as int).push(c));
        assert(sanitized(raw@.take(i + 1)) == sanitized(raw@.take(i as int)).push(
            identifier_char(c),
        ));
        i += 1;
    }
    assert(raw@ == raw@.take(chars.len() as int));
    ident
}

/// No text comes before itself.
pub proof fn lemma_precedes_irreflexive(a: Seq<char>)
    ensures
        !precedes(a, a),
    decreases a.len(),
{
    if a.len() > 0 {
        lemma_precedes_irreflexive(a.drop_first());
    }
}

/// What comes before a text comes before everything behind that text.
pub proof fn lemma_precedes_transitive(a: Seq<char>, b: Seq<char>, c: Seq<char>)
    requires
        precedes(a, b),
        precedes(b, c),
    ensures
        precedes(a, c),
    decreases a.len(),
{
    if a.len() > 0 && a[0] == b[0] && b[0] == c[0] {
        lemma_precedes_transitive(a.drop_first(), b.drop_first(), c.drop_first());
    }
}

/// Of two different texts, one comes before the other.
pub proof fn lemma_precedes_total(a: Seq<char>, b: Seq<char>)
    requires
        a != b,
    ensures
        precedes(a, b) || precedes(b, a),
    decreases a.len(),
{
    if a.len() == 0 {
        if b.len() == 0 {
            assert(a =~= b);
        }
    } else if b.len() > 0 && a[0] == b[0] {
        if a.drop_first() == b.drop_first() {
            assert(a =~= seq![a[0]] + a.drop_first());
            assert(b =~= seq![b[0]] + b.drop_first());
        }
        lemma_precedes_total(a.drop_first(), b.drop_first());
    } else if b.len() > 0 {
        assert(a[0] != b[0]);
    }
}

/// Where `a` does not come before `b`, nor `b` before `c`, `a` does not come
/// before `c`.
pub proof fn lemma_not_precedes_transitive(a: Seq<char>, b: Seq<char>, c: Seq<char>)
    requires
        !precedes(a, b),
        !precedes(b, c),
    ensures
        !precedes(a, c),
{
    if precedes(a, c) {
        if a == b {
        } else {
            lemma_precedes_total(a, b);
            lemma_precedes_transitive(b, a, c);
        }
    }
}

} // verus!
