//! Splitting a token of the form `key=value` at its first separator.

use vstd::prelude::*;

verus! {

/// The character that parts an option's key from its value inside one token.
pub const SEPARATOR: char = '=';

/// Number of characters of `t` that stand before its first `c`;
/// the length of `t` when `c` does not occur in it.
pub open spec fn first_position(t: Seq<char>, c: char) -> nat
    decreases t.len(),
{
    if t.len() == 0 || t[0] == c {
        0
    } else {
        1 + first_position(t.drop_first(), c)
    }
}

/// Whether the token holds a separator at all.
pub open spec fn has_separator(t: Seq<char>) -> bool {
    t.contains(SEPARATOR)
}

/// What stands before the first separator; empty for a token without one.
pub open spec fn assignment_key(t: Seq<char>) -> Seq<char> {
    if has_separator(t) {
        t.take(first_position(t, SEPARATOR) as int)
    } else {
        Seq::empty()
    }
}

/// What stands after the first separator, later separators included;
/// empty for a token without one.
pub open spec fn assignment_value(t: Seq<char>) -> Seq<char> {
    if has_separator(t) {
        t.skip(first_position(t, SEPARATOR) as int + 1)
    } else {
        Seq::empty()
    }
}

/// `first_position` stops at the first `c`: no `c` stands before it, and
/// unless it has reached the end, a `c` stands at it.
pub proof fn lemma_first_position(t: Seq<char>, c: char)
    ensures
        first_position(t, c) <= t.len(),
        first_position(t, c) < t.len() ==> t[first_position(t, c) as int] == c,
        forall|j: int| 0 <= j < first_position(t, c) ==> t[j] != c,
        first_position(t, c) < t.len() <==> t.contains(c),
    decreases t.len(),
{
    if t.len() != 0 && t[0] != c {
        let rest = t.drop_first();
        lemma_first_position(rest, c);
        assert forall|j: int| 0 <= j < first_position(t, c) implies t[j] != c by {
            if j > 0 {
                assert(t[j] == rest[j - 1]);
            }
        }
    }
}

/// A token with a separator is its key, one separator and its value, in this
/// order, and the key holds no separator.
pub proof fn lemma_assignment_parts(t: Seq<char>)
    requires
        has_separator(t),
    ensures
        t == assignment_key(t) + seq![SEPARATOR] + assignment_value(t),
        !has_separator(assignment_key(t)),
{
    lemma_first_position(t, SEPARATOR);
    assert(t =~= assignment_key(t) + seq![SEPARATOR] + assignment_value(t));
}

/// Index of the first `c` in `s`, counted in characters.
pub fn find_char(s: &str, c: char) -> (r: Option<usize>)
    ensures
        r is Some <==> s@.contains(c),
        r matches Some(i) ==> i == first_position(s@, c),
{
    let len: usize = s.unicode_len();
    let mut n: usize = 0;
    for x in it: s.chars()
        invariant
            n == it.index(),
            it.seq() == s@,
            len == s@.len(),
            forall|j: int| 0 <= j < n ==> s@[j] != c,
    {
        if x == c {
            proof {
                lemma_first_position(s@, c);
            }
            return Some(n);
        }
        n = n + 1;
    }
    None
}

/// Parts a token at its first separator into key and value. A token without
/// a separator has neither.
pub fn split_assignment(token: &str) -> (r: Option<(String, String)>)
    ensures
        r is Some <==> has_separator(token@),
        r matches Some(kv) ==> kv.0@ == assignment_key(token@) && kv.1@ == assignment_value(
            token@,
        ),
{
    match find_char(token, SEPARATOR) {
        Some(at) => {
            proof {
                lemma_first_position(token@, SEPARATOR);
            }
            let len: usize = token.unicode_len();
            let key = token.substring_char(0, at).to_owned();
            let value = token.substring_char(at + 1, len).to_owned();
            Some((key, value))
        },
        None => None,
    }
}

} // verus!
