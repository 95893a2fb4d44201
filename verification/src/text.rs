//! Small searches in text, stated over sequences of characters.

use vstd::prelude::*;
use vstd::string::*;

verus! {

broadcast use vstd::string::group_string_axioms;

/// The index of the first `c` in `s`, or the length of `s` if `c` does not
/// occur in it.
pub open spec fn first_index_of(s: Seq<char>, c: char) -> int
    decreases s.len(),
{
    if s.len() == 0 {
        0
    } else if s[0] == c {
        0
    } else {
        1 + first_index_of(s.skip(1), c)
    }
}

/// `first_index_of` is within the bounds of `s`, nothing before it is `c`,
/// and `c` stands at it unless it is the length of `s`.
pub proof fn lemma_first_index_of(s: Seq<char>, c: char)
    ensures
        0 <= first_index_of(s, c) <= s.len(),
        forall|j: int| 0 <= j < first_index_of(s, c) ==> s[j] != c,
        first_index_of(s, c) < s.len() ==> s[first_index_of(s, c)] == c,
        first_index_of(s, c) == s.len() <==> !s.contains(c),
    decreases s.len(),
{
    if s.len() > 0 && s[0] != c {
        let rest = s.skip(1);
        lemma_first_index_of(rest, c);
        assert forall|j: int| 0 <= j < first_index_of(s, c) implies s[j] != c by {
            if j > 0 {
                assert(rest[j - 1] == s[j]);
            }
        }
        if first_index_of(s, c) < s.len() {
            assert(rest[first_index_of(rest, c)] == s[first_index_of(s, c)]);
        }
        if s.contains(c) {
            let i = s.index_of(c);
            assert(rest[i - 1] == c);
            assert(rest.contains(c));
        }
    }
    if s.len() > 0 && s[0] == c {
        assert(s.contains(c));
    }
}

/// An index that meets what `lemma_first_index_of` states is the first index.
pub proof fn lemma_first_index_of_is(s: Seq<char>, c: char, i: int)
    requires
        0 <= i <= s.len(),
        forall|j: int| 0 <= j < i ==> s[j] != c,
        i < s.len() ==> s[i] == c,
    ensures
        first_index_of(s, c) == i,
{
    lemma_first_index_of(s, c);
    let f = first_index_of(s, c);
    if f < i {
        assert(s[f] != c);
    } else if i < f {
        assert(s[i] == c);
    }
}

/// The characters of `s`, in a vector.
pub fn chars_of(s: &str) -> (chars: Vec<char>)
    ensures
        chars@ == s@,
{
    let mut chars: Vec<char> = Vec::new();
    for c in it: s.chars()
        invariant
            it.seq() == s@,
            chars@ == it.seq().take(it.index()),
    {
        chars.push(c);
        assert(chars@ =~= it.seq().take(it.index() + 1));
    }
    assert(s@.take(s@.len() as int) =~= s@);
    chars
}

/// Where the first `c` stands in `chars`, or the length of `chars`.
pub fn find_first(chars: &Vec<char>, c: char) -> (at: usize)
    ensures
        at == first_index_of(chars@, c),
{
    let mut at: usize = 0;
    while at < chars.len() && chars[at] != c
        invariant
            at <= chars.len(),
            forall|j: int| 0 <= j < at ==> chars@[j] != c,
        decreases chars.len() - at,
    {
        at += 1;
    }
    proof {
        lemma_first_index_of_is(chars@, c, at as int);
    }
    at
}

/// Where the first `c` at or after `from` stands in `chars`, or the length
/// of `chars`.
pub fn find_first_from(chars: &Vec<char>, c: char, from: usize) -> (at: usize)
    requires
        from <= chars.len(),
    ensures
        at == from + first_index_of(chars@.skip(from as int), c),
        from <= at <= chars.len(),
{
    let ghost rest = chars@.skip(from as int);
    let mut at: usize = from;
    while at < chars.len() && chars[at] != c
        invariant
            from <= at <= chars.len(),
            rest == chars@.skip(from as int),
            forall|j: int| 0 <= j < at - from ==> rest[j] != c,
        decreases chars.len() - at,
    {
        at += 1;
    }
    proof {
        lemma_first_index_of_is(rest, c, at - from);
    }
    at
}

/// Whether `c` occurs in `chars` at or after `from` and before `to`.
pub fn occurs_between(chars: &Vec<char>, c: char, from: usize, to: usize) -> (found: bool)
    requires
        from <= to <= chars.len(),
    ensures
        found == chars@.subrange(from as int, to as int).contains(c),
{
    let ghost part = chars@.subrange(from as int, to as int);
    let mut i: usize = from;
    while i < to
        invariant
            from <= i <= to <= chars.len(),
            part == chars@.subrange(from as int, to as int),
            forall|j: int| 0 <= j < i - from ==> part[j] != c,
        decreases to - i,
    {
        if chars[i] == c {
            assert(part[i - from] == c);
            return true;
        }
        i += 1;
    }
    false
}

/// Whether the characters of `chars` from `from` up to `to` spell `word`.
pub fn spells(chars: &Vec<char>, from: usize, to: usize, word: &str) -> (same: bool)
    requires
        from <= to <= chars.len(),
    ensures
        same == (chars@.subrange(from as int, to as int) == word@),
{
    let ghost part = chars@.subrange(from as int, to as int);
    let n = word.unicode_len();
    if n != to - from {
        return false;
    }
    let mut i: usize = 0;
    while i < n
        invariant
            from <= to <= chars.len(),
            n == to - from,
            n == word@.len(),
            i <= n,
            part == chars@.subrange(from as int, to as int),
            forall|j: int| 0 <= j < i ==> part[j] == word@[j],
        decreases n - i,
    {
        if chars[from + i] != word.get_char(i) {
            assert(part[i as int] != word@[i as int]);
            return false;
        }
        i += 1;
    }
    assert(part =~= word@);
    true
}

} // verus!
