//! Character-level helpers shared by the parser and the expander.

use vstd::prelude::*;

verus! {

/// The characters of `s`, one per element.
pub(crate) fn chars_of(s: &str) -> (v: Vec<char>)
    ensures
        v@ == s@,
{
    let mut v: Vec<char> = Vec::new();
    for c in it: s.chars()
        invariant
            it.seq() == s@,
            v@ == it.seq().take(it.index() as int),
    {
        v.push(c);
    }
    v
}


/// Index of the first occurrence of `c` in `s` at or after `from`.
pub open spec fn find_char(s: Seq<char>, from: int, c: char) -> Option<int>
    decreases s.len() - from,
{
    if from < 0 || from >= s.len() {
        None
    } else if s[from] == c {
        Some(from)
    } else {
        find_char(s, from + 1, c)
    }
}

/// What `find_char` returns lies in `[from, s.len())` and holds `c`.
pub proof fn lemma_find_char_bounds(s: Seq<char>, from: int, c: char)
    ensures
        find_char(s, from, c) matches Some(j) ==> from <= j < s.len() && s[j] == c,
    decreases s.len() - from,
{
    if 0 <= from < s.len() && s[from] != c {
        lemma_find_char_bounds(s, from + 1, c);
    }
}

/// Exec search for `c` in `chars` from position `from`.
pub(crate) fn find_char_from(chars: &Vec<char>, from: usize, c: char) -> (r: Option<usize>)
    requires
        from <= chars@.len(),
    ensures
        match r {
            Some(j) => find_char(chars@, from as int, c) == Some(j as int),
            None => find_char(chars@, from as int, c) is None,
        },
{
    let n = chars.len();
    let mut k = from;
    while k < n
        invariant
            n == chars@.len(),
            from <= k <= n,
            find_char(chars@, from as int, c) == find_char(chars@, k as int, c),
        decreases n - k,
    {
        if chars[k] == c {
            return Some(k);
        }
        k = k + 1;
    }
    None
}


/// `find_char` finds the first `c` at or after `from`: when none of
/// `s[from..to)` is `c` and `s[to]` is, it finds `to`.
pub proof fn lemma_find_char_at(s: Seq<char>, from: int, to: int, c: char)
    requires
        0 <= from <= to < s.len(),
        s[to] == c,
        forall|k: int| from <= k < to ==> s[k] != c,
    ensures
        find_char(s, from, c) == Some(to),
    decreases to - from,
{
    if from < to {
        lemma_find_char_at(s, from + 1, to, c);
    }
}

/// `find_char` finds nothing when no character from `from` on is `c`.
pub proof fn lemma_find_char_absent(s: Seq<char>, from: int, c: char)
    requires
        0 <= from,
        forall|k: int| from <= k < s.len() ==> s[k] != c,
    ensures
        find_char(s, from, c) is None,
    decreases s.len() - from,
{
    if from < s.len() {
        lemma_find_char_absent(s, from + 1, c);
    }
}


/// Searching `p + t` from a position inside `t` finds what searching `t`
/// finds, shifted by the length of `p`.
pub proof fn lemma_find_char_shift(p: Seq<char>, t: Seq<char>, i: int, c: char)
    requires
        0 <= i,
    ensures
        find_char(p + t, p.len() + i, c) == match find_char(t, i, c) {
            Some(j) => Some(p.len() + j),
            None => None::<int>,
        },
    decreases t.len() - i,
{
    let s = p + t;
    if i < t.len() {
        assert(s[p.len() + i] == t[i]);
        if t[i] != c {
            lemma_find_char_shift(p, t, i + 1, c);
        }
    }
}


/// No `c` lies between `from` and what `find_char` finds.
pub proof fn lemma_find_char_first(s: Seq<char>, from: int, c: char)
    requires
        0 <= from,
    ensures
        find_char(s, from, c) matches Some(j) ==> forall|k: int| from <= k < j ==> s[k] != c,
    decreases s.len() - from,
{
    if from < s.len() && s[from] != c {
        lemma_find_char_first(s, from + 1, c);
    }
}

} // verus!
