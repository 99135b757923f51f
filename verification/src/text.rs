//! Character-level helpers for reading wire text: finding the first
//! occurrence of a delimiter and taking the first whitespace-separated
//! token of a line.
use vstd::prelude::*;
use vstd::string::StrSliceExecFns;

verus! {

/// `i` is the index of the first occurrence of `c` in `s`.
pub open spec fn first_index_of(s: Seq<char>, c: char, i: int) -> bool {
    &&& 0 <= i < s.len()
    &&& s[i] == c
    &&& forall|j: int| 0 <= j < i ==> s[j] != c
}

/// A first occurrence is unique.
pub proof fn lemma_first_index_unique(s: Seq<char>, c: char, i: int, j: int)
    requires
        first_index_of(s, c, i),
        first_index_of(s, c, j),
    ensures
        i == j,
{
    if i < j {
        assert(s[i] != c);
    } else if j < i {
        assert(s[j] != c);
    }
}

/// Finds the first occurrence of `c` in `s`, if there is one.
pub fn find_char(s: &str, c: char) -> (r: Option<usize>)
    ensures
        match r {
            Some(i) => first_index_of(s@, c, i as int),
            None => forall|j: int| 0 <= j < s@.len() ==> s@[j] != c,
        },
{
    let n = s.unicode_len();
    let mut i: usize = 0;
    while i < n && s.get_char(i) != c
        invariant
            0 <= i <= n,
            n == s@.len(),
            forall|j: int| 0 <= j < i ==> s@[j] != c,
        decreases n - i,
    {
        i = i + 1;
    }
    if i < n {
        Some(i)
    } else {
        None
    }
}

/// The whitespace that separates fields of a reply line.
pub open spec fn is_space(c: char) -> bool {
    c == ' ' || c == '\t' || c == '\r' || c == '\n'
}

/// `a` is the index of the first non-space character of `s` and `b` the
/// index of the first space after it, each running to the end of `s` when
/// there is no such character.
pub open spec fn token_bounds(s: Seq<char>, a: int, b: int) -> bool {
    &&& 0 <= a <= b <= s.len()
    &&& forall|j: int| 0 <= j < a ==> is_space(#[trigger] s[j])
    &&& forall|j: int| a <= j < b ==> !is_space(#[trigger] s[j])
    &&& (a < s.len() ==> !is_space(s[a]))
    &&& (a == s.len() ==> b == s.len())
    &&& (b < s.len() ==> is_space(s[b]))
}

/// Token bounds are unique.
pub proof fn lemma_token_bounds_unique(s: Seq<char>, a1: int, b1: int, a2: int, b2: int)
    requires
        token_bounds(s, a1, b1),
        token_bounds(s, a2, b2),
    ensures
        a1 == a2,
        b1 == b2,
{
    if a1 < a2 {
        assert(is_space(s[a1]));
    } else if a2 < a1 {
        assert(is_space(s[a2]));
    }
    if b1 < b2 {
        assert(is_space(s[b1]));
        assert(!is_space(s[b1]));
    } else if b2 < b1 {
        assert(is_space(s[b2]));
        assert(!is_space(s[b2]));
    }
}

/// The first whitespace-separated token of `s`: what remains after
/// discarding leading whitespace and everything from the next whitespace
/// on.  Empty when `s` is all whitespace.
pub open spec fn first_token(s: Seq<char>) -> Seq<char> {
    if exists|ab: (int, int)| token_bounds(s, ab.0, ab.1) {
        let ab = choose|ab: (int, int)| token_bounds(s, ab.0, ab.1);
        s.subrange(ab.0, ab.1)
    } else {
        Seq::empty()
    }
}

/// Decides [`is_space`] for one character.
fn space_char(c: char) -> (r: bool)
    ensures
        r == is_space(c),
{
    c == ' ' || c == '\t' || c == '\r' || c == '\n'
}

/// Takes the first whitespace-separated token of `s`.
pub fn take_first_token(s: &str) -> (r: &str)
    ensures
        r@ == first_token(s@),
{
    let n = s.unicode_len();
    let mut a: usize = 0;
    while a < n && space_char(s.get_char(a))
        invariant
            0 <= a <= n,
            n == s@.len(),
            forall|j: int| 0 <= j < a ==> is_space(#[trigger] s@[j]),
        decreases n - a,
    {
        a = a + 1;
    }
    let mut b: usize = a;
    while b < n && !space_char(s.get_char(b))
        invariant
            0 <= a <= b <= n,
            n == s@.len(),
            forall|j: int| 0 <= j < a ==> is_space(#[trigger] s@[j]),
            a < n ==> !is_space(s@[a as int]),
            forall|j: int| a <= j < b ==> !is_space(#[trigger] s@[j]),
        decreases n - b,
    {
        b = b + 1;
    }
    proof {
        let w = (a as int, b as int);
        assert(token_bounds(s@, w.0, w.1));
        let ab = choose|ab: (int, int)| token_bounds(s@, ab.0, ab.1);
        lemma_token_bounds_unique(s@, ab.0, ab.1, a as int, b as int);
    }
    s.substring_char(a, b)
}

} // verus!
