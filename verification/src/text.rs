//! Small verified helpers on strings, stated over their character sequences.

use vstd::prelude::*;
use vstd::string::*;

verus! {

/// The concatenation of two strings.
pub fn join2(a: &str, b: &str) -> (r: String)
    ensures
        r@ == a@ + b@,
{
    let mut r = String::from_str(a);
    r.append(b);
    r
}

/// The concatenation of three strings.
pub fn join3(a: &str, b: &str, c: &str) -> (r: String)
    ensures
        r@ == a@ + b@ + c@,
{
    let mut r = String::from_str(a);
    r.append(b);
    r.append(c);
    r
}

/// Whether two strings hold the same characters.
pub fn same(a: &str, b: &str) -> (r: bool)
    ensures
        r == (a@ == b@),
{
    let x = String::from_str(a);
    let y = String::from_str(b);
    x == y
}

/// `s` with every occurrence of `from` replaced by `to`.
pub open spec fn replaced(s: Seq<char>, from: char, to: char) -> Seq<char> {
    Seq::new(s.len(), |i: int| if s[i] == from { to } else { s[i] })
}

/// `s` with every `from` replaced by the one character that `to` holds.
pub(crate) fn replace_char(s: &str, from: char, to: &str) -> (r: String)
    requires
        to@.len() == 1,
    ensures
        r@ == replaced(s@, from, to@[0]),
{
    let n = s.unicode_len();
    let mut r = String::new();
    let mut i: usize = 0;
    while i < n
        invariant
            n == s@.len(),
            to@.len() == 1,
            i <= n,
            r@ == replaced(s@, from, to@[0]).subrange(0, i as int),
        decreases n - i,
    {
        let c = s.get_char(i);
        if c == from {
            r.append(to);
            assert(to@ =~= seq![to@[0]]);
        } else {
            let piece = s.substring_char(i, i + 1);
            r.append(piece);
            assert(piece@ =~= seq![s@[i as int]]);
        }
        i = i + 1;
        assert(r@ =~= replaced(s@, from, to@[0]).subrange(0, i as int));
    }
    assert(r@ =~= replaced(s@, from, to@[0]));
    r
}

/// The least index at or after `start` where `s` holds `c`, or the length
/// of `s` where it holds none there.
pub open spec fn first_at(s: Seq<char>, c: char, start: int) -> int
    decreases s.len() - start,
{
    if start < 0 || start >= s.len() {
        s.len() as int
    } else if s[start] == c {
        start
    } else {
        first_at(s, c, start + 1)
    }
}

/// `first_at` is where the character first occurs: nothing before it matches.
pub proof fn lemma_first_at(s: Seq<char>, c: char, start: int)
    requires
        0 <= start <= s.len(),
    ensures
        start <= first_at(s, c, start) <= s.len(),
        first_at(s, c, start) < s.len() ==> s[first_at(s, c, start)] == c,
        forall|k: int| start <= k < first_at(s, c, start) ==> s[k] != c,
    decreases s.len() - start,
{
    if start < s.len() && s[start] != c {
        lemma_first_at(s, c, start + 1);
    }
}

/// Where nothing matches from `start` up to `j`, the first match at or after
/// `start` is `j` itself if it matches there or is the end.
pub proof fn lemma_first_at_is(s: Seq<char>, c: char, start: int, j: int)
    requires
        0 <= start <= j <= s.len(),
        forall|k: int| start <= k < j ==> s[k] != c,
        j == s.len() || s[j] == c,
    ensures
        first_at(s, c, start) == j,
    decreases j - start,
{
    if start < j {
        lemma_first_at_is(s, c, start + 1, j);
    }
}

/// Finds the first `c` in `s` at or after `start`.
pub fn find_char(s: &str, c: char, start: usize) -> (r: usize)
    ensures
        r == first_at(s@, c, start as int),
        r <= s@.len(),
        start <= s@.len() ==> start <= r,
{
    let n = s.unicode_len();
    if start >= n {
        return n;
    }
    let mut i: usize = start;
    while i < n
        invariant
            n == s@.len(),
            start <= i <= n,
            first_at(s@, c, start as int) == first_at(s@, c, i as int),
        decreases n - i,
    {
        if s.get_char(i) == c {
            return i;
        }
        i = i + 1;
    }
    i
}

} // verus!
