//! Reduction of a version range token to the version it names.
//!
//! A range is an optional comparison operator, optional white space, and a
//! dotted number. Only the number is kept: the operator is not evaluated.

use vstd::prelude::*;
use vstd::string::*;

verus! {

/// Why a range token was refused.
#[derive(Debug)]
pub enum VersionError {
    /// No number follows the operator and white space; the token is carried
    /// along.
    InvalidVersionRange(String),
}

/// White space, as Unicode defines it.
pub open spec fn is_space(c: char) -> bool {
    let u = c as u32;
    ||| 0x09 <= u <= 0x0d
    ||| u == 0x20
    ||| u == 0x85
    ||| u == 0xa0
    ||| u == 0x1680
    ||| 0x2000 <= u <= 0x200a
    ||| u == 0x2028
    ||| u == 0x2029
    ||| u == 0x202f
    ||| u == 0x205f
    ||| u == 0x3000
}

/// An ASCII digit.
pub open spec fn is_digit(c: char) -> bool {
    0x30 <= c as u32 <= 0x39
}

/// The length of the comparison operator that `s` begins with: 2 for `>=`
/// and `<=`, 1 for `>`, `<`, `=`, `~` and `^`, and 0 without one.
pub open spec fn operator_len(s: Seq<char>) -> int {
    if s.len() >= 2 && (s[0] == '>' || s[0] == '<') && s[1] == '=' {
        2
    } else if s.len() >= 1 && (s[0] == '>' || s[0] == '<' || s[0] == '=' || s[0] == '~' || s[0]
        == '^') {
        1
    } else {
        0
    }
}

/// The end of the run of white space that begins at `i`.
pub open spec fn spaces_end(s: Seq<char>, i: int) -> int
    decreases s.len() - i,
{
    if 0 <= i < s.len() && is_space(s[i]) {
        spaces_end(s, i + 1)
    } else {
        i
    }
}

/// The end of the dotted number of which `i` lies behind a digit: digits are
/// taken one by one, and a dot only together with the digit behind it.
pub open spec fn number_end(s: Seq<char>, i: int) -> int
    decreases s.len() - i,
{
    if 0 <= i < s.len() && is_digit(s[i]) {
        number_end(s, i + 1)
    } else if 0 <= i && i + 1 < s.len() && s[i] == '.' && is_digit(s[i + 1]) {
        number_end(s, i + 2)
    } else {
        i
    }
}

/// The version that a range token names: the longest dotted number behind
/// the operator and the white space, if a digit stands there.
pub open spec fn spec_parse_version(s: Seq<char>) -> Option<Seq<char>> {
    let p = spaces_end(s, operator_len(s));
    if 0 <= p < s.len() && is_digit(s[p]) {
        Some(s.subrange(p, number_end(s, p + 1)))
    } else {
        None
    }
}

fn space(c: char) -> (r: bool)
    ensures
        r == is_space(c),
{
    let u = c as u32;
    (0x09 <= u && u <= 0x0d) || u == 0x20 || u == 0x85 || u == 0xa0 || u == 0x1680 || (0x2000 <= u
        && u <= 0x200a) || u == 0x2028 || u == 0x2029 || u == 0x202f || u == 0x205f || u == 0x3000
}

fn digit(c: char) -> (r: bool)
    ensures
        r == is_digit(c),
{
    let u = c as u32;
    0x30 <= u && u <= 0x39
}

fn operator(s: &str, n: usize) -> (r: usize)
    requires
        n == s@.len(),
    ensures
        r == operator_len(s@),
        r <= n,
{
    if n == 0 {
        return 0;
    }
    let c = s.get_char(0);
    if n >= 2 && (c == '>' || c == '<') && s.get_char(1) == '=' {
        2
    } else if c == '>' || c == '<' || c == '=' || c == '~' || c == '^' {
        1
    } else {
        0
    }
}

/// Reduces a range token to the version it names.
pub fn parse_version(version_str: &str) -> (r: Result<String, VersionError>)
    ensures
        match spec_parse_version(version_str@) {
            Some(v) => r is Ok && r->Ok_0@ == v,
            None => r matches Err(VersionError::InvalidVersionRange(t)) && t@ == version_str@,
        },
{
    let n = version_str.unicode_len();
    let mut p: usize = operator(version_str, n);
    while p < n && space(version_str.get_char(p))
        invariant
            n == version_str@.len(),
            p <= n,
            spaces_end(version_str@, operator_len(version_str@)) == spaces_end(
                version_str@,
                p as int,
            ),
        decreases n - p,
    {
        p = p + 1;
    }
    if p >= n || !digit(version_str.get_char(p)) {
        return Err(VersionError::InvalidVersionRange(String::from_str(version_str)));
    }
    let mut q: usize = p + 1;
    loop
        invariant
            n == version_str@.len(),
            p < q <= n,
            number_end(version_str@, p + 1) == number_end(version_str@, q as int),
        ensures
            q as int == number_end(version_str@, p + 1),
        decreases n - q,
    {
        if q < n && digit(version_str.get_char(q)) {
            q = q + 1;
        } else if q < n - 1 && version_str.get_char(q) == '.' && digit(version_str.get_char(q + 1)) {
            q = q + 2;
        } else {
            break ;
        }
    }
    Ok(String::from_str(version_str.substring_char(p, q)))
}

/// A dotted number: digits in groups that single dots separate.
pub open spec fn is_dotted_number(v: Seq<char>) -> bool {
    &&& v.len() >= 1
    &&& is_digit(v[0])
    &&& is_digit(v[v.len() - 1])
    &&& forall|i: int| 0 <= i < v.len() ==> is_digit(#[trigger] v[i]) || v[i] == '.'
    &&& forall|i: int| 0 <= i < v.len() - 1 ==> !(#[trigger] v[i] == '.' && v[i + 1] == '.')
}

/// One of the comparison operators, or none.
pub open spec fn is_operator(op: Seq<char>) -> bool {
    ||| op == Seq::<char>::empty()
    ||| op == seq!['>', '=']
    ||| op == seq!['<', '=']
    ||| op == seq!['>']
    ||| op == seq!['<']
    ||| op == seq!['=']
    ||| op == seq!['~']
    ||| op == seq!['^']
}

/// Nothing but white space.
pub open spec fn is_blank(ws: Seq<char>) -> bool {
    forall|i: int| 0 <= i < ws.len() ==> is_space(#[trigger] ws[i])
}

/// A text that does not go on with a number that stands before it: it is
/// empty, or begins with neither a digit nor a dot before a digit.
pub open spec fn ends_number(rest: Seq<char>) -> bool {
    rest.len() == 0 || (!is_digit(rest[0]) && !(rest.len() >= 2 && rest[0] == '.' && is_digit(
        rest[1],
    )))
}

proof fn lemma_spaces_run(s: Seq<char>, from: int, to: int)
    requires
        0 <= from <= to <= s.len(),
        forall|i: int| from <= i < to ==> is_space(#[trigger] s[i]),
        to == s.len() || !is_space(s[to]),
    ensures
        spaces_end(s, from) == to,
    decreases to - from,
{
    if from < to {
        lemma_spaces_run(s, from + 1, to);
    }
}

proof fn lemma_number_run(s: Seq<char>, p: int, i: int, q: int)
    requires
        0 <= p < i <= q <= s.len(),
        is_dotted_number(s.subrange(p, q)),
        is_digit(s[i - 1]),
        ends_number(s.subrange(q, s.len() as int)),
    ensures
        number_end(s, i) == q,
    decreases q - i,
{
    let v = s.subrange(p, q);
    if i < q {
        assert(v[i - p] == s[i]);
        if is_digit(s[i]) {
            lemma_number_run(s, p, i + 1, q);
        } else {
            assert(s[i] == '.');
            assert(v[q - p - 1] == s[q - 1]);
            assert(i + 1 < q);
            assert(v[i - p + 1] == s[i + 1]);
            assert(is_digit(s[i + 1]));
            lemma_number_run(s, p, i + 2, q);
        }
    } else {
        let rest = s.subrange(q, s.len() as int);
        if rest.len() > 0 {
            assert(rest[0] == s[q]);
            if rest.len() >= 2 {
                assert(rest[1] == s[q + 1]);
            }
        }
    }
}

proof fn lemma_number_shape(s: Seq<char>, p: int, i: int)
    requires
        0 <= p < i <= s.len(),
        is_dotted_number(s.subrange(p, i)),
    ensures
        i <= number_end(s, i) <= s.len(),
        is_dotted_number(s.subrange(p, number_end(s, i))),
    decreases s.len() - i,
{
    let v = s.subrange(p, i);
    assert(v[i - p - 1] == s[i - 1]);
    if i < s.len() && is_digit(s[i]) {
        let w = s.subrange(p, i + 1);
        assert(w[0] == v[0]);
        assert forall|k: int| 0 <= k < w.len() implies is_digit(#[trigger] w[k]) || w[k] == '.' by {
            if k < v.len() {
                assert(w[k] == v[k]);
            }
        }
        assert forall|k: int| 0 <= k < w.len() - 1 implies !(#[trigger] w[k] == '.' && w[k + 1]
            == '.') by {
            if k < v.len() - 1 {
                assert(w[k] == v[k] && w[k + 1] == v[k + 1]);
            }
        }
        lemma_number_shape(s, p, i + 1);
    } else if i + 1 < s.len() && s[i] == '.' && is_digit(s[i + 1]) {
        let w = s.subrange(p, i + 2);
        assert(w[0] == v[0]);
        assert forall|k: int| 0 <= k < w.len() implies is_digit(#[trigger] w[k]) || w[k] == '.' by {
            if k < v.len() {
                assert(w[k] == v[k]);
            }
        }
        assert forall|k: int| 0 <= k < w.len() - 1 implies !(#[trigger] w[k] == '.' && w[k + 1]
            == '.') by {
            if k < v.len() - 1 {
                assert(w[k] == v[k] && w[k + 1] == v[k + 1]);
            }
        }
        lemma_number_shape(s, p, i + 2);
    }
}

/// What a range is reduced to is a dotted number that stands in the range.
pub proof fn lemma_reduced_is_a_number(s: Seq<char>)
    requires
        spec_parse_version(s) is Some,
    ensures
        is_dotted_number(spec_parse_version(s)->Some_0),
        exists|p: int, q: int|
            0 <= p < q <= s.len() && spec_parse_version(s)->Some_0 == #[trigger] s.subrange(p, q),
{
    let p = spaces_end(s, operator_len(s));
    assert(is_dotted_number(s.subrange(p, p + 1))) by {
        assert(s.subrange(p, p + 1)[0] == s[p]);
    }
    lemma_number_shape(s, p, p + 1);
    assert(spec_parse_version(s)->Some_0 == s.subrange(p, number_end(s, p + 1)));
}

/// Reduction keeps the number and nothing else: of an operator or none,
/// white space or none, a dotted number, and a rest that does not go on
/// with the number, exactly the number is left.
pub proof fn lemma_number_is_kept(op: Seq<char>, ws: Seq<char>, v: Seq<char>, rest: Seq<char>)
    requires
        is_operator(op),
        is_blank(ws),
        is_dotted_number(v),
        ends_number(rest),
    ensures
        spec_parse_version(op + ws + v + rest) == Some(v),
{
    let s = op + ws + v + rest;
    let a = op.len() as int;
    let p = a + ws.len();
    let q = p + v.len();
    assert(forall|i: int| 0 <= i < op.len() ==> s[i] == op[i]);
    assert(forall|i: int| 0 <= i < ws.len() ==> s[a + i] == ws[i]);
    assert(forall|i: int| 0 <= i < v.len() ==> s[p + i] == v[i]);
    assert(s[p] == v[0]);
    if ws.len() > 0 {
        assert(s[a] == ws[0]);
    }
    assert(operator_len(s) == a);
    assert forall|i: int| a <= i < p implies is_space(#[trigger] s[i]) by {
        assert(s[i] == ws[i - a]);
    }
    lemma_spaces_run(s, a, p);
    assert(s.subrange(p, q) =~= v);
    assert(s.subrange(q, s.len() as int) =~= rest);
    lemma_number_run(s, p, p + 1, q);
}

} // verus!
