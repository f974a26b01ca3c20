//! Character classes and runs of the numeric-token grammar.
//!
//! A numeric token is a nonempty run of digits or minus signs, one free
//! character (anything but a line break; the decimal point in practice),
//! then a nonempty run of digits.

use vstd::prelude::*;
use vstd::string::StrSliceExecFns;

verus! {

/// A decimal digit.
pub open spec fn digit(c: char) -> bool {
    '0' <= c && c <= '9'
}

/// A character of the leading run of a numeric token: a digit or a minus sign.
pub open spec fn run_char(c: char) -> bool {
    c == '-' || digit(c)
}

/// The single free character between the two runs of a token: anything but a
/// line break.
pub open spec fn free_char(c: char) -> bool {
    c != '\n'
}

/// Length of the maximal run of digit-or-minus characters starting at `i`.
pub open spec fn dash_run_len(s: Seq<char>, i: int) -> int
    decreases s.len() - i,
{
    if i < 0 || i >= s.len() || !run_char(s[i]) {
        0
    } else {
        1 + dash_run_len(s, i + 1)
    }
}

/// Length of the maximal run of digits starting at `i`.
pub open spec fn digit_run_len(s: Seq<char>, i: int) -> int
    decreases s.len() - i,
{
    if i < 0 || i >= s.len() || !digit(s[i]) {
        0
    } else {
        1 + digit_run_len(s, i + 1)
    }
}

/// The maximal digit-or-minus run fits in the sequence.
pub proof fn lemma_dash_run_bounds(s: Seq<char>, i: int)
    requires
        0 <= i <= s.len(),
    ensures
        0 <= dash_run_len(s, i),
        i + dash_run_len(s, i) <= s.len(),
    decreases s.len() - i,
{
    if i < s.len() && run_char(s[i]) {
        lemma_dash_run_bounds(s, i + 1);
    }
}

/// Every character inside the maximal digit-or-minus run is a digit or a minus.
pub proof fn lemma_dash_run_chars(s: Seq<char>, i: int, t: int)
    requires
        0 <= i <= s.len(),
        i <= t < i + dash_run_len(s, i),
    ensures
        run_char(s[t]),
    decreases s.len() - i,
{
    if i < s.len() && run_char(s[i]) && t > i {
        lemma_dash_run_chars(s, i + 1, t);
    }
}

/// A stretch of digit-or-minus characters never reaches past the maximal run.
pub proof fn lemma_dash_run_covers(s: Seq<char>, i: int, p: int)
    requires
        0 <= i <= p <= s.len(),
        forall|t: int| i <= t < p ==> run_char(s[t]),
    ensures
        dash_run_len(s, i) >= p - i,
    decreases p - i,
{
    if p > i {
        assert(run_char(s[i]));
        lemma_dash_run_covers(s, i + 1, p);
        assert(dash_run_len(s, i) == 1 + dash_run_len(s, i + 1));
    } else {
        lemma_dash_run_bounds(s, i);
    }
}

/// A run of digit-or-minus characters closed off by some other character is
/// exactly the maximal run.
pub proof fn lemma_dash_run_exact(s: Seq<char>, i: int, k: int)
    requires
        0 <= i,
        0 <= k,
        i + k <= s.len(),
        forall|t: int| i <= t < i + k ==> run_char(s[t]),
        i + k < s.len() ==> !run_char(s[i + k]),
    ensures
        dash_run_len(s, i) == k,
    decreases k,
{
    if k == 0 {
        assert(dash_run_len(s, i) == 0);
    } else {
        assert(run_char(s[i]));
        lemma_dash_run_exact(s, i + 1, k - 1);
    }
}

/// The maximal digit run fits in the sequence.
pub proof fn lemma_digit_run_bounds(s: Seq<char>, i: int)
    requires
        0 <= i <= s.len(),
    ensures
        0 <= digit_run_len(s, i),
        i + digit_run_len(s, i) <= s.len(),
    decreases s.len() - i,
{
    if i < s.len() && digit(s[i]) {
        lemma_digit_run_bounds(s, i + 1);
    }
}

/// Every character inside the maximal digit run is a digit.
pub proof fn lemma_digit_run_chars(s: Seq<char>, i: int, t: int)
    requires
        0 <= i <= s.len(),
        i <= t < i + digit_run_len(s, i),
    ensures
        digit(s[t]),
    decreases s.len() - i,
{
    if i < s.len() && digit(s[i]) && t > i {
        lemma_digit_run_chars(s, i + 1, t);
    }
}

/// A stretch of digits never reaches past the maximal run.
pub proof fn lemma_digit_run_covers(s: Seq<char>, i: int, p: int)
    requires
        0 <= i <= p <= s.len(),
        forall|t: int| i <= t < p ==> digit(s[t]),
    ensures
        digit_run_len(s, i) >= p - i,
    decreases p - i,
{
    if p > i {
        assert(digit(s[i]));
        lemma_digit_run_covers(s, i + 1, p);
        assert(digit_run_len(s, i) == 1 + digit_run_len(s, i + 1));
    } else {
        lemma_digit_run_bounds(s, i);
    }
}

/// A run of digits closed off by some other character is exactly the maximal
/// run.
pub proof fn lemma_digit_run_exact(s: Seq<char>, i: int, k: int)
    requires
        0 <= i,
        0 <= k,
        i + k <= s.len(),
        forall|t: int| i <= t < i + k ==> digit(s[t]),
        i + k < s.len() ==> !digit(s[i + k]),
    ensures
        digit_run_len(s, i) == k,
    decreases k,
{
    if k == 0 {
        assert(digit_run_len(s, i) == 0);
    } else {
        assert(digit(s[i]));
        lemma_digit_run_exact(s, i + 1, k - 1);
    }
}

/// `s[i..j)` is one numeric token whose free character stands at `p`.
pub open spec fn token_split(s: Seq<char>, i: int, j: int, p: int) -> bool {
    &&& 0 <= i
    &&& i + 1 <= p
    &&& p + 2 <= j
    &&& j <= s.len()
    &&& (forall|t: int| i <= t < p ==> run_char(s[t]))
    &&& free_char(s[p])
    &&& (forall|t: int| p + 1 <= t < j ==> digit(s[t]))
}

/// `s[i..j)` is exactly one numeric token.
pub open spec fn token_range(s: Seq<char>, i: int, j: int) -> bool {
    exists|p: int| token_split(s, i, j, p)
}

/// The literal `lit` occurs in `s` at position `i`.
pub open spec fn lit_at(s: Seq<char>, i: int, lit: Seq<char>) -> bool {
    &&& 0 <= i
    &&& i + lit.len() <= s.len()
    &&& (forall|t: int| 0 <= t < lit.len() ==> s[i + t] == lit[t])
}

/// The fixed marker that announces a coordinate: `"Coordinates: x:"`.
pub open spec fn header() -> Seq<char> {
    seq!['C', 'o', 'o', 'r', 'd', 'i', 'n', 'a', 't', 'e', 's', ':', ' ', 'x', ':']
}

/// The label between the x and y tokens: `" y:"`.
pub open spec fn y_label() -> Seq<char> {
    seq![' ', 'y', ':']
}

/// The label between the y and z tokens: `" z:"`.
pub open spec fn z_label() -> Seq<char> {
    seq![' ', 'z', ':']
}

/// Decides digit membership for one character.
pub fn is_digit_char(c: char) -> (r: bool)
    ensures
        r == digit(c),
{
    '0' <= c && c <= '9'
}

/// Decides digit-or-minus membership for one character.
pub fn is_run_char(c: char) -> (r: bool)
    ensures
        r == run_char(c),
{
    c == '-' || is_digit_char(c)
}

/// Computes the maximal digit-or-minus run length at `i`.
pub fn dash_run_at(cs: &Vec<char>, i: usize) -> (n: usize)
    requires
        i <= cs.len(),
    ensures
        n == dash_run_len(cs@, i as int),
        i + n <= cs.len(),
{
    proof {
        lemma_dash_run_bounds(cs@, i as int);
    }
    let mut e: usize = i;
    while e < cs.len() && is_run_char(cs[e])
        invariant
            i <= e <= cs.len(),
            forall|t: int| i <= t < e ==> run_char(cs@[t]),
        decreases cs.len() - e,
    {
        e = e + 1;
    }
    proof {
        lemma_dash_run_exact(cs@, i as int, e - i);
    }
    e - i
}

/// Computes the maximal digit run length at `i`.
pub fn digit_run_at(cs: &Vec<char>, i: usize) -> (n: usize)
    requires
        i <= cs.len(),
    ensures
        n == digit_run_len(cs@, i as int),
        i + n <= cs.len(),
{
    proof {
        lemma_digit_run_bounds(cs@, i as int);
    }
    let mut e: usize = i;
    while e < cs.len() && is_digit_char(cs[e])
        invariant
            i <= e <= cs.len(),
            forall|t: int| i <= t < e ==> digit(cs@[t]),
        decreases cs.len() - e,
    {
        e = e + 1;
    }
    proof {
        lemma_digit_run_exact(cs@, i as int, e - i);
    }
    e - i
}

/// Collects the characters of a text into a vector, in order.
pub fn chars_of(s: &str) -> (cs: Vec<char>)
    ensures
        cs@ == s@,
{
    let n = s.unicode_len();
    let mut cs: Vec<char> = Vec::new();
    let mut i: usize = 0;
    while i < n
        invariant
            i <= n,
            n == s@.len(),
            cs@ == s@.subrange(0, i as int),
        decreases n - i,
    {
        let c = s.get_char(i);
        cs.push(c);
        proof {
            assert(cs@ =~= s@.subrange(0, i + 1));
        }
        i = i + 1;
    }
    proof {
        assert(cs@ =~= s@);
    }
    cs
}

} // verus!
