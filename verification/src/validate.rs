//! The validator: decides whether a text contains a coordinate announcement.
//!
//! An announcement is the marker `"Coordinates: x:"` followed by a numeric
//! token, `" y:"`, a numeric token, `" z:"`, and a numeric token, in that
//! exact order and separation, anywhere in the text.

use vstd::prelude::*;

use crate::pattern::digit;
use crate::pattern::free_char;
use crate::pattern::run_char;
use crate::pattern::dash_run_len;
use crate::pattern::digit_run_len;
use crate::pattern::token_split;
use crate::pattern::token_range;
use crate::pattern::lit_at;
use crate::pattern::header;
use crate::pattern::y_label;
use crate::pattern::z_label;
use crate::pattern::lemma_dash_run_bounds;
use crate::pattern::lemma_dash_run_chars;
use crate::pattern::lemma_dash_run_covers;
use crate::pattern::lemma_digit_run_bounds;
use crate::pattern::lemma_digit_run_chars;
use crate::pattern::lemma_digit_run_covers;
use crate::pattern::is_digit_char;
use crate::pattern::dash_run_at;
use crate::pattern::digit_run_at;
use crate::pattern::chars_of;

verus! {

/// A numeric token starts at `c` (the tail of the announcement after `" z:"`).
pub open spec fn z_tail(s: Seq<char>, c: int) -> bool {
    exists|j: int| token_range(s, c, j)
}

/// A numeric token starts at `b`, followed by `" z:"` and a final token.
pub open spec fn y_tail(s: Seq<char>, b: int) -> bool {
    exists|j: int| token_range(s, b, j) && lit_at(s, j, z_label()) && z_tail(s, j + 3)
}

/// A numeric token starts at `a`, followed by `" y:"` and the rest of the
/// announcement.
pub open spec fn x_tail(s: Seq<char>, a: int) -> bool {
    exists|j: int| token_range(s, a, j) && lit_at(s, j, y_label()) && y_tail(s, j + 3)
}

/// A full coordinate announcement stands at position `i` of `s`.
pub open spec fn announcement_at(s: Seq<char>, i: int) -> bool {
    lit_at(s, i, header()) && x_tail(s, i + 15)
}

/// Some position of `s` carries a full coordinate announcement.
pub open spec fn contains_announcement(s: Seq<char>) -> bool {
    exists|i: int| announcement_at(s, i)
}

/// A choice of free-character position `p` that completes a token at `c`.
pub open spec fn z_cand(s: Seq<char>, c: int, p: int) -> bool {
    &&& 0 <= c
    &&& c + 1 <= p <= c + dash_run_len(s, c)
    &&& p + 1 < s.len()
    &&& free_char(s[p])
    &&& digit(s[p + 1])
}

/// Where the token whose free character stands at `p` ends: right after its
/// maximal digit run.
pub open spec fn token_end_at(s: Seq<char>, p: int) -> int {
    p + 1 + digit_run_len(s, p + 1)
}

/// A choice of `p` that completes a token at `b` whose maximal digit run is
/// followed by `" z:"` and a final token.
pub open spec fn y_cand(s: Seq<char>, b: int, p: int) -> bool {
    &&& z_cand(s, b, p)
    &&& lit_at(s, token_end_at(s, p), z_label())
    &&& z_tail(s, token_end_at(s, p) + 3)
}

/// A choice of `p` that completes a token at `a` whose maximal digit run is
/// followed by `" y:"` and the rest of the announcement.
pub open spec fn x_cand(s: Seq<char>, a: int, p: int) -> bool {
    &&& z_cand(s, a, p)
    &&& lit_at(s, token_end_at(s, p), y_label())
    &&& y_tail(s, token_end_at(s, p) + 3)
}

/// A token stands at `c` exactly when some free-character position completes
/// one there.
pub proof fn lemma_z_tail_iff(s: Seq<char>, c: int)
    requires
        0 <= c <= s.len(),
    ensures
        z_tail(s, c) <==> exists|p: int| z_cand(s, c, p),
{
    if z_tail(s, c) {
        let j = choose|j: int| token_range(s, c, j);
        let p = choose|p: int| token_split(s, c, j, p);
        lemma_dash_run_covers(s, c, p);
        assert(digit(s[p + 1]));
        assert(z_cand(s, c, p));
    }
    if exists|p: int| z_cand(s, c, p) {
        let p = choose|p: int| z_cand(s, c, p);
        lemma_dash_run_bounds(s, c);
        assert forall|t: int| c <= t < p implies run_char(s[t]) by {
            lemma_dash_run_chars(s, c, t);
        }
        assert(token_split(s, c, p + 2, p));
        assert(token_range(s, c, p + 2));
    }
}

/// A token at the head of a tail, closed off by a following literal that
/// starts with a blank, ends exactly at its maximal digit run.
proof fn lemma_token_before_lit(s: Seq<char>, c: int, j: int, p: int, lit: Seq<char>)
    requires
        0 <= c,
        token_split(s, c, j, p),
        lit_at(s, j, lit),
        lit.len() > 0,
        lit[0] == ' ',
    ensures
        j == token_end_at(s, p),
        z_cand(s, c, p),
{
    lemma_digit_run_covers(s, p + 1, j);
    assert(s[j] == ' ');
    if j < p + 1 + digit_run_len(s, p + 1) {
        lemma_digit_run_chars(s, p + 1, j);
        assert(digit(s[j]));
        assert(false);
    }
    lemma_dash_run_covers(s, c, p);
}

/// A token followed by `" z:"` and a final token stands at `b` exactly when
/// some free-character position completes the whole arrangement there.
pub proof fn lemma_y_tail_iff(s: Seq<char>, b: int)
    requires
        0 <= b <= s.len(),
    ensures
        y_tail(s, b) <==> exists|p: int| y_cand(s, b, p),
{
    if y_tail(s, b) {
        let j = choose|j: int| token_range(s, b, j) && lit_at(s, j, z_label()) && z_tail(s, j + 3);
        let p = choose|p: int| token_split(s, b, j, p);
        lemma_token_before_lit(s, b, j, p, z_label());
        assert(y_cand(s, b, p));
    }
    if exists|p: int| y_cand(s, b, p) {
        let p = choose|p: int| y_cand(s, b, p);
        let j = token_end_at(s, p);
        lemma_digit_run_bounds(s, p + 1);
        assert forall|t: int| b <= t < p implies run_char(s[t]) by {
            lemma_dash_run_chars(s, b, t);
        }
        assert forall|t: int| p + 1 <= t < j implies digit(s[t]) by {
            lemma_digit_run_chars(s, p + 1, t);
        }
        lemma_digit_run_covers(s, p + 1, p + 2);
        assert(token_split(s, b, j, p));
        assert(token_range(s, b, j));
    }
}

/// A token followed by `" y:"` and the rest of the announcement stands at `a`
/// exactly when some free-character position completes the whole arrangement.
pub proof fn lemma_x_tail_iff(s: Seq<char>, a: int)
    requires
        0 <= a <= s.len(),
    ensures
        x_tail(s, a) <==> exists|p: int| x_cand(s, a, p),
{
    if x_tail(s, a) {
        let j = choose|j: int| token_range(s, a, j) && lit_at(s, j, y_label()) && y_tail(s, j + 3);
        let p = choose|p: int| token_split(s, a, j, p);
        lemma_token_before_lit(s, a, j, p, y_label());
        assert(x_cand(s, a, p));
    }
    if exists|p: int| x_cand(s, a, p) {
        let p = choose|p: int| x_cand(s, a, p);
        let j = token_end_at(s, p);
        lemma_digit_run_bounds(s, p + 1);
        assert forall|t: int| a <= t < p implies run_char(s[t]) by {
            lemma_dash_run_chars(s, a, t);
        }
        assert forall|t: int| p + 1 <= t < j implies digit(s[t]) by {
            lemma_digit_run_chars(s, p + 1, t);
        }
        lemma_digit_run_covers(s, p + 1, p + 2);
        assert(token_split(s, a, j, p));
        assert(token_range(s, a, j));
    }
}

/// Decides whether the three-character literal `[l0, l1, l2]` stands at `j`.
fn lit3_at(cs: &Vec<char>, j: usize, l0: char, l1: char, l2: char) -> (r: bool)
    ensures
        r == lit_at(cs@, j as int, seq![l0, l1, l2]),
{
    if j < cs.len() && cs.len() - j >= 3 {
        let r = cs[j] == l0 && cs[j + 1] == l1 && cs[j + 2] == l2;
        proof {
            let lit = seq![l0, l1, l2];
            if r {
                assert forall|t: int| 0 <= t < lit.len() implies cs@[j + t] == lit[t] by {
                    if t == 0 {
                    } else if t == 1 {
                    } else {
                        assert(t == 2);
                    }
                }
            } else {
                assert(!lit_at(cs@, j as int, lit)) by {
                    if lit_at(cs@, j as int, lit) {
                        assert(cs@[j as int + 0] == lit[0]);
                        assert(cs@[j as int + 1] == lit[1]);
                        assert(cs@[j as int + 2] == lit[2]);
                    }
                }
            }
        }
        r
    } else {
        false
    }
}

/// Decides whether a numeric token starts at `c`.
fn z_tail_at(cs: &Vec<char>, c: usize) -> (r: bool)
    requires
        c <= cs.len(),
    ensures
        r == z_tail(cs@, c as int),
{
    let kmax = dash_run_at(cs, c);
    let mut found = false;
    let mut k: usize = 0;
    while !found && k < kmax
        invariant
            c + kmax <= cs.len(),
            kmax == dash_run_len(cs@, c as int),
            k <= kmax,
            !found ==> forall|q: int| c + 1 <= q <= c + k ==> !z_cand(cs@, c as int, q),
            found ==> (exists|q: int| z_cand(cs@, c as int, q)),
        decreases kmax - k,
    {
        let p = c + k + 1;
        if p < cs.len() {
            let free = cs[p] != '\n';
            if free && p + 1 < cs.len() && is_digit_char(cs[p + 1]) {
                found = true;
                proof {
                    assert(z_cand(cs@, c as int, p as int));
                }
            }
        }
        k = k + 1;
    }
    proof {
        lemma_z_tail_iff(cs@, c as int);
        if !found {
            assert forall|q: int| !z_cand(cs@, c as int, q) by {
                if c + 1 <= q <= c + kmax {
                    assert(!z_cand(cs@, c as int, q));
                }
            }
        }
    }
    found
}

/// Decides whether a numeric token starts at `b`, its maximal digit run
/// followed by `" z:"` and a final token.
fn y_tail_at(cs: &Vec<char>, b: usize) -> (r: bool)
    requires
        b <= cs.len(),
    ensures
        r == y_tail(cs@, b as int),
{
    proof {
        assert(z_label() =~= seq![' ', 'z', ':']);
    }
    let kmax = dash_run_at(cs, b);
    let mut found = false;
    let mut k: usize = 0;
    while !found && k < kmax
        invariant
            b + kmax <= cs.len(),
            kmax == dash_run_len(cs@, b as int),
            k <= kmax,
            !found ==> forall|q: int| b + 1 <= q <= b + k ==> !y_cand(cs@, b as int, q),
            found ==> (exists|q: int| y_cand(cs@, b as int, q)),
        decreases kmax - k,
    {
        let p = b + k + 1;
        if p < cs.len() {
            let free = cs[p] != '\n';
            if free && p + 1 < cs.len() && is_digit_char(cs[p + 1]) {
                let m = digit_run_at(cs, p + 1);
                let e = p + 1 + m;
                if lit3_at(cs, e, ' ', 'z', ':') {
                    if z_tail_at(cs, e + 3) {
                        found = true;
                        proof {
                            assert(y_cand(cs@, b as int, p as int));
                        }
                    }
                }
            }
        }
        k = k + 1;
    }
    proof {
        lemma_y_tail_iff(cs@, b as int);
        if !found {
            assert forall|q: int| !y_cand(cs@, b as int, q) by {
                if b + 1 <= q <= b + kmax {
                    assert(!y_cand(cs@, b as int, q));
                }
            }
        }
    }
    found
}

/// Decides whether a numeric token starts at `a`, its maximal digit run
/// followed by `" y:"` and the rest of the announcement.
fn x_tail_at(cs: &Vec<char>, a: usize) -> (r: bool)
    requires
        a <= cs.len(),
    ensures
        r == x_tail(cs@, a as int),
{
    proof {
        assert(y_label() =~= seq![' ', 'y', ':']);
    }
    let kmax = dash_run_at(cs, a);
    let mut found = false;
    let mut k: usize = 0;
    while !found && k < kmax
        invariant
            a + kmax <= cs.len(),
            kmax == dash_run_len(cs@, a as int),
            k <= kmax,
            !found ==> forall|q: int| a + 1 <= q <= a + k ==> !x_cand(cs@, a as int, q),
            found ==> (exists|q: int| x_cand(cs@, a as int, q)),
        decreases kmax - k,
    {
        let p = a + k + 1;
        if p < cs.len() {
            let free = cs[p] != '\n';
            if free && p + 1 < cs.len() && is_digit_char(cs[p + 1]) {
                let m = digit_run_at(cs, p + 1);
                let e = p + 1 + m;
                if lit3_at(cs, e, ' ', 'y', ':') {
                    if y_tail_at(cs, e + 3) {
                        found = true;
                        proof {
                            assert(x_cand(cs@, a as int, p as int));
                        }
                    }
                }
            }
        }
        k = k + 1;
    }
    proof {
        lemma_x_tail_iff(cs@, a as int);
        if !found {
            assert forall|q: int| !x_cand(cs@, a as int, q) by {
                if a + 1 <= q <= a + kmax {
                    assert(!x_cand(cs@, a as int, q));
                }
            }
        }
    }
    found
}

/// Decides whether the marker `"Coordinates: x:"` stands at `i`.
fn header_at(cs: &Vec<char>, i: usize) -> (r: bool)
    ensures
        r == lit_at(cs@, i as int, header()),
{
    if i < cs.len() && cs.len() - i >= 15 {
        let r = cs[i] == 'C' && cs[i + 1] == 'o' && cs[i + 2] == 'o' && cs[i + 3] == 'r'
            && cs[i + 4] == 'd' && cs[i + 5] == 'i' && cs[i + 6] == 'n' && cs[i + 7] == 'a'
            && cs[i + 8] == 't' && cs[i + 9] == 'e' && cs[i + 10] == 's' && cs[i + 11] == ':'
            && cs[i + 12] == ' ' && cs[i + 13] == 'x' && cs[i + 14] == ':';
        proof {
            let lit = header();
            if r {
                assert forall|t: int| 0 <= t < lit.len() implies cs@[i + t] == lit[t] by {
                    if t == 0 {
                    } else if t == 1 {
                    } else if t == 2 {
                    } else if t == 3 {
                    } else if t == 4 {
                    } else if t == 5 {
                    } else if t == 6 {
                    } else if t == 7 {
                    } else if t == 8 {
                    } else if t == 9 {
                    } else if t == 10 {
                    } else if t == 11 {
                    } else if t == 12 {
                    } else if t == 13 {
                    } else {
                        assert(t == 14);
                    }
                }
            } else {
                assert(!lit_at(cs@, i as int, lit)) by {
                    if lit_at(cs@, i as int, lit) {
                        assert forall|t: int| 0 <= t < lit.len() implies cs@[i + t] == lit[t] by {}
                        assert(cs@[i + 0] == lit[0]);
                        assert(cs@[i + 1] == lit[1]);
                        assert(cs@[i + 2] == lit[2]);
                        assert(cs@[i + 3] == lit[3]);
                        assert(cs@[i + 4] == lit[4]);
                        assert(cs@[i + 5] == lit[5]);
                        assert(cs@[i + 6] == lit[6]);
                        assert(cs@[i + 7] == lit[7]);
                        assert(cs@[i + 8] == lit[8]);
                        assert(cs@[i + 9] == lit[9]);
                        assert(cs@[i + 10] == lit[10]);
                        assert(cs@[i + 11] == lit[11]);
                        assert(cs@[i + 12] == lit[12]);
                        assert(cs@[i + 13] == lit[13]);
                        assert(cs@[i + 14] == lit[14]);
                    }
                }
            }
        }
        r
    } else {
        false
    }
}

/// Decides whether the text contains a coordinate announcement: the marker
/// `"Coordinates: x:"` followed by three numeric tokens under the `x:`, `y:`
/// and `z:` labels, in that exact order and separation.
pub fn is_valid(input: &str) -> (r: bool)
    ensures
        r == contains_announcement(input@),
{
    let cs = chars_of(input);
    let n = cs.len();
    let mut found = false;
    let mut i: usize = 0;
    while !found && i < n
        invariant
            n == cs.len(),
            cs@ == input@,
            i <= n,
            !found ==> forall|q: int| 0 <= q < i ==> !announcement_at(cs@, q),
            found ==> contains_announcement(cs@),
        decreases n - i,
    {
        if header_at(&cs, i) {
            if x_tail_at(&cs, i + 15) {
                found = true;
                proof {
                    assert(announcement_at(cs@, i as int));
                }
            }
        }
        i = i + 1;
    }
    proof {
        if !found {
            assert forall|q: int| !announcement_at(cs@, q) by {
                if 0 <= q < n {
                    assert(!announcement_at(cs@, q));
                }
            }
        }
    }
    found
}

} // verus!
