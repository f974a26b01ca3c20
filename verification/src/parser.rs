//! The parser: collects every numeric token of a text, in order of
//! occurrence, and assigns the first three to the x, y and z fields.
//!
//! Scanning is leftmost and greedy: at each position the longest viable
//! digit-or-minus run is taken, then one free character, then the maximal
//! digit run; the next scan resumes right after the token. A text with more
//! than three tokens is rejected; missing trailing fields stay unset.

use vstd::prelude::*;
use vstd::string::StrSliceExecFns;

use crate::pattern::digit;
use crate::pattern::dash_run_len;
use crate::pattern::lemma_dash_run_bounds;
use crate::pattern::lemma_digit_run_covers;
use crate::pattern::lemma_digit_run_bounds;
use crate::pattern::is_digit_char;
use crate::pattern::dash_run_at;
use crate::pattern::digit_run_at;
use crate::pattern::chars_of;
use crate::validate::z_cand;
use crate::validate::z_tail;
use crate::validate::token_end_at;
use crate::validate::lemma_z_tail_iff;

verus! {

/// The largest free-character position in `(i, p]` that completes a token at
/// `i`, or `i` itself when none does. Scanning prefers the longest leading
/// run, so the largest position wins.
pub open spec fn pick_p(s: Seq<char>, i: int, p: int) -> int
    decreases p - i,
{
    if p <= i {
        i
    } else if z_cand(s, i, p) {
        p
    } else {
        pick_p(s, i, p - 1)
    }
}

/// The free-character position of the token scanned at `i`, or `i` when no
/// token starts at `i`.
pub open spec fn token_p(s: Seq<char>, i: int) -> int {
    pick_p(s, i, i + dash_run_len(s, i))
}

/// A token starts at `i`.
pub open spec fn starts_token(s: Seq<char>, i: int) -> bool {
    token_p(s, i) > i
}

/// Where the token scanned at `i` ends.
pub open spec fn token_end(s: Seq<char>, i: int) -> int {
    token_end_at(s, token_p(s, i))
}

/// What `pick_p` returns: the largest completing position in `(i, p]`, and
/// `i` exactly when there is none.
pub proof fn lemma_pick_p(s: Seq<char>, i: int, p: int)
    requires
        i <= p,
    ensures
        i <= pick_p(s, i, p) <= p,
        pick_p(s, i, p) > i ==> z_cand(s, i, pick_p(s, i, p)),
        forall|q: int| pick_p(s, i, p) < q <= p ==> !z_cand(s, i, q),
    decreases p - i,
{
    if p > i && !z_cand(s, i, p) {
        lemma_pick_p(s, i, p - 1);
    }
}

/// A token starts at `i` exactly when a token range starts there.
pub proof fn lemma_starts_token_iff(s: Seq<char>, i: int)
    requires
        0 <= i <= s.len(),
    ensures
        starts_token(s, i) <==> z_tail(s, i),
{
    lemma_dash_run_bounds(s, i);
    lemma_pick_p(s, i, i + dash_run_len(s, i));
    lemma_z_tail_iff(s, i);
    if z_tail(s, i) {
        let q = choose|q: int| z_cand(s, i, q);
        assert(i + 1 <= q <= i + dash_run_len(s, i));
        assert(starts_token(s, i));
    }
    if starts_token(s, i) {
        assert(z_cand(s, i, token_p(s, i)));
    }
}

/// The position of the first token at or after `pos`, or the length of `s`
/// when no further token starts.
pub open spec fn next_token_start(s: Seq<char>, pos: int) -> int
    decreases s.len() - pos,
{
    if !(0 <= pos < s.len()) {
        s.len() as int
    } else if starts_token(s, pos) {
        pos
    } else {
        next_token_start(s, pos + 1)
    }
}

/// What `next_token_start` returns: the first starting position, with no
/// token before it.
pub proof fn lemma_next_token_start(s: Seq<char>, pos: int)
    requires
        0 <= pos <= s.len(),
    ensures
        pos <= next_token_start(s, pos) <= s.len(),
        next_token_start(s, pos) < s.len() ==> starts_token(s, next_token_start(s, pos)),
        forall|q: int| pos <= q < next_token_start(s, pos) ==> !starts_token(s, q),
    decreases s.len() - pos,
{
    if pos < s.len() && !starts_token(s, pos) {
        lemma_next_token_start(s, pos + 1);
    }
}

/// Every numeric token of `s` at or after `pos`, in order of occurrence.
pub open spec fn tokens_from(s: Seq<char>, pos: int) -> Seq<Seq<char>>
    decreases s.len() - pos,
{
    let i = next_token_start(s, pos);
    if !(pos <= i && i < s.len()) {
        Seq::empty()
    } else {
        let e = token_end(s, i);
        if !(i < e && e <= s.len()) {
            Seq::empty()
        } else {
            seq![s.subrange(i, e)] + tokens_from(s, e)
        }
    }
}

/// The token scanned at `i` covers at least three characters and stays inside
/// `s`.
pub proof fn lemma_token_end_bounds(s: Seq<char>, i: int)
    requires
        0 <= i <= s.len(),
        starts_token(s, i),
    ensures
        i + 3 <= token_end(s, i) <= s.len(),
{
    lemma_dash_run_bounds(s, i);
    lemma_pick_p(s, i, i + dash_run_len(s, i));
    let p = token_p(s, i);
    assert(z_cand(s, i, p));
    lemma_digit_run_covers(s, p + 1, p + 2);
    lemma_digit_run_bounds(s, p + 1);
}

/// A position where no token starts contributes nothing to the token list.
pub proof fn lemma_tokens_from_skip(s: Seq<char>, pos: int)
    requires
        0 <= pos < s.len(),
        !starts_token(s, pos),
    ensures
        tokens_from(s, pos) == tokens_from(s, pos + 1),
{
    lemma_next_token_start(s, pos);
    lemma_next_token_start(s, pos + 1);
    assert(next_token_start(s, pos) == next_token_start(s, pos + 1));
}

/// At a position where a token starts, the token list opens with that token.
pub proof fn lemma_tokens_from_here(s: Seq<char>, pos: int)
    requires
        0 <= pos < s.len(),
        starts_token(s, pos),
    ensures
        pos + 3 <= token_end(s, pos) <= s.len(),
        tokens_from(s, pos) == seq![s.subrange(pos, token_end(s, pos))] + tokens_from(
            s,
            token_end(s, pos),
        ),
{
    lemma_token_end_bounds(s, pos);
    assert(next_token_start(s, pos) == pos);
}

/// The first token at or after `pos` opens the token list from `pos`.
pub proof fn lemma_tokens_from_at(s: Seq<char>, pos: int, i: int)
    requires
        0 <= pos <= i < s.len(),
        starts_token(s, i),
        forall|q: int| pos <= q < i ==> !starts_token(s, q),
    ensures
        i + 3 <= token_end(s, i) <= s.len(),
        tokens_from(s, pos) == seq![s.subrange(i, token_end(s, i))] + tokens_from(
            s,
            token_end(s, i),
        ),
    decreases i - pos,
{
    if pos == i {
        lemma_tokens_from_here(s, pos);
    } else {
        assert(!starts_token(s, pos));
        lemma_tokens_from_skip(s, pos);
        lemma_tokens_from_at(s, pos + 1, i);
    }
}

/// Past the end of `s` the token list is empty.
pub proof fn lemma_tokens_from_end(s: Seq<char>, pos: int)
    requires
        pos >= s.len(),
    ensures
        tokens_from(s, pos) == Seq::<Seq<char>>::empty(),
{
    assert(next_token_start(s, pos) == s.len());
}

/// Finds the free-character position of the token scanned at `i`, or returns
/// `i` when no token starts there.
fn token_p_at(cs: &Vec<char>, i: usize) -> (p: usize)
    requires
        i <= cs.len(),
    ensures
        p == token_p(cs@, i as int),
        i <= p,
        p > i ==> z_cand(cs@, i as int, p as int),
{
    let kmax = dash_run_at(cs, i);
    proof {
        lemma_pick_p(cs@, i as int, i + kmax as int);
    }
    let mut p: usize = i + kmax;
    while p > i
        invariant
            i <= p <= i + kmax,
            i + kmax <= cs.len(),
            kmax == dash_run_len(cs@, i as int),
            token_p(cs@, i as int) == pick_p(cs@, i as int, p as int),
        decreases p - i,
    {
        let mut hit = false;
        if p < cs.len() {
            if cs[p] != '\n' && p + 1 < cs.len() && is_digit_char(cs[p + 1]) {
                hit = true;
            }
        }
        if hit {
            proof {
                assert(z_cand(cs@, i as int, p as int));
            }
            return p;
        }
        proof {
            assert(!z_cand(cs@, i as int, p as int));
        }
        p = p - 1;
    }
    proof {
        assert(pick_p(cs@, i as int, i as int) == i);
    }
    i
}

/// Collects every numeric token of the text, in order of occurrence.
fn scan_tokens(src: &str, cs: &Vec<char>) -> (toks: Vec<String>)
    requires
        cs@ == src@,
    ensures
        toks.deep_view() == tokens_from(src@, 0),
{
    let n = cs.len();
    let mut toks: Vec<String> = Vec::new();
    let mut pos: usize = 0;
    while pos < n
        invariant
            cs@ == src@,
            n == cs.len(),
            pos <= n,
            tokens_from(cs@, 0) == toks.deep_view() + tokens_from(cs@, pos as int),
        decreases n - pos,
    {
        let p = token_p_at(cs, pos);
        if p == pos {
            proof {
                lemma_dash_run_bounds(cs@, pos as int);
                lemma_pick_p(cs@, pos as int, pos + dash_run_len(cs@, pos as int));
                lemma_tokens_from_skip(cs@, pos as int);
            }
            pos = pos + 1;
        } else {
            let m = digit_run_at(cs, p + 1);
            let e = p + 1 + m;
            proof {
                lemma_tokens_from_here(cs@, pos as int);
                assert(e == token_end(cs@, pos as int));
            }
            let t = src.substring_char(pos, e);
            let ghost old_deep = toks.deep_view();
            toks.push(t.to_owned());
            proof {
                assert(toks.deep_view() =~= old_deep.push(cs@.subrange(pos as int, e as int)));
                assert(old_deep + (seq![cs@.subrange(pos as int, e as int)] + tokens_from(
                    cs@,
                    e as int,
                )) =~= toks.deep_view() + tokens_from(cs@, e as int));
            }
            pos = e;
        }
    }
    proof {
        lemma_tokens_from_end(cs@, pos as int);
        assert(toks.deep_view() + tokens_from(cs@, pos as int) =~= toks.deep_view());
    }
    toks
}

/// A parsed coordinate: the x, y and z numeric tokens of the text, by order
/// of occurrence. A field left unset by a text with fewer than three tokens
/// stands for the default value of zero.
#[derive(Debug, Clone)]
pub struct Coordinate {
    pub x: Option<String>,
    pub y: Option<String>,
    pub z: Option<String>,
}

/// The text of a coordinate field, when the field was found.
pub open spec fn field_sp(o: Option<String>) -> Option<Seq<char>> {
    match o {
        Option::Some(s) => Option::Some(s@),
        Option::None => Option::None,
    }
}

/// Compares two coordinate fields by their text.
fn field_eq(a: &Option<String>, b: &Option<String>) -> (r: bool)
    ensures
        r == (field_sp(*a) == field_sp(*b)),
{
    match (a, b) {
        (Option::Some(x), Option::Some(y)) => *x == *y,
        (Option::None, Option::None) => true,
        _ => false,
    }
}

impl PartialEq for Coordinate {
    /// Coordinates are equal exactly when their fields carry the same text.
    fn eq(&self, other: &Self) -> (r: bool) {
        field_eq(&self.x, &other.x) && field_eq(&self.y, &other.y) && field_eq(&self.z, &other.z)
    }
}

impl vstd::std_specs::cmp::PartialEqSpecImpl for Coordinate {
    open spec fn obeys_eq_spec() -> bool {
        true
    }

    open spec fn eq_spec(&self, other: &Coordinate) -> bool {
        &&& field_sp(self.x) == field_sp(other.x)
        &&& field_sp(self.y) == field_sp(other.y)
        &&& field_sp(self.z) == field_sp(other.z)
    }
}

/// The failure of the parser: the text decomposed into more than three
/// numeric tokens.
#[derive(Debug, Clone, PartialEq, Eq, Structural)]
pub struct ParsingError;

impl ParsingError {
    /// A short account of the failure.
    pub fn message(&self) -> (r: &'static str)
        ensures
            r@ == "Parsing error"@,
    {
        "Parsing error"
    }
}

/// Extracts the coordinate carried by the text: its numeric tokens, in order
/// of occurrence, fill x, then y, then z. More than three tokens is an error;
/// fewer leave the remaining fields unset.
pub fn parse_coordinate(input: &str) -> (r: Result<Coordinate, ParsingError>)
    ensures
        ({
            let toks = tokens_from(input@, 0);
            &&& (r is Err) <==> toks.len() > 3
            &&& (r matches Ok(c) ==> {
                &&& field_sp(c.x) == (if toks.len() >= 1 {
                    Option::Some(toks[0])
                } else {
                    Option::<Seq<char>>::None
                })
                &&& field_sp(c.y) == (if toks.len() >= 2 {
                    Option::Some(toks[1])
                } else {
                    Option::<Seq<char>>::None
                })
                &&& field_sp(c.z) == (if toks.len() >= 3 {
                    Option::Some(toks[2])
                } else {
                    Option::<Seq<char>>::None
                })
            })
        }),
{
    let cs = chars_of(input);
    let toks = scan_tokens(input, &cs);
    proof {
        assert(toks.deep_view().len() == toks@.len());
    }
    if toks.len() > 3 {
        return Result::Err(ParsingError);
    }
    let x = if toks.len() >= 1 {
        proof {
            assert(toks@[0]@ == toks.deep_view()[0]);
        }
        Option::Some(toks[0].clone())
    } else {
        Option::None
    };
    let y = if toks.len() >= 2 {
        proof {
            assert(toks@[1]@ == toks.deep_view()[1]);
        }
        Option::Some(toks[1].clone())
    } else {
        Option::None
    };
    let z = if toks.len() >= 3 {
        proof {
            assert(toks@[2]@ == toks.deep_view()[2]);
        }
        Option::Some(toks[2].clone())
    } else {
        Option::None
    };
    Result::Ok(Coordinate { x, y, z })
}

} // verus!
