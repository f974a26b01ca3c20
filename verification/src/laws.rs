//! Laws of the grammar: a well-formed announcement built from three decimal
//! tokens is accepted by the validator, and the parser extracts exactly
//! those three tokens, in order.

use vstd::prelude::*;

use crate::pattern::digit;
use crate::pattern::run_char;
use crate::pattern::free_char;
use crate::pattern::dash_run_len;
use crate::pattern::token_split;
use crate::pattern::token_range;
use crate::pattern::lit_at;
use crate::pattern::header;
use crate::pattern::y_label;
use crate::pattern::z_label;
use crate::pattern::lemma_dash_run_exact;
use crate::pattern::lemma_digit_run_exact;
use crate::validate::z_cand;
use crate::validate::token_end_at;
use crate::validate::z_tail;
use crate::validate::y_tail;
use crate::validate::x_tail;
use crate::validate::announcement_at;
use crate::validate::contains_announcement;
use crate::parser::pick_p;
use crate::parser::token_p;
use crate::parser::starts_token;
use crate::parser::token_end;
use crate::parser::tokens_from;
use crate::parser::lemma_tokens_from_at;
use crate::parser::lemma_tokens_from_end;

verus! {

/// Where the digits of a decimal token begin: after a leading minus sign,
/// if any.
pub open spec fn decimal_start(t: Seq<char>) -> int {
    if t.len() > 0 && t[0] == '-' {
        1
    } else {
        0
    }
}

/// `t` is a decimal token whose point stands at `q`: an optional minus sign,
/// one or more digits, a point, one or more digits.
pub open spec fn decimal_split(t: Seq<char>, q: int) -> bool {
    &&& decimal_start(t) + 1 <= q
    &&& q + 2 <= t.len()
    &&& (forall|u: int| decimal_start(t) <= u < q ==> digit(t[u]))
    &&& t[q] == '.'
    &&& (forall|u: int| q + 1 <= u < t.len() ==> digit(t[u]))
}

/// `t` is a decimal token.
pub open spec fn decimal_token(t: Seq<char>) -> bool {
    exists|q: int| decimal_split(t, q)
}

/// A well-formed announcement: the marker, then the three given tokens
/// under their labels.
pub open spec fn announcement_text(a: Seq<char>, b: Seq<char>, c: Seq<char>) -> Seq<char> {
    header() + a + y_label() + b + z_label() + c
}

/// Where each piece of a well-formed announcement stands.
proof fn lemma_layout(a: Seq<char>, b: Seq<char>, c: Seq<char>)
    ensures
        ({
            let s = announcement_text(a, b, c);
            let la = a.len() as int;
            let lb = b.len() as int;
            let lc = c.len() as int;
            &&& s.len() == 21 + la + lb + lc
            &&& (forall|u: int| 0 <= u < 15 ==> s[u] == header()[u])
            &&& (forall|u: int| 0 <= u < la ==> s[15 + u] == a[u])
            &&& (forall|u: int| 0 <= u < 3 ==> s[15 + la + u] == y_label()[u])
            &&& (forall|u: int| 0 <= u < lb ==> s[18 + la + u] == b[u])
            &&& (forall|u: int| 0 <= u < 3 ==> s[18 + la + lb + u] == z_label()[u])
            &&& (forall|u: int| 0 <= u < lc ==> s[21 + la + lb + u] == c[u])
        }),
{
    let s = announcement_text(a, b, c);
    let la = a.len() as int;
    let lb = b.len() as int;
    assert forall|u: int| 0 <= u < 15 implies s[u] == header()[u] by {}
    assert forall|u: int| 0 <= u < la implies s[15 + u] == a[u] by {}
    assert forall|u: int| 0 <= u < 3 implies s[15 + la + u] == y_label()[u] by {}
    assert forall|u: int| 0 <= u < lb implies s[18 + la + u] == b[u] by {}
    assert forall|u: int| 0 <= u < 3 implies s[18 + la + lb + u] == z_label()[u] by {}
    assert forall|u: int| 0 <= u < c.len() implies s[21 + la + lb + u] == c[u] by {}
}

/// The marker holds no digit and no minus sign.
proof fn lemma_header_not_run()
    ensures
        forall|u: int| 0 <= u < 15 ==> !run_char(#[trigger] header()[u]),
{
    assert forall|u: int| 0 <= u < 15 implies !run_char(#[trigger] header()[u]) by {
        if u == 0 {
        } else if u == 1 {
        } else if u == 2 {
        } else if u == 3 {
        } else if u == 4 {
        } else if u == 5 {
        } else if u == 6 {
        } else if u == 7 {
        } else if u == 8 {
        } else if u == 9 {
        } else if u == 10 {
        } else if u == 11 {
        } else if u == 12 {
        } else if u == 13 {
        } else {
            assert(u == 14);
        }
    }
}

/// The labels hold no digit and no minus sign.
proof fn lemma_labels_not_run()
    ensures
        forall|u: int| 0 <= u < 3 ==> !run_char(#[trigger] y_label()[u]),
        forall|u: int| 0 <= u < 3 ==> !run_char(#[trigger] z_label()[u]),
{
    assert forall|u: int| 0 <= u < 3 implies !run_char(#[trigger] y_label()[u]) && !run_char(
        #[trigger] z_label()[u],
    ) by {
        if u == 0 {
        } else if u == 1 {
        } else {
            assert(u == 2);
        }
    }
}

/// Scanning at the start of an embedded decimal token takes exactly that
/// token: the leading run stops at the point, the digit run at the token's
/// end.
proof fn lemma_scan_decimal(s: Seq<char>, i: int, t: Seq<char>, q: int)
    requires
        decimal_split(t, q),
        0 <= i,
        i + t.len() <= s.len(),
        forall|u: int| 0 <= u < t.len() ==> s[i + u] == t[u],
        i + t.len() < s.len() ==> !digit(s[i + t.len()]),
    ensures
        starts_token(s, i),
        token_p(s, i) == i + q,
        token_end(s, i) == i + t.len(),
        token_split(s, i, i + t.len(), i + q),
        token_range(s, i, i + t.len()),
        s.subrange(i, i + t.len()) =~= t,
{
    let lt = t.len() as int;
    let ds = decimal_start(t);
    assert forall|u: int| i <= u < i + q implies run_char(s[u]) by {
        assert(s[u] == t[u - i]);
        if u - i < ds {
            assert(t[0] == '-');
        } else {
            assert(digit(t[u - i]));
        }
    }
    assert(s[i + q] == t[q]);
    assert(!run_char(s[i + q]));
    lemma_dash_run_exact(s, i, q);
    assert forall|u: int| i + q + 1 <= u < i + lt implies digit(s[u]) by {
        assert(s[u] == t[u - i]);
    }
    lemma_digit_run_exact(s, i + q + 1, lt - q - 1);
    assert(z_cand(s, i, i + q)) by {
        assert(s[i + q + 1] == t[q + 1]);
        assert(digit(t[q + 1]));
        assert(free_char(s[i + q]));
    }
    assert(token_p(s, i) == pick_p(s, i, i + q));
    assert(pick_p(s, i, i + q) == i + q);
    assert(token_end(s, i) == token_end_at(s, i + q));
    assert(token_end_at(s, i + q) == i + q + 1 + (lt - q - 1));
    assert(token_split(s, i, i + lt, i + q));
    assert(token_range(s, i, i + lt));
}

/// No token starts on a character outside the digit-or-minus class.
proof fn lemma_no_token_here(s: Seq<char>, i: int)
    requires
        0 <= i < s.len(),
        !run_char(s[i]),
    ensures
        !starts_token(s, i),
{
    assert(dash_run_len(s, i) == 0);
    assert(pick_p(s, i, i) == i);
}

/// A well-formed announcement scans into exactly its three tokens, each
/// ending where the next label or the text ends.
proof fn lemma_three_scans(a: Seq<char>, b: Seq<char>, c: Seq<char>)
    requires
        decimal_token(a),
        decimal_token(b),
        decimal_token(c),
    ensures
        ({
            let s = announcement_text(a, b, c);
            let la = a.len() as int;
            let lb = b.len() as int;
            let lc = c.len() as int;
            &&& starts_token(s, 15) && token_end(s, 15) == 15 + la
            &&& starts_token(s, 18 + la) && token_end(s, 18 + la) == 18 + la + lb
            &&& starts_token(s, 21 + la + lb) && token_end(s, 21 + la + lb) == 21 + la + lb + lc
            &&& token_range(s, 15, 15 + la)
            &&& token_range(s, 18 + la, 18 + la + lb)
            &&& token_range(s, 21 + la + lb, 21 + la + lb + lc)
            &&& s.subrange(15, 15 + la) == a
            &&& s.subrange(18 + la, 18 + la + lb) == b
            &&& s.subrange(21 + la + lb, 21 + la + lb + lc) == c
        }),
{
    let s = announcement_text(a, b, c);
    let la = a.len() as int;
    let lb = b.len() as int;
    let qa = choose|q: int| decimal_split(a, q);
    let qb = choose|q: int| decimal_split(b, q);
    let qc = choose|q: int| decimal_split(c, q);
    lemma_layout(a, b, c);
    assert(s[15 + la] == y_label()[0]);
    lemma_scan_decimal(s, 15, a, qa);
    assert(s[18 + la + lb] == z_label()[0]);
    lemma_scan_decimal(s, 18 + la, b, qb);
    lemma_scan_decimal(s, 21 + la + lb, c, qc);
}

/// A well-formed announcement is accepted by the validator.
proof fn lemma_announcement_valid(a: Seq<char>, b: Seq<char>, c: Seq<char>)
    requires
        decimal_token(a),
        decimal_token(b),
        decimal_token(c),
    ensures
        contains_announcement(announcement_text(a, b, c)),
{
    let s = announcement_text(a, b, c);
    let la = a.len() as int;
    let lb = b.len() as int;
    lemma_layout(a, b, c);
    lemma_three_scans(a, b, c);
    assert(lit_at(s, 0, header()));
    assert(lit_at(s, 15 + la, y_label()));
    assert(lit_at(s, 18 + la + lb, z_label()));
    assert(z_tail(s, 21 + la + lb)) by {
        assert(token_range(s, 21 + la + lb, 21 + la + lb + c.len()));
    }
    assert(y_tail(s, 18 + la)) by {
        assert(token_range(s, 18 + la, 18 + la + lb) && lit_at(s, 18 + la + lb, z_label())
            && z_tail(s, 18 + la + lb + 3));
    }
    assert(x_tail(s, 15)) by {
        assert(token_range(s, 15, 15 + la) && lit_at(s, 15 + la, y_label()) && y_tail(
            s,
            15 + la + 3,
        ));
    }
    assert(announcement_at(s, 0));
}

/// The token list of a well-formed announcement is exactly its three
/// tokens, in order.
#[verifier::rlimit(100)]
proof fn lemma_announcement_tokens(a: Seq<char>, b: Seq<char>, c: Seq<char>)
    requires
        decimal_token(a),
        decimal_token(b),
        decimal_token(c),
    ensures
        tokens_from(announcement_text(a, b, c), 0) =~= seq![a, b, c],
{
    let s = announcement_text(a, b, c);
    let la = a.len() as int;
    let lb = b.len() as int;
    let lc = c.len() as int;
    lemma_layout(a, b, c);
    lemma_three_scans(a, b, c);
    lemma_header_not_run();
    lemma_labels_not_run();
    assert forall|q: int| 0 <= q < 15 implies !starts_token(s, q) by {
        assert(s[q] == header()[q]);
        lemma_no_token_here(s, q);
    }
    assert forall|q: int| 15 + la <= q < 18 + la implies !starts_token(s, q) by {
        assert(s[q] == y_label()[q - 15 - la]);
        lemma_no_token_here(s, q);
    }
    assert forall|q: int| 18 + la + lb <= q < 21 + la + lb implies !starts_token(s, q) by {
        assert(s[q] == z_label()[q - 18 - la - lb]);
        lemma_no_token_here(s, q);
    }
    lemma_tokens_from_at(s, 0, 15);
    lemma_tokens_from_at(s, 15 + la, 18 + la);
    lemma_tokens_from_at(s, 18 + la + lb, 21 + la + lb);
    lemma_tokens_from_end(s, 21 + la + lb + lc);
    assert(tokens_from(s, 0) =~= seq![a, b, c]);
}

/// A well-formed announcement built from three decimal tokens is accepted by
/// the validator, and its token list is exactly those three tokens, in
/// order. Through the parser's contract, such a text fills x, y and z with
/// the three tokens by position.
pub proof fn lemma_wellformed_announcement(a: Seq<char>, b: Seq<char>, c: Seq<char>)
    requires
        decimal_token(a),
        decimal_token(b),
        decimal_token(c),
    ensures
        contains_announcement(announcement_text(a, b, c)),
        tokens_from(announcement_text(a, b, c), 0) =~= seq![a, b, c],
{
    lemma_announcement_valid(a, b, c);
    lemma_announcement_tokens(a, b, c);
}

} // verus!
