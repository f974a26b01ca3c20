//! The tracker: decides, sample by sample, what a newly read text amounts
//! to, and classifies an accepted sample against the previous distance.
//!
//! The tracker keeps the previous raw text and skips a sample equal to it.
//! A changed text is validated and parsed; the caller computes the distance
//! from the fixed reference point and hands the outcome of the comparison
//! with the previous distance back to [`classify`].

use vstd::prelude::*;

use crate::validate::contains_announcement;
use crate::validate::is_valid;
use crate::parser::Coordinate;
use crate::parser::field_sp;
use crate::parser::parse_coordinate;
use crate::parser::tokens_from;

verus! {

/// Movement of the live position relative to the previous sample.
#[derive(Debug, Clone, Copy, PartialEq, Eq, Structural)]
pub enum Trend {
    /// The new distance is strictly below the previous one.
    Approaching,
    /// The new distance is the previous one or above.
    Receding,
}

/// What one sample amounted to.
#[derive(Debug)]
pub enum Evaluation {
    /// The text equals the previous sample; nothing was evaluated.
    Unchanged,
    /// The text carries no coordinate announcement; it is discarded.
    NotAnAnnouncement,
    /// The text is an announcement, but decomposed into more than three
    /// numeric tokens.
    NotFound,
    /// The coordinate extracted from the text.
    Found(Coordinate),
}

/// The classification rule: a sample strictly closer than the previous one
/// approaches; any other, farther or equally far, recedes.
pub open spec fn trend_of(closer: bool) -> Trend {
    if closer {
        Trend::Approaching
    } else {
        Trend::Receding
    }
}

/// Classifies one accepted sample from the outcome of the comparison of its
/// distance against the previous one.
pub fn classify(closer: bool) -> (t: Trend)
    ensures
        t == trend_of(closer),
{
    if closer {
        Trend::Approaching
    } else {
        Trend::Receding
    }
}

/// The monitoring state: the previous sample's raw text, held for change
/// detection and compared as opaque text.
pub struct Tracker {
    last_input: String,
}

impl Tracker {
    /// The previous sample's text.
    pub closed spec fn last_seen(&self) -> Seq<char> {
        self.last_input@
    }

    /// A fresh tracker: its previous sample is the empty text, so an empty
    /// first sample is skipped as unchanged.
    pub fn new() -> (t: Tracker)
        ensures
            t.last_seen() == Seq::<char>::empty(),
    {
        Tracker { last_input: String::new() }
    }

    /// Takes one sample. A text equal to the previous sample is skipped;
    /// any other text becomes the new previous sample and is evaluated:
    /// rejected when it carries no announcement, reported as not found when
    /// it decomposes into more than three numeric tokens, and otherwise
    /// handed back as the extracted coordinate.
    pub fn observe(&mut self, input: String) -> (ev: Evaluation)
        ensures
            input@ == old(self).last_seen() ==> (ev is Unchanged && final(self).last_seen() == old(
                self,
            ).last_seen()),
            input@ != old(self).last_seen() ==> final(self).last_seen() == input@,
            input@ != old(self).last_seen() && !contains_announcement(input@)
                ==> ev is NotAnAnnouncement,
            input@ != old(self).last_seen() && contains_announcement(input@) && tokens_from(
                input@,
                0,
            ).len() > 3 ==> ev is NotFound,
            input@ != old(self).last_seen() && contains_announcement(input@) && tokens_from(
                input@,
                0,
            ).len() <= 3 ==> (ev matches Evaluation::Found(c) && {
                let toks = tokens_from(input@, 0);
                &&& field_sp(c.x) == (if toks.len() >= 1 {
                    Option::Some(toks[0])
                } else {
                    Option::<Seq<char>>::None
                })
                &&& field_sp(c.y) == (if toks.len() >= 2 {
                    Option::Some(toks[1])
                } else {
                    Option::<Seq<char>>::None
                })
                &&& field_sp(c.z) == (if toks.len() >= 3 {
                    Option::Some(toks[2])
                } else {
                    Option::<Seq<char>>::None
                })
            }),
    {
        if input == self.last_input {
            return Evaluation::Unchanged;
        }
        self.last_input = input.clone();
        if is_valid(input.as_str()) {
            match parse_coordinate(input.as_str()) {
                Result::Ok(c) => Evaluation::Found(c),
                Result::Err(_) => Evaluation::NotFound,
            }
        } else {
            Evaluation::NotAnAnnouncement
        }
    }
}

/// The classifications of a whole run, one comparison outcome per accepted
/// sample.
pub open spec fn trends_of(cmp: Seq<bool>) -> Seq<Trend> {
    cmp.map_values(|closer: bool| trend_of(closer))
}

/// In a run whose samples come strictly closer after the first — every
/// comparison after the first says closer, while the first, measured against
/// the zero baseline, cannot — the first report is `Receding` and every
/// later one is `Approaching`.
pub proof fn lemma_approaching_run(cmp: Seq<bool>)
    requires
        cmp.len() >= 1,
        !cmp[0],
        forall|i: int| 1 <= i < cmp.len() ==> cmp[i],
    ensures
        trends_of(cmp).len() == cmp.len(),
        trends_of(cmp)[0] == Trend::Receding,
        forall|i: int| 1 <= i < cmp.len() ==> trends_of(cmp)[i] == Trend::Approaching,
{
    assert forall|i: int| 1 <= i < cmp.len() implies trends_of(cmp)[i] == Trend::Approaching by {
        assert(cmp[i]);
    }
}

/// In a run whose samples recede at every step — no comparison says closer,
/// the first one against the zero baseline included — every report is
/// `Receding`.
pub proof fn lemma_receding_run(cmp: Seq<bool>)
    requires
        forall|i: int| 0 <= i < cmp.len() ==> !cmp[i],
    ensures
        trends_of(cmp).len() == cmp.len(),
        forall|i: int| 0 <= i < cmp.len() ==> trends_of(cmp)[i] == Trend::Receding,
{
    assert forall|i: int| 0 <= i < cmp.len() implies trends_of(cmp)[i] == Trend::Receding by {
        assert(!cmp[i]);
    }
}

} // verus!
