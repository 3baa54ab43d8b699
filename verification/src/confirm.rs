//! Asking before anything is moved.
//!
//! Moving files cannot be undone by this library, so nothing is moved unless
//! the operator says yes twice, to two questions asked one after the other.

use vstd::prelude::*;
use crate::text::{to_chars, trim_bounds, trimmed};

verus! {

/// Whether an answer means yes: a single `y` or `Y`, whatever whitespace
/// surrounds it.
pub open spec fn means_yes(answer: Seq<char>) -> bool {
    trimmed(answer) == seq!['y'] || trimmed(answer) == seq!['Y']
}

/// Whether `answer` means yes.
pub fn is_affirmative(answer: &str) -> (r: bool)
    ensures
        r == means_yes(answer@),
{
    let v = to_chars(answer);
    let (start, end) = trim_bounds(&v);
    let ghost t = v@.subrange(start as int, end as int);
    if end - start == 1 && (v[start] == 'y' || v[start] == 'Y') {
        assert(t =~= seq![v@[start as int]]);
        true
    } else {
        proof {
            if t == seq!['y'] || t == seq!['Y'] {
                assert(t.len() == 1);
                assert(t[0] == v@[start as int]);
            }
        }
        false
    }
}

/// How far the operator has got with the two questions.
#[derive(Clone, Copy, Debug, PartialEq, Eq, Structural)]
pub enum Confirmation {
    /// The first question has not been answered.
    AwaitingFirst,
    /// The first answer was yes; the second question has not been answered.
    AwaitingSecond,
    /// Both answers were yes.
    Confirmed,
    /// An answer was not yes. Nothing will be moved.
    Cancelled,
}

impl Confirmation {
    /// The state after an answer that was yes (`yes`) or was not.
    pub open spec fn after(self, yes: bool) -> Confirmation {
        match self {
            Confirmation::AwaitingFirst => if yes {
                Confirmation::AwaitingSecond
            } else {
                Confirmation::Cancelled
            },
            Confirmation::AwaitingSecond => if yes {
                Confirmation::Confirmed
            } else {
                Confirmation::Cancelled
            },
            Confirmation::Confirmed => Confirmation::Confirmed,
            Confirmation::Cancelled => Confirmation::Cancelled,
        }
    }

    /// The state before any question is asked.
    pub fn start() -> (r: Confirmation)
        ensures
            r == Confirmation::AwaitingFirst,
    {
        Confirmation::AwaitingFirst
    }

    /// Takes the operator's answer to the question that is open.
    pub fn answer(self, reply: &str) -> (r: Confirmation)
        ensures
            r == self.after(means_yes(reply@)),
    {
        let yes = is_affirmative(reply);
        match self {
            Confirmation::AwaitingFirst => if yes {
                Confirmation::AwaitingSecond
            } else {
                Confirmation::Cancelled
            },
            Confirmation::AwaitingSecond => if yes {
                Confirmation::Confirmed
            } else {
                Confirmation::Cancelled
            },
            Confirmation::Confirmed => Confirmation::Confirmed,
            Confirmation::Cancelled => Confirmation::Cancelled,
        }
    }

    /// Whether another question has to be asked.
    pub fn needs_answer(self) -> (r: bool)
        ensures
            r == (self == Confirmation::AwaitingFirst || self == Confirmation::AwaitingSecond),
    {
        match self {
            Confirmation::AwaitingFirst => true,
            Confirmation::AwaitingSecond => true,
            _ => false,
        }
    }

    /// Whether the move may go ahead.
    pub fn is_confirmed(self) -> (r: bool)
        ensures
            r == (self == Confirmation::Confirmed),
    {
        match self {
            Confirmation::Confirmed => true,
            _ => false,
        }
    }
}

/// The move goes ahead exactly if both answers mean yes: one answer that
/// does not cancels it, whichever it is.
pub proof fn lemma_both_answers_needed(first: Seq<char>, second: Seq<char>)
    ensures
        Confirmation::AwaitingFirst.after(means_yes(first)).after(means_yes(second))
            == Confirmation::Confirmed <==> means_yes(first) && means_yes(second),
        !means_yes(first) ==> Confirmation::AwaitingFirst.after(means_yes(first))
            == Confirmation::Cancelled,
        !means_yes(second) ==> Confirmation::AwaitingFirst.after(means_yes(first)).after(
            means_yes(second),
        ) == Confirmation::Cancelled,
{
}

/// Once cancelled, no answer brings the move back.
pub proof fn lemma_cancelled_stays(yes: bool)
    ensures
        Confirmation::Cancelled.after(yes) == Confirmation::Cancelled,
{
}

} // verus!
