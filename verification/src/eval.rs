//! The trusted boundary to the `poker` crate's hand evaluator, and the
//! verdict a hand comparison yields.
//!
//! The engine never sees the evaluator's internal hand rank; every use goes
//! through a single comparison wrapper whose contract speaks of the abstract
//! strength `hand_score`.  Lower score means stronger hand.

use vstd::prelude::*;
use crate::card::{Card, wf_cards, rank_char, suit_char};

verus! {

/// The strength of the best five-card poker hand among `cards`, as the
/// `poker` crate's evaluator ranks it; a lower value is a stronger hand.
/// The strength is a function of the cards alone.
pub uninterp spec fn hand_score(cards: Seq<Card>) -> int;

#[verifier::external_type_specification]
#[verifier::external_body]
pub struct ExEvaluator(poker::Evaluator);

/// Relies on `poker::Evaluator::new`, which builds the evaluator's lookup
/// tables; every evaluator built this way ranks hands identically.
#[verifier::external_body]
pub(crate) fn new_evaluator() -> (ev: poker::Evaluator) {
    poker::Evaluator::new()
}

/// Relies on `poker::Evaluator::evaluate_five`, which scores the best
/// five-card hand among at least five distinct cards and fails exactly when
/// the cards are fewer than five or not pairwise distinct, and on
/// `poker::Eval::is_better_than` / `is_worse_than`, which compare two such
/// scores, a lower hand rank being the stronger hand.  The score depends on
/// the cards alone, so both sides are described through `hand_score`.
/// Relies on `poker::Card::try_from_chars`, which accepts exactly the rank
/// characters "23456789TJQKA" and the suit characters "chsd".
#[verifier::external_body]
fn compare_at_showdown(ev: &poker::Evaluator, a: &Vec<Card>, b: &Vec<Card>) -> (r: Option<i8>)
    requires
        wf_cards(a@),
        wf_cards(b@),
    ensures
        (r is Some) <==> (5 <= a@.len() && 5 <= b@.len() && a@.no_duplicates()
            && b@.no_duplicates()),
        (r is Some) ==> ((r == Some(1i8)) <==> hand_score(a@) < hand_score(b@)),
        (r is Some) ==> ((r == Some(-1i8)) <==> hand_score(a@) > hand_score(b@)),
        (r is Some) ==> ((r == Some(0i8)) <==> hand_score(a@) == hand_score(b@)),
{
    let pa: Result<Vec<poker::Card>, _> =
        a.iter().map(|c| poker::Card::try_from_chars(rank_char(c.rank), suit_char(c.suit))).collect();
    let pb: Result<Vec<poker::Card>, _> =
        b.iter().map(|c| poker::Card::try_from_chars(rank_char(c.rank), suit_char(c.suit))).collect();
    match (ev.evaluate_five(pa.unwrap()), ev.evaluate_five(pb.unwrap())) {
        (Ok(ea), Ok(eb)) => Some(
            if ea.is_better_than(eb) { 1 } else if ea.is_worse_than(eb) { -1 } else { 0 },
        ),
        _ => None,
    }
}

/// The outcome of one showdown, seen from the hero's side.
#[derive(Clone, Copy, PartialEq, Eq, Structural, Debug)]
pub enum Verdict {
    /// The hero's hand is the stronger one.
    HeroWins,
    /// The opponent's hand is the stronger one.
    VillainWins,
    /// Both hands have the same strength: a split pot.
    Tie,
}

/// The verdict two strengths yield: the lower score wins the pot.
pub open spec fn spec_verdict(opp_score: int, hero_score: int) -> Verdict {
    if opp_score < hero_score {
        Verdict::VillainWins
    } else if hero_score < opp_score {
        Verdict::HeroWins
    } else {
        Verdict::Tie
    }
}

/// The verdict of an opponent hand against the hero's hand, each taken
/// together with the board.
pub open spec fn spec_showdown_verdict(opp: Seq<Card>, hero: Seq<Card>) -> Verdict {
    spec_verdict(hand_score(opp), hand_score(hero))
}

/// Scores both card groups and classifies the comparison as a verdict.
/// Returns `None` exactly when either group cannot be evaluated (fewer than
/// five cards, or a duplicate card).
pub(crate) fn showdown_verdict(ev: &poker::Evaluator, opp: &Vec<Card>, hero: &Vec<Card>) -> (v:
    Option<Verdict>)
    requires
        wf_cards(opp@),
        wf_cards(hero@),
    ensures
        v is Some <==> 5 <= opp@.len() && 5 <= hero@.len() && opp@.no_duplicates()
            && hero@.no_duplicates(),
        v is Some ==> v == Some(spec_showdown_verdict(opp@, hero@)),
{
    match compare_at_showdown(ev, opp, hero) {
        None => None,
        Some(c) => {
            if c == 1 {
                Some(Verdict::VillainWins)
            } else if c == -1 {
                Some(Verdict::HeroWins)
            } else {
                Some(Verdict::Tie)
            }
        },
    }
}

} // verus!
