//! The display state of a matrix cell.
//!
//! A cell's state is a pure function of its aggregated counters, the user's
//! manual exclusion, and whether a hero score was available.  The predicates
//! form a strict priority order: only the first matching one applies.

use vstd::prelude::*;
use crate::enumerate::Shape;

verus! {

/// The aggregated counters of one matrix cell.
#[derive(Clone, Copy, PartialEq, Eq, Structural, Debug)]
pub struct CellCounts {
    /// Every combination the cell's shape allows, blocked or not.
    pub total: u32,
    /// Combinations holding a card that is already known to be held.
    pub blocked: u32,
    /// Evaluated combinations the hero beats.
    pub winning: u32,
    /// Evaluated combinations that beat the hero.
    pub losing: u32,
    /// Evaluated combinations of equal strength.
    pub ties: u32,
    /// Combinations the evaluator rejected; excluded from every other bucket.
    pub failed: u32,
}

/// The display state of a matrix cell, strongest predicate first.
#[derive(Clone, Copy, PartialEq, Eq, Structural, Debug)]
pub enum CellState {
    /// The user toggled the cell off by hand.
    Excluded,
    /// Every combination of the cell holds a known card.
    FullyBlocked,
    /// At least one combination beats the hero.
    Danger,
    /// At least one combination loses to the hero, and none beats the hero.
    Safe,
    /// Only ties among the evaluated combinations.
    Split,
    /// A hero score was available but no combination fell into any bucket.
    NeutralEvaluated,
    /// No hero score yet: the cell shows its shape, a pocket pair.
    PreflopPair,
    /// No hero score yet: the cell shows its shape, suited.
    PreflopSuited,
    /// No hero score yet: the cell shows its shape, offsuit.
    PreflopOffsuit,
}

/// The display state the counters, the manual exclusion and the hero-score
/// availability yield, by strict priority.
pub open spec fn spec_cell_state(
    c: CellCounts,
    excluded: bool,
    hero_available: bool,
    shape: Shape,
) -> CellState {
    if excluded {
        CellState::Excluded
    } else if c.blocked == c.total && c.total > 0 {
        CellState::FullyBlocked
    } else if c.losing > 0 {
        CellState::Danger
    } else if c.winning > 0 {
        CellState::Safe
    } else if c.ties > 0 {
        CellState::Split
    } else if hero_available {
        CellState::NeutralEvaluated
    } else {
        match shape {
            Shape::Pair => CellState::PreflopPair,
            Shape::Suited => CellState::PreflopSuited,
            Shape::Offsuit => CellState::PreflopOffsuit,
        }
    }
}

/// Derives the display state of a cell.
pub fn cell_state(c: &CellCounts, excluded: bool, hero_available: bool, shape: Shape) -> (s:
    CellState)
    ensures
        s == spec_cell_state(*c, excluded, hero_available, shape),
{
    if excluded {
        CellState::Excluded
    } else if c.blocked == c.total && c.total > 0 {
        CellState::FullyBlocked
    } else if c.losing > 0 {
        CellState::Danger
    } else if c.winning > 0 {
        CellState::Safe
    } else if c.ties > 0 {
        CellState::Split
    } else if hero_available {
        CellState::NeutralEvaluated
    } else {
        match shape {
            Shape::Pair => CellState::PreflopPair,
            Shape::Suited => CellState::PreflopSuited,
            Shape::Offsuit => CellState::PreflopOffsuit,
        }
    }
}

/// A manual exclusion overrides every other predicate: whatever the counters
/// hold — in particular with `winning > 0`, where the cell would otherwise
/// show `Safe` — the excluded cell shows `Excluded`.  The exclusion is not an
/// input of the counters, so they are untouched by it.
pub proof fn lemma_exclusion_wins(c: CellCounts, hero_available: bool, shape: Shape)
    ensures
        spec_cell_state(c, true, hero_available, shape) == CellState::Excluded,
{
}

/// Toggles the manual exclusion of the cell at `row`, `col`: removes it when
/// present, adds it when absent.  The exclusion set is owned by the
/// presentation layer and only ever changes which cells display `Excluded`.
pub fn toggle_exclusion(excluded: &mut Vec<(u8, u8)>, row: u8, col: u8)
    requires
        old(excluded)@.no_duplicates(),
    ensures
        final(excluded)@.no_duplicates(),
        final(excluded)@.contains((row, col)) == !old(excluded)@.contains((row, col)),
        forall|p: (u8, u8)|
            p != (row, col) ==> #[trigger] final(excluded)@.contains(p) == old(
                excluded,
            )@.contains(p),
{
    let ghost s = old(excluded)@;
    let mut i: usize = 0;
    while i < excluded.len()
        invariant
            i <= s.len(),
            s == old(excluded)@,
            excluded@ == s,
            s.no_duplicates(),
            forall|n: int| 0 <= n < i ==> s[n] != (row, col),
        decreases s.len() - i,
    {
        let e = excluded[i];
        if e.0 == row && e.1 == col {
            excluded.remove(i);
            proof {
                s.remove_ensures(i as int);
                assert forall|a: int, b: int|
                    0 <= a < b < excluded@.len() implies excluded@[a] != excluded@[b] by {
                    if b < i {
                        assert(excluded@[a] == s[a] && excluded@[b] == s[b]);
                    } else if a < i {
                        assert(excluded@[a] == s[a] && excluded@[b] == s[b + 1]);
                    } else {
                        assert(excluded@[a] == s[a + 1] && excluded@[b] == s[b + 1]);
                    }
                }
                assert forall|n: int| 0 <= n < excluded@.len() implies excluded@[n] != (
                row,
                col,
                ) by {
                    if n < i {
                        assert(excluded@[n] == s[n]);
                    } else {
                        assert(excluded@[n] == s[n + 1]);
                        assert(s[n + 1] != s[i as int]);
                    }
                }
                assert(!excluded@.contains((row, col)));
                assert(s.contains((row, col)));
                assert forall|p: (u8, u8)|
                    p != (row, col) implies #[trigger] excluded@.contains(p) == s.contains(p) by {
                    if s.contains(p) {
                        let w = choose|w: int| 0 <= w < s.len() && s[w] == p;
                        if w < i {
                            assert(excluded@[w] == p);
                        } else {
                            assert(w != i);
                            assert(excluded@[w - 1] == p);
                        }
                        assert(excluded@.contains(p));
                    }
                    if excluded@.contains(p) {
                        let w = choose|w: int| 0 <= w < excluded@.len() && excluded@[w] == p;
                        if w < i {
                            assert(s[w] == p);
                        } else {
                            assert(s[w + 1] == p);
                        }
                        assert(s.contains(p));
                    }
                }
            }
            return ;
        }
        i = i + 1;
    }
    proof {
        assert(!s.contains((row, col)));
    }
    excluded.push((row, col));
    proof {
        assert forall|a: int, b: int|
            0 <= a < b < excluded@.len() implies excluded@[a] != excluded@[b] by {
            if b == excluded@.len() - 1 {
                assert(excluded@[a] == s[a]);
                assert(s[a] != (row, col));
            }
        }
        assert(excluded@[excluded@.len() - 1] == (row, col));
        assert(excluded@.contains((row, col)));
        assert forall|p: (u8, u8)|
            p != (row, col) implies #[trigger] excluded@.contains(p) == s.contains(p) by {
            if s.contains(p) {
                let w = choose|w: int| 0 <= w < s.len() && s[w] == p;
                assert(excluded@[w] == p);
            }
            if excluded@.contains(p) {
                let w = choose|w: int| 0 <= w < excluded@.len() && excluded@[w] == p;
                assert(w < s.len());
                assert(s[w] == p);
            }
        }
    }
}

} // verus!
