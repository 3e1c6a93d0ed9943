//! The range equity engine: aggregation of showdown outcomes.
//!
//! One invocation takes the hero hand, the board, an optional declared
//! villain hand and the declared friends' cards, and produces global totals
//! (how many opponent hands are possible, and how many of them win, lose or
//! tie against the hero) together with the 13x13 matrix of per-shape cells.
//! Everything is recomputed from scratch; the result is a pure function of
//! the inputs.

use vstd::prelude::*;
use crate::card::{
    Card, wf_card, wf_cards, known_cards, remaining_deck, spec_remaining, distinct_cards,
    is_known, lemma_remaining_deck,
};
use crate::enumerate::{
    spec_pairs, enumerate_pairs, lemma_pairs_components, lemma_pairs_len, spec_cell_combos,
    cell_combos, lemma_cell_combos_wf, Shape, spec_shape, spec_shape_size, shape_of,
};
use crate::classify::{CellCounts, CellState, cell_state, spec_cell_state};
use crate::eval::{Verdict, showdown_verdict, spec_showdown_verdict, new_evaluator};

verus! {

/// The global outcome totals, from the hero's perspective.
#[derive(Clone, Copy, PartialEq, Eq, Structural, Debug)]
pub struct Totals {
    /// Opponent hands that were evaluated.
    pub possible: u32,
    /// Evaluated hands the hero beats.
    pub winning: u32,
    /// Evaluated hands that beat the hero.
    pub losing: u32,
    /// Evaluated hands of equal strength.
    pub ties: u32,
}

/// Whether the engine could evaluate at all.
#[derive(Clone, Copy, PartialEq, Eq, Structural, Debug)]
pub enum EngineStatus {
    /// A hero score was available; totals and cell buckets are filled.
    Evaluated,
    /// The hero hand or the board is incomplete (or they overlap): no result
    /// is available, and all totals are zero.
    InsufficientInformation,
}

/// One cell of the 13x13 matrix.
#[derive(Clone, Copy, PartialEq, Eq, Structural, Debug)]
pub struct CellResult {
    /// Row index: 0 shows the ace, 12 the two.
    pub row: u8,
    /// Column index, same order.
    pub col: u8,
    /// The aggregated counters of the cell.
    pub counts: CellCounts,
    /// The derived display state of the cell.
    pub state: CellState,
}

/// Everything one engine invocation produces.
#[derive(Debug)]
pub struct EngineOutput {
    /// Whether a hero score was available.
    pub status: EngineStatus,
    /// The global totals; all zero unless `status` is `Evaluated`.
    pub totals: Totals,
    /// The 169 matrix cells in row-major order.
    pub cells: Vec<CellResult>,
}

/// The set of cards known to be held: hero, board, villain and friends.
pub open spec fn spec_known_set(
    hero: Seq<Card>,
    board: Seq<Card>,
    villain: Seq<Card>,
    friends: Seq<Card>,
) -> Set<Card> {
    hero.to_set() + board.to_set() + villain.to_set() + friends.to_set()
}

/// A hero score is available when the hero hand is complete, the board has
/// at least three cards, and no card is repeated among them.
pub open spec fn spec_hero_available(hero: Seq<Card>, board: Seq<Card>) -> bool {
    hero.len() == 2 && 3 <= board.len() && (hero + board).no_duplicates()
}

/// The verdict one opponent combination yields against the hero's cards.
pub open spec fn spec_combo_verdict(p: (Card, Card), board: Seq<Card>, hero_full: Seq<Card>)
    -> Verdict {
    spec_showdown_verdict(seq![p.0, p.1] + board, hero_full)
}

/// Whether a combination holds a card of the known set.
pub open spec fn spec_blocked(p: (Card, Card), k: Set<Card>) -> bool {
    k.contains(p.0) || k.contains(p.1)
}

/// How many combinations yield the verdict `v`.
pub open spec fn spec_count_verdict(
    combos: Seq<(Card, Card)>,
    board: Seq<Card>,
    hero_full: Seq<Card>,
    v: Verdict,
) -> int
    decreases combos.len(),
{
    if combos.len() == 0 {
        0int
    } else {
        spec_count_verdict(combos.drop_last(), board, hero_full, v) + if spec_combo_verdict(
            combos.last(),
            board,
            hero_full,
        ) == v {
            1int
        } else {
            0int
        }
    }
}

/// How many combinations hold a known card.
pub open spec fn spec_count_blocked(combos: Seq<(Card, Card)>, k: Set<Card>) -> int
    decreases combos.len(),
{
    if combos.len() == 0 {
        0int
    } else {
        spec_count_blocked(combos.drop_last(), k) + if spec_blocked(combos.last(), k) {
            1int
        } else {
            0int
        }
    }
}

/// How many unblocked combinations yield the verdict `v`.
pub open spec fn spec_count_free_verdict(
    combos: Seq<(Card, Card)>,
    k: Set<Card>,
    board: Seq<Card>,
    hero_full: Seq<Card>,
    v: Verdict,
) -> int
    decreases combos.len(),
{
    if combos.len() == 0 {
        0int
    } else {
        spec_count_free_verdict(combos.drop_last(), k, board, hero_full, v) + if !spec_blocked(
            combos.last(),
            k,
        ) && spec_combo_verdict(combos.last(), board, hero_full) == v {
            1int
        } else {
            0int
        }
    }
}

/// Totals of all zeroes: nothing was evaluated.
pub open spec fn spec_zero_totals() -> Totals {
    Totals { possible: 0, winning: 0, losing: 0, ties: 0 }
}

/// Heads-up totals: the one declared villain hand is the whole opponent
/// space.  If the villain hand cannot be evaluated (a card repeated within
/// the hand or shared with the board), it is excluded and nothing counts.
pub open spec fn spec_heads_up_totals(villain: Seq<Card>, board: Seq<Card>, hero_full: Seq<Card>)
    -> Totals {
    let opp_full = villain + board;
    if opp_full.no_duplicates() {
        let v = spec_showdown_verdict(opp_full, hero_full);
        Totals {
            possible: 1,
            winning: if v == Verdict::HeroWins {
                1
            } else {
                0
            },
            losing: if v == Verdict::VillainWins {
                1
            } else {
                0
            },
            ties: if v == Verdict::Tie {
                1
            } else {
                0
            },
        }
    } else {
        spec_zero_totals()
    }
}

/// Range totals: every unordered pair of the remaining deck is an opponent
/// hand, and each one is evaluated.
pub open spec fn spec_range_totals(k: Set<Card>, board: Seq<Card>, hero_full: Seq<Card>)
    -> Totals {
    let combos = spec_pairs(spec_remaining(k));
    Totals {
        possible: combos.len() as u32,
        winning: spec_count_verdict(combos, board, hero_full, Verdict::HeroWins) as u32,
        losing: spec_count_verdict(combos, board, hero_full, Verdict::VillainWins) as u32,
        ties: spec_count_verdict(combos, board, hero_full, Verdict::Tie) as u32,
    }
}

/// The global totals of one engine invocation.
pub open spec fn spec_global_totals(
    hero: Seq<Card>,
    board: Seq<Card>,
    villain: Seq<Card>,
    friends: Seq<Card>,
) -> Totals {
    if !spec_hero_available(hero, board) {
        spec_zero_totals()
    } else if villain.len() == 2 {
        spec_heads_up_totals(villain, board, hero + board)
    } else {
        spec_range_totals(spec_known_set(hero, board, villain, friends), board, hero + board)
    }
}

/// Appends all cards of `src` to `dst`.
fn append_cards(dst: &mut Vec<Card>, src: &Vec<Card>)
    ensures
        final(dst)@ == old(dst)@ + src@,
{
    let mut i: usize = 0;
    while i < src.len()
        invariant
            i <= src@.len(),
            dst@ == old(dst)@ + src@.take(i as int),
        decreases src@.len() - i,
    {
        dst.push(src[i]);
        proof {
            assert(old(dst)@ + src@.take(i + 1) =~= (old(dst)@ + src@.take(i as int)).push(
                src@[i as int],
            ));
        }
        i = i + 1;
    }
    proof {
        assert(src@.take(src@.len() as int) =~= src@);
    }
}

/// The facts the evaluation loops rely on: a well-formed, duplicate-free
/// board of at least three cards, and the hero's cards with the board, at
/// least five in all, well formed and duplicate-free.
pub open spec fn spec_eval_ready(board: Seq<Card>, hero_full: Seq<Card>) -> bool {
    wf_cards(board) && wf_cards(hero_full) && board.no_duplicates() && 3 <= board.len() && 5
        <= hero_full.len() && hero_full.no_duplicates()
}

/// Evaluates every unordered pair of the remaining deck against the hero.
fn range_totals(
    ev: &poker::Evaluator,
    known: &Vec<Card>,
    board: &Vec<Card>,
    hero_full: &Vec<Card>,
) -> (t: Totals)
    requires
        spec_eval_ready(board@, hero_full@),
        forall|c: Card| #[trigger] board@.contains(c) ==> known@.contains(c),
    ensures
        t == spec_range_totals(known@.to_set(), board@, hero_full@),
{
    let ghost k = known@.to_set();
    let rem = remaining_deck(known);
    let pairs = enumerate_pairs(&rem);
    let ghost ps = spec_pairs(spec_remaining(k));
    proof {
        broadcast use vstd::seq_lib::group_filter_ensures;
        broadcast use vstd::seq_lib::seq_to_set_is_finite;

        lemma_remaining_deck(k);
        lemma_pairs_components(rem@);
        lemma_pairs_len(rem@);
        assert(rem@.len() <= 52);
        assert(ps.len() <= 1326) by (nonlinear_arith)
            requires ps.len() == rem@.len() * (rem@.len() - 1) / 2 && rem@.len() <= 52;
    }
    let mut winning: u32 = 0;
    let mut losing: u32 = 0;
    let mut ties: u32 = 0;
    let mut idx: usize = 0;
    while idx < pairs.len()
        invariant
            idx <= pairs@.len(),
            pairs@ == ps,
            ps == spec_pairs(spec_remaining(k)),
            ps.len() <= 1326,
            rem@ == spec_remaining(k),
            k == known@.to_set(),
            spec_eval_ready(board@, hero_full@),
            forall|c: Card| #[trigger] board@.contains(c) ==> known@.contains(c),
            forall|n: int|
                0 <= n < ps.len() ==> rem@.contains((#[trigger] ps[n]).0) && rem@.contains(
                    ps[n].1,
                ) && ps[n].0 != ps[n].1,
            forall|c: Card| #[trigger] rem@.contains(c) <==> wf_card(c) && !k.contains(c),
            winning as int == spec_count_verdict(
                ps.take(idx as int),
                board@,
                hero_full@,
                Verdict::HeroWins,
            ),
            losing as int == spec_count_verdict(
                ps.take(idx as int),
                board@,
                hero_full@,
                Verdict::VillainWins,
            ),
            ties as int == spec_count_verdict(ps.take(idx as int), board@, hero_full@, Verdict::Tie),
            winning <= idx && losing <= idx && ties <= idx,
        decreases pairs@.len() - idx,
    {
        let p = pairs[idx];
        let mut opp_full: Vec<Card> = Vec::new();
        opp_full.push(p.0);
        opp_full.push(p.1);
        append_cards(&mut opp_full, board);
        proof {
            assert(opp_full@ =~= seq![p.0, p.1] + board@);
            assert(rem@.contains(p.0) && rem@.contains(p.1) && p.0 != p.1);
            assert forall|n: int| 0 <= n < opp_full@.len() implies wf_card(
                #[trigger] opp_full@[n],
            ) by {
                if n >= 2 {
                    assert(opp_full@[n] == board@[n - 2]);
                }
            }
            assert forall|a: int, b: int|
                0 <= a < b < opp_full@.len() implies opp_full@[a] != opp_full@[b] by {
                if 2 <= a {
                    assert(opp_full@[a] == board@[a - 2] && opp_full@[b] == board@[b - 2]);
                } else if 2 <= b {
                    assert(opp_full@[b] == board@[b - 2]);
                    assert(board@.contains(board@[b - 2]));
                    assert(known@.contains(board@[b - 2]));
                    assert(k.contains(board@[b - 2]));
                    assert(!k.contains(opp_full@[a]));
                }
            }
            assert(opp_full@.no_duplicates());
        }
        let verdict = showdown_verdict(ev, &opp_full, hero_full);
        match verdict {
            Option::Some(v) => {
                match v {
                    Verdict::HeroWins => {
                        winning = winning + 1;
                    },
                    Verdict::VillainWins => {
                        losing = losing + 1;
                    },
                    Verdict::Tie => {
                        ties = ties + 1;
                    },
                }
            },
            Option::None => {
                proof {
                    assert(false);
                }
            },
        }
        proof {
            assert(ps.take(idx + 1).drop_last() =~= ps.take(idx as int));
            assert(ps.take(idx + 1).last() == ps[idx as int]);
            assert(spec_combo_verdict(ps[idx as int], board@, hero_full@)
                == spec_showdown_verdict(opp_full@, hero_full@));
        }
        idx = idx + 1;
    }
    proof {
        assert(ps.take(ps.len() as int) =~= ps);
    }
    Totals { possible: pairs.len() as u32, winning, losing, ties }
}

/// Evaluates the one declared villain hand against the hero.
fn heads_up_totals(
    ev: &poker::Evaluator,
    villain: &Vec<Card>,
    board: &Vec<Card>,
    hero_full: &Vec<Card>,
) -> (t: Totals)
    requires
        spec_eval_ready(board@, hero_full@),
        wf_cards(villain@),
        villain@.len() == 2,
    ensures
        t == spec_heads_up_totals(villain@, board@, hero_full@),
{
    let mut opp_full: Vec<Card> = Vec::new();
    append_cards(&mut opp_full, villain);
    append_cards(&mut opp_full, board);
    proof {
        assert(opp_full@ =~= villain@ + board@);
        assert forall|n: int| 0 <= n < opp_full@.len() implies wf_card(#[trigger] opp_full@[n]) by {
            if n >= 2 {
                assert(opp_full@[n] == board@[n - 2]);
            } else {
                assert(opp_full@[n] == villain@[n]);
            }
        }
    }
    match showdown_verdict(ev, &opp_full, hero_full) {
        Option::Some(v) => Totals {
            possible: 1,
            winning: if v == Verdict::HeroWins {
                1
            } else {
                0
            },
            losing: if v == Verdict::VillainWins {
                1
            } else {
                0
            },
            ties: if v == Verdict::Tie {
                1
            } else {
                0
            },
        },
        Option::None => Totals { possible: 0, winning: 0, losing: 0, ties: 0 },
    }
}

/// The counters of the cell at `row`, `col`.  Blocked combinations are
/// counted but never evaluated; without a hero score nothing is evaluated
/// and the outcome buckets stay zero.
pub open spec fn spec_cell_counts(
    row: int,
    col: int,
    k: Set<Card>,
    avail: bool,
    board: Seq<Card>,
    hero_full: Seq<Card>,
) -> CellCounts {
    let combos = spec_cell_combos(row, col);
    CellCounts {
        total: combos.len() as u32,
        blocked: spec_count_blocked(combos, k) as u32,
        winning: if avail {
            spec_count_free_verdict(combos, k, board, hero_full, Verdict::HeroWins) as u32
        } else {
            0
        },
        losing: if avail {
            spec_count_free_verdict(combos, k, board, hero_full, Verdict::VillainWins) as u32
        } else {
            0
        },
        ties: if avail {
            spec_count_free_verdict(combos, k, board, hero_full, Verdict::Tie) as u32
        } else {
            0
        },
        failed: 0,
    }
}

/// The cell at position `idx` of the row-major matrix.
pub open spec fn spec_cell_result(
    idx: int,
    k: Set<Card>,
    avail: bool,
    board: Seq<Card>,
    hero_full: Seq<Card>,
    excluded: Seq<(u8, u8)>,
) -> CellResult {
    let row = idx / 13;
    let col = idx % 13;
    let counts = spec_cell_counts(row, col, k, avail, board, hero_full);
    CellResult {
        row: row as u8,
        col: col as u8,
        counts,
        state: spec_cell_state(
            counts,
            excluded.contains((row as u8, col as u8)),
            avail,
            spec_shape(row, col),
        ),
    }
}

/// The whole 13x13 matrix in row-major order.
pub open spec fn spec_matrix(
    k: Set<Card>,
    avail: bool,
    board: Seq<Card>,
    hero_full: Seq<Card>,
    excluded: Seq<(u8, u8)>,
) -> Seq<CellResult> {
    Seq::new(169, |idx: int| spec_cell_result(idx, k, avail, board, hero_full, excluded))
}

/// Whether the cell at `row`, `col` was toggled off by hand.
fn cell_excluded(excluded: &Vec<(u8, u8)>, row: u8, col: u8) -> (b: bool)
    ensures
        b == excluded@.contains((row, col)),
{
    let mut i: usize = 0;
    while i < excluded.len()
        invariant
            i <= excluded@.len(),
            forall|n: int| 0 <= n < i ==> excluded@[n] != (row, col),
        decreases excluded@.len() - i,
    {
        let e = excluded[i];
        if e.0 == row && e.1 == col {
            return true;
        }
        i = i + 1;
    }
    false
}

/// Aggregates the counters of one cell's combinations.
fn cell_counts(
    ev: &poker::Evaluator,
    combos: &Vec<(Card, Card)>,
    known: &Vec<Card>,
    avail: bool,
    board: &Vec<Card>,
    hero_full: &Vec<Card>,
) -> (c: CellCounts)
    requires
        combos@.len() <= 12,
        forall|n: int|
            0 <= n < combos@.len() ==> wf_card((#[trigger] combos@[n]).0) && wf_card(
                combos@[n].1,
            ) && combos@[n].0 != combos@[n].1,
        avail ==> spec_eval_ready(board@, hero_full@),
        avail ==> forall|c: Card| #[trigger] board@.contains(c) ==> known@.contains(c),
    ensures
        c.total as int == combos@.len(),
        c.blocked as int == spec_count_blocked(combos@, known@.to_set()),
        c.failed == 0,
        avail ==> c.winning as int == spec_count_free_verdict(
            combos@,
            known@.to_set(),
            board@,
            hero_full@,
            Verdict::HeroWins,
        ),
        avail ==> c.losing as int == spec_count_free_verdict(
            combos@,
            known@.to_set(),
            board@,
            hero_full@,
            Verdict::VillainWins,
        ),
        avail ==> c.ties as int == spec_count_free_verdict(
            combos@,
            known@.to_set(),
            board@,
            hero_full@,
            Verdict::Tie,
        ),
        !avail ==> c.winning == 0 && c.losing == 0 && c.ties == 0,
{
    let ghost k = known@.to_set();
    let mut blocked: u32 = 0;
    let mut winning: u32 = 0;
    let mut losing: u32 = 0;
    let mut ties: u32 = 0;
    let mut idx: usize = 0;
    while idx < combos.len()
        invariant
            idx <= combos@.len(),
            combos@.len() <= 12,
            k == known@.to_set(),
            forall|n: int|
                0 <= n < combos@.len() ==> wf_card((#[trigger] combos@[n]).0) && wf_card(
                    combos@[n].1,
                ) && combos@[n].0 != combos@[n].1,
            avail ==> spec_eval_ready(board@, hero_full@),
            avail ==> forall|c: Card| #[trigger] board@.contains(c) ==> known@.contains(c),
            blocked as int == spec_count_blocked(combos@.take(idx as int), k),
            avail ==> winning as int == spec_count_free_verdict(
                combos@.take(idx as int),
                k,
                board@,
                hero_full@,
                Verdict::HeroWins,
            ),
            avail ==> losing as int == spec_count_free_verdict(
                combos@.take(idx as int),
                k,
                board@,
                hero_full@,
                Verdict::VillainWins,
            ),
            avail ==> ties as int == spec_count_free_verdict(
                combos@.take(idx as int),
                k,
                board@,
                hero_full@,
                Verdict::Tie,
            ),
            !avail ==> winning == 0 && losing == 0 && ties == 0,
            blocked <= idx && winning <= idx && losing <= idx && ties <= idx,
        decreases combos@.len() - idx,
    {
        let p = combos[idx];
        let in0 = is_known(known, p.0);
        let in1 = is_known(known, p.1);
        proof {
            assert(k.contains(p.0) == known@.contains(p.0));
            assert(k.contains(p.1) == known@.contains(p.1));
        }
        if in0 || in1 {
            blocked = blocked + 1;
        } else if avail {
            let mut opp_full: Vec<Card> = Vec::new();
            opp_full.push(p.0);
            opp_full.push(p.1);
            append_cards(&mut opp_full, board);
            proof {
                assert(opp_full@ =~= seq![p.0, p.1] + board@);
                assert forall|n: int| 0 <= n < opp_full@.len() implies wf_card(
                    #[trigger] opp_full@[n],
                ) by {
                    if n >= 2 {
                        assert(opp_full@[n] == board@[n - 2]);
                    }
                }
                assert forall|a: int, b: int|
                    0 <= a < b < opp_full@.len() implies opp_full@[a] != opp_full@[b] by {
                    if 2 <= a {
                        assert(opp_full@[a] == board@[a - 2] && opp_full@[b] == board@[b - 2]);
                    } else if 2 <= b {
                        assert(opp_full@[b] == board@[b - 2]);
                        assert(board@.contains(board@[b - 2]));
                        assert(known@.contains(board@[b - 2]));
                    }
                }
                assert(opp_full@.no_duplicates());
            }
            match showdown_verdict(ev, &opp_full, hero_full) {
                Option::Some(v) => {
                    match v {
                        Verdict::HeroWins => {
                            winning = winning + 1;
                        },
                        Verdict::VillainWins => {
                            losing = losing + 1;
                        },
                        Verdict::Tie => {
                            ties = ties + 1;
                        },
                    }
                },
                Option::None => {
                    proof {
                        assert(false);
                    }
                },
            }
            proof {
                assert(spec_combo_verdict(p, board@, hero_full@) == spec_showdown_verdict(
                    opp_full@,
                    hero_full@,
                ));
            }
        }
        proof {
            assert(combos@.take(idx + 1).drop_last() =~= combos@.take(idx as int));
            assert(combos@.take(idx + 1).last() == p);
        }
        idx = idx + 1;
    }
    proof {
        assert(combos@.take(combos@.len() as int) =~= combos@);
    }
    CellCounts { total: combos.len() as u32, blocked, winning, losing, ties, failed: 0 }
}

/// Builds the 169 cells of the matrix in row-major order.
fn build_matrix(
    ev: &poker::Evaluator,
    known: &Vec<Card>,
    avail: bool,
    board: &Vec<Card>,
    hero_full: &Vec<Card>,
    excluded: &Vec<(u8, u8)>,
) -> (cells: Vec<CellResult>)
    requires
        avail ==> spec_eval_ready(board@, hero_full@),
        avail ==> forall|c: Card| #[trigger] board@.contains(c) ==> known@.contains(c),
    ensures
        cells@ == spec_matrix(known@.to_set(), avail, board@, hero_full@, excluded@),
{
    let ghost k = known@.to_set();
    let mut cells: Vec<CellResult> = Vec::new();
    let mut idx: usize = 0;
    while idx < 169
        invariant
            idx <= 169,
            k == known@.to_set(),
            avail ==> spec_eval_ready(board@, hero_full@),
            avail ==> forall|c: Card| #[trigger] board@.contains(c) ==> known@.contains(c),
            cells@.len() == idx,
            forall|n: int|
                0 <= n < idx ==> #[trigger] cells@[n] == spec_cell_result(
                    n,
                    k,
                    avail,
                    board@,
                    hero_full@,
                    excluded@,
                ),
        decreases 169 - idx,
    {
        proof {
            assert(idx / 13 < 13 && idx % 13 < 13) by (nonlinear_arith)
                requires idx < 169;
        }
        let row = (idx / 13) as u8;
        let col = (idx % 13) as u8;
        let combos = cell_combos(row, col);
        proof {
            lemma_cell_combos_wf(row as int, col as int);
        }
        let counts = cell_counts(ev, &combos, known, avail, board, hero_full);
        let excl = cell_excluded(excluded, row, col);
        let state = cell_state(&counts, excl, avail, shape_of(row, col));
        proof {
            assert(counts == spec_cell_counts(row as int, col as int, k, avail, board@,
            hero_full@));
        }
        cells.push(CellResult { row, col, counts, state });
        idx = idx + 1;
    }
    proof {
        assert(cells@ =~= spec_matrix(k, avail, board@, hero_full@, excluded@));
    }
    cells
}

/// Whether `out` is the result the inputs determine: the status, the global
/// totals and all 169 cells are pinned.
pub open spec fn spec_output_matches(
    hero: Seq<Card>,
    board: Seq<Card>,
    villain: Seq<Card>,
    friends: Seq<Card>,
    excluded: Seq<(u8, u8)>,
    out: EngineOutput,
) -> bool {
    &&& out.status == (if spec_hero_available(hero, board) {
        EngineStatus::Evaluated
    } else {
        EngineStatus::InsufficientInformation
    })
    &&& out.totals == spec_global_totals(hero, board, villain, friends)
    &&& out.cells@ == spec_matrix(
        spec_known_set(hero, board, villain, friends),
        spec_hero_available(hero, board),
        board,
        hero + board,
        excluded,
    )
}

/// One full engine invocation: derives the known-card set, decides whether a
/// hero score is available, aggregates the global totals (against the one
/// declared villain hand, or against the whole remaining deck) and builds
/// the 13x13 matrix.
pub fn compute(
    hero: &Vec<Card>,
    board: &Vec<Card>,
    villain: &Vec<Card>,
    friends: &Vec<Card>,
    excluded: &Vec<(u8, u8)>,
) -> (out: EngineOutput)
    requires
        wf_cards(hero@),
        wf_cards(board@),
        wf_cards(villain@),
        wf_cards(friends@),
        hero@.len() <= 2,
        villain@.len() <= 2,
        board@.len() <= 5,
    ensures
        spec_output_matches(hero@, board@, villain@, friends@, excluded@, out),
{
    let known = known_cards(hero, board, villain, friends);
    let ghost k = spec_known_set(hero@, board@, villain@, friends@);
    proof {
        assert(known@.to_set() == k);
    }
    let mut hero_full: Vec<Card> = Vec::new();
    append_cards(&mut hero_full, hero);
    append_cards(&mut hero_full, board);
    proof {
        assert(hero_full@ =~= hero@ + board@);
    }
    let avail = hero.len() == 2 && board.len() >= 3 && distinct_cards(&hero_full);
    proof {
        assert(avail == spec_hero_available(hero@, board@));
        if avail {
            assert forall|n: int| 0 <= n < hero_full@.len() implies wf_card(
                #[trigger] hero_full@[n],
            ) by {
                if n >= hero@.len() {
                    assert(hero_full@[n] == board@[n - hero@.len()]);
                } else {
                    assert(hero_full@[n] == hero@[n]);
                }
            }
            assert forall|a: int, b: int|
                0 <= a < b < board@.len() implies board@[a] != board@[b] by {
                assert(hero_full@[a + hero@.len()] == board@[a]);
                assert(hero_full@[b + hero@.len()] == board@[b]);
            }
            assert(board@.no_duplicates());
            assert forall|c: Card| #[trigger] board@.contains(c) implies known@.contains(c) by {}
            assert(spec_eval_ready(board@, hero_full@));
        }
    }
    let ev = new_evaluator();
    let totals = if !avail {
        Totals { possible: 0, winning: 0, losing: 0, ties: 0 }
    } else if villain.len() == 2 {
        heads_up_totals(&ev, villain, board, &hero_full)
    } else {
        range_totals(&ev, &known, board, &hero_full)
    };
    let cells = build_matrix(&ev, &known, avail, board, &hero_full, excluded);
    let status = if avail {
        EngineStatus::Evaluated
    } else {
        EngineStatus::InsufficientInformation
    };
    EngineOutput { status, totals, cells }
}

/// The output is a pure function of the inputs: two invocations on identical
/// inputs yield identical status, totals and per-cell results.
pub proof fn lemma_compute_idempotent(
    hero: Seq<Card>,
    board: Seq<Card>,
    villain: Seq<Card>,
    friends: Seq<Card>,
    excluded: Seq<(u8, u8)>,
    o1: EngineOutput,
    o2: EngineOutput,
)
    requires
        spec_output_matches(hero, board, villain, friends, excluded, o1),
        spec_output_matches(hero, board, villain, friends, excluded, o2),
    ensures
        o1.status == o2.status,
        o1.totals == o2.totals,
        o1.cells@ == o2.cells@,
{
}

/// A cell's total is fixed by its shape alone — 6 combinations for a pocket
/// pair, 4 suited, 12 offsuit — whatever the hero, the board, the known set
/// or the hero-score availability.
pub proof fn lemma_cell_total_fixed(
    row: int,
    col: int,
    k: Set<Card>,
    avail: bool,
    board: Seq<Card>,
    hero_full: Seq<Card>,
)
    requires
        0 <= row < 13,
        0 <= col < 13,
    ensures
        spec_cell_counts(row, col, k, avail, board, hero_full).total as int == spec_shape_size(
            spec_shape(row, col),
        ),
{
}

/// Every count is at least zero and at most the number of combinations.
proof fn lemma_counts_bounded(
    combos: Seq<(Card, Card)>,
    k: Set<Card>,
    board: Seq<Card>,
    hero_full: Seq<Card>,
    v: Verdict,
)
    ensures
        0 <= spec_count_blocked(combos, k) <= combos.len(),
        0 <= spec_count_free_verdict(combos, k, board, hero_full, v) <= combos.len(),
        0 <= spec_count_verdict(combos, board, hero_full, v) <= combos.len(),
    decreases combos.len(),
{
    if combos.len() > 0 {
        lemma_counts_bounded(combos.drop_last(), k, board, hero_full, v);
    }
}

/// A combination is blocked or yields exactly one of the three verdicts, so
/// the four buckets partition the combinations.
proof fn lemma_counts_partition(
    combos: Seq<(Card, Card)>,
    k: Set<Card>,
    board: Seq<Card>,
    hero_full: Seq<Card>,
)
    ensures
        spec_count_blocked(combos, k) + spec_count_free_verdict(
            combos,
            k,
            board,
            hero_full,
            Verdict::HeroWins,
        ) + spec_count_free_verdict(combos, k, board, hero_full, Verdict::VillainWins)
            + spec_count_free_verdict(combos, k, board, hero_full, Verdict::Tie) == combos.len(),
    decreases combos.len(),
{
    if combos.len() > 0 {
        lemma_counts_partition(combos.drop_last(), k, board, hero_full);
    }
}

/// The sum property: whenever a hero score is available, a cell's winning,
/// losing, tie, blocked and failed counters add up exactly to its total.
/// (Without a hero score the unblocked combinations are never evaluated and
/// fall into no bucket at all.)
pub proof fn lemma_cell_sum(
    row: int,
    col: int,
    k: Set<Card>,
    board: Seq<Card>,
    hero_full: Seq<Card>,
)
    requires
        0 <= row < 13,
        0 <= col < 13,
    ensures
        ({
            let c = spec_cell_counts(row, col, k, true, board, hero_full);
            c.winning as int + c.losing as int + c.ties as int + c.blocked as int + c.failed as int
                == c.total as int
        }),
{
    let combos = spec_cell_combos(row, col);
    lemma_counts_partition(combos, k, board, hero_full);
    lemma_counts_bounded(combos, k, board, hero_full, Verdict::HeroWins);
    lemma_counts_bounded(combos, k, board, hero_full, Verdict::VillainWins);
    lemma_counts_bounded(combos, k, board, hero_full, Verdict::Tie);
}

/// Every combination yields exactly one of the three verdicts.
proof fn lemma_verdict_partition(combos: Seq<(Card, Card)>, board: Seq<Card>, hero_full: Seq<Card>)
    ensures
        spec_count_verdict(combos, board, hero_full, Verdict::HeroWins) + spec_count_verdict(
            combos,
            board,
            hero_full,
            Verdict::VillainWins,
        ) + spec_count_verdict(combos, board, hero_full, Verdict::Tie) == combos.len(),
    decreases combos.len(),
{
    if combos.len() > 0 {
        lemma_verdict_partition(combos.drop_last(), board, hero_full);
    }
}

/// The global buckets partition the evaluated hands: winning, losing and tie
/// counts always add up exactly to the possible count.
pub proof fn lemma_totals_sum(
    hero: Seq<Card>,
    board: Seq<Card>,
    villain: Seq<Card>,
    friends: Seq<Card>,
)
    ensures
        ({
            let t = spec_global_totals(hero, board, villain, friends);
            t.winning as int + t.losing as int + t.ties as int == t.possible as int
        }),
{
    if spec_hero_available(hero, board) && villain.len() != 2 {
        let k = spec_known_set(hero, board, villain, friends);
        let combos = spec_pairs(spec_remaining(k));
        lemma_verdict_partition(combos, board, hero + board);
        lemma_counts_bounded(combos, k, board, hero + board, Verdict::HeroWins);
        lemma_counts_bounded(combos, k, board, hero + board, Verdict::VillainWins);
        lemma_counts_bounded(combos, k, board, hero + board, Verdict::Tie);
        broadcast use vstd::seq_lib::group_filter_ensures;

        lemma_pairs_len(spec_remaining(k));
        assert(spec_remaining(k).len() <= 52);
        assert(combos.len() <= 1326) by (nonlinear_arith)
            requires
                combos.len() == spec_remaining(k).len() * (spec_remaining(k).len() - 1) / 2
                    && spec_remaining(k).len() <= 52,
        ;
    }
}

/// In range mode the number of evaluated opponent hands depends on the size
/// of the known set alone: with `m` cards known, `(52 - m) (51 - m) / 2`
/// opponent hands are possible, whatever the cards themselves are.
pub proof fn lemma_range_possible_count(k: Set<Card>, board: Seq<Card>, hero_full: Seq<Card>)
    requires
        k.finite(),
        forall|c: Card| #[trigger] k.contains(c) ==> wf_card(c),
    ensures
        ({
            let n = 52 - k.len();
            spec_range_totals(k, board, hero_full).possible as int == n * (n - 1) / 2
        }),
{
    lemma_remaining_deck(k);
    let rem = spec_remaining(k);
    lemma_pairs_len(rem);
    assert(rem.len() == 52 - k.len());
    let n = rem.len() as int;
    assert(n * (n - 1) / 2 <= 1326) by (nonlinear_arith)
        requires 0 <= n <= 52;
}

/// A manual exclusion is display-only: the cell's counters do not depend on
/// the exclusion set at all, and a cell whose exclusion is on shows
/// `Excluded`, whatever its counters would otherwise show.
pub proof fn lemma_exclusion_display_only(
    idx: int,
    k: Set<Card>,
    avail: bool,
    board: Seq<Card>,
    hero_full: Seq<Card>,
    e1: Seq<(u8, u8)>,
    e2: Seq<(u8, u8)>,
)
    requires
        0 <= idx < 169,
    ensures
        spec_cell_result(idx, k, avail, board, hero_full, e1).counts == spec_cell_result(
            idx,
            k,
            avail,
            board,
            hero_full,
            e2,
        ).counts,
        e2.contains((((idx / 13) as u8), ((idx % 13) as u8))) ==> spec_cell_result(
            idx,
            k,
            avail,
            board,
            hero_full,
            e2,
        ).state == CellState::Excluded,
{
}

} // verus!
