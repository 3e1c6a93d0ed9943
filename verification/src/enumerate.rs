//! Enumeration of opponent hands.
//!
//! Range mode draws every unordered two-card combination from the remaining
//! deck; the 13x13 matrix draws, for each cell, the suit assignments that fit
//! the cell's shape (pocket pair, suited or offsuit).

use vstd::prelude::*;
use crate::card::{Card, wf_card, spec_rank_char, rank_str};

verus! {

/// All unordered pairs of `s`, each emitted once: the pair `(s[i], s[j])`
/// with `i < j` appears, in order of the second card first.
pub open spec fn spec_pairs(s: Seq<Card>) -> Seq<(Card, Card)>
    decreases s.len(),
{
    if s.len() == 0 {
        Seq::empty()
    } else {
        spec_pairs(s.drop_last()) + Seq::new((s.len() - 1) as nat, |i: int| (s[i], s.last()))
    }
}

/// Whether the pair `p` is the unordered pair `{a, b}`.
pub open spec fn pair_matches(p: (Card, Card), a: Card, b: Card) -> bool {
    (p.0 == a && p.1 == b) || (p.0 == b && p.1 == a)
}

/// Emits every unordered two-card combination of `deck` exactly once.
pub fn enumerate_pairs(deck: &Vec<Card>) -> (r: Vec<(Card, Card)>)
    ensures
        r@ == spec_pairs(deck@),
{
    let mut r: Vec<(Card, Card)> = Vec::new();
    proof {
        assert(r@ =~= spec_pairs(deck@.take(0)));
    }
    let mut j: usize = 0;
    while j < deck.len()
        invariant
            j <= deck@.len(),
            r@ == spec_pairs(deck@.take(j as int)),
        decreases deck@.len() - j,
    {
        let mut i: usize = 0;
        while i < j
            invariant
                i <= j < deck@.len(),
                r@ == spec_pairs(deck@.take(j as int)) + Seq::new(
                    i as nat,
                    |k: int| (deck@[k], deck@[j as int]),
                ),
            decreases j - i,
        {
            r.push((deck[i], deck[j]));
            proof {
                assert(r@ =~= spec_pairs(deck@.take(j as int)) + Seq::new(
                    (i + 1) as nat,
                    |k: int| (deck@[k], deck@[j as int]),
                ));
            }
            i = i + 1;
        }
        proof {
            let t = deck@.take(j + 1);
            assert(t.drop_last() =~= deck@.take(j as int));
            assert(Seq::new(j as nat, |k: int| (deck@[k], deck@[j as int])) =~= Seq::new(
                (t.len() - 1) as nat,
                |i: int| (t[i], t.last()),
            ));
            assert(r@ =~= spec_pairs(t));
        }
        j = j + 1;
    }
    proof {
        assert(deck@.take(deck@.len() as int) =~= deck@);
    }
    r
}

/// Both cards of every emitted pair come from the source sequence, and the
/// two cards of a pair are distinct.
pub proof fn lemma_pairs_components(s: Seq<Card>)
    requires
        s.no_duplicates(),
    ensures
        forall|k: int|
            0 <= k < spec_pairs(s).len() ==> s.contains((#[trigger] spec_pairs(s)[k]).0)
                && s.contains(spec_pairs(s)[k].1) && spec_pairs(s)[k].0 != spec_pairs(s)[k].1,
    decreases s.len(),
{
    if s.len() > 0 {
        let t = s.drop_last();
        let ps = spec_pairs(s);
        let pt = spec_pairs(t);
        lemma_pairs_components(t);
        assert forall|k: int|
            0 <= k < ps.len() implies s.contains((#[trigger] ps[k]).0) && s.contains(ps[k].1)
            && ps[k].0 != ps[k].1 by {
            if k < pt.len() {
                assert(ps[k] == pt[k]);
                let w0 = choose|w: int| 0 <= w < t.len() && t[w] == pt[k].0;
                assert(s[w0] == pt[k].0);
                let w1 = choose|w: int| 0 <= w < t.len() && t[w] == pt[k].1;
                assert(s[w1] == pt[k].1);
            } else {
                let i = k - pt.len();
                assert(ps[k] == (s[i], s.last()));
                assert(s[i] != s[s.len() - 1]);
            }
        }
    }
}

/// Each unordered pair of two distinct cards of a duplicate-free sequence is
/// emitted exactly once: it appears, and at only one position.
pub proof fn lemma_pairs_exactly_once(s: Seq<Card>, a: Card, b: Card)
    requires
        s.no_duplicates(),
        s.contains(a),
        s.contains(b),
        a != b,
    ensures
        exists|k: int|
            0 <= k < spec_pairs(s).len() && pair_matches(#[trigger] spec_pairs(s)[k], a, b),
        forall|k1: int, k2: int|
            0 <= k1 < spec_pairs(s).len() && 0 <= k2 < spec_pairs(s).len() && pair_matches(
                #[trigger] spec_pairs(s)[k1],
                a,
                b,
            ) && pair_matches(#[trigger] spec_pairs(s)[k2], a, b) ==> k1 == k2,
    decreases s.len(),
{
    let t = s.drop_last();
    let ps = spec_pairs(s);
    let pt = spec_pairs(t);
    let last = s.last();
    assert(!t.contains(last)) by {
        if t.contains(last) {
            let w = choose|w: int| 0 <= w < t.len() && t[w] == last;
            assert(s[w] == s[s.len() - 1]);
        }
    }
    lemma_pairs_components(t);
    if a != last && b != last {
        let wa = choose|w: int| 0 <= w < s.len() && s[w] == a;
        assert(wa < t.len() && t[wa] == a);
        let wb = choose|w: int| 0 <= w < s.len() && s[w] == b;
        assert(wb < t.len() && t[wb] == b);
        assert(t.contains(a) && t.contains(b));
        lemma_pairs_exactly_once(t, a, b);
        let k = choose|k: int| 0 <= k < pt.len() && pair_matches(pt[k], a, b);
        assert(pair_matches(ps[k], a, b));
        assert forall|k2: int|
            pt.len() <= k2 < ps.len() implies !pair_matches(#[trigger] ps[k2], a, b) by {
            assert(ps[k2].1 == last);
        }
    } else {
        let c = if a == last {
            b
        } else {
            a
        };
        assert(t.contains(c)) by {
            let w = choose|w: int| 0 <= w < s.len() && s[w] == c;
            assert(t[w] == c);
        }
        let i = choose|i: int| 0 <= i < t.len() && t[i] == c;
        assert(ps[pt.len() + i] == (s[i], last));
        assert(pair_matches(ps[pt.len() + i], a, b));
        assert forall|k2: int| 0 <= k2 < pt.len() implies !pair_matches(#[trigger] ps[k2], a, b) by {
            assert(ps[k2] == pt[k2]);
            assert(t.contains(pt[k2].0) && t.contains(pt[k2].1));
        }
        assert forall|k1: int, k2: int|
            pt.len() <= k1 < ps.len() && pt.len() <= k2 < ps.len() && pair_matches(
                ps[k1],
                a,
                b,
            ) && pair_matches(ps[k2], a, b) implies k1 == k2 by {
            assert(ps[k1] == (s[k1 - pt.len()], last));
            assert(ps[k2] == (s[k2 - pt.len()], last));
            assert(t[k1 - pt.len()] == c && t[k2 - pt.len()] == c);
        }
    }
}

/// The shape of a matrix cell: the 13x13 grid shows pocket pairs on the
/// diagonal, suited hands above it and offsuit hands below it.
#[derive(Clone, Copy, PartialEq, Eq, Structural, Debug)]
pub enum Shape {
    /// Both cards have the cell's single rank.
    Pair,
    /// Two ranks, one shared suit.
    Suited,
    /// Two ranks, different suits.
    Offsuit,
}

/// The shape of the cell at `row`, `col`.
pub open spec fn spec_shape(row: int, col: int) -> Shape {
    if row == col {
        Shape::Pair
    } else if row < col {
        Shape::Suited
    } else {
        Shape::Offsuit
    }
}

/// How many two-card combinations a cell of the given shape holds.
pub open spec fn spec_shape_size(s: Shape) -> int {
    match s {
        Shape::Pair => 6,
        Shape::Suited => 4,
        Shape::Offsuit => 12,
    }
}

/// The shape of the cell at `row`, `col`.
pub fn shape_of(row: u8, col: u8) -> (s: Shape)
    ensures
        s == spec_shape(row as int, col as int),
{
    if row == col {
        Shape::Pair
    } else if row < col {
        Shape::Suited
    } else {
        Shape::Offsuit
    }
}

/// The rank shown at a matrix index: the grid runs ace down to two.
pub open spec fn spec_rank_at(i: int) -> int {
    12 - i
}

/// A card from rank and suit indices.
pub open spec fn mk_card(r: int, s: int) -> Card {
    Card { rank: r as u8, suit: s as u8 }
}

/// The two-card combinations belonging to the cell at `row`, `col`: every
/// suit assignment that fits the cell's shape, each unordered combination
/// exactly once.
pub open spec fn spec_cell_combos(row: int, col: int) -> Seq<(Card, Card)> {
    let r1 = spec_rank_at(row);
    let r2 = spec_rank_at(col);
    match spec_shape(row, col) {
        Shape::Pair => seq![
            (mk_card(r1, 0), mk_card(r1, 1)),
            (mk_card(r1, 0), mk_card(r1, 2)),
            (mk_card(r1, 0), mk_card(r1, 3)),
            (mk_card(r1, 1), mk_card(r1, 2)),
            (mk_card(r1, 1), mk_card(r1, 3)),
            (mk_card(r1, 2), mk_card(r1, 3)),
        ],
        Shape::Suited => seq![
            (mk_card(r1, 0), mk_card(r2, 0)),
            (mk_card(r1, 1), mk_card(r2, 1)),
            (mk_card(r1, 2), mk_card(r2, 2)),
            (mk_card(r1, 3), mk_card(r2, 3)),
        ],
        Shape::Offsuit => seq![
            (mk_card(r1, 0), mk_card(r2, 1)),
            (mk_card(r1, 0), mk_card(r2, 2)),
            (mk_card(r1, 0), mk_card(r2, 3)),
            (mk_card(r1, 1), mk_card(r2, 0)),
            (mk_card(r1, 1), mk_card(r2, 2)),
            (mk_card(r1, 1), mk_card(r2, 3)),
            (mk_card(r1, 2), mk_card(r2, 0)),
            (mk_card(r1, 2), mk_card(r2, 1)),
            (mk_card(r1, 2), mk_card(r2, 3)),
            (mk_card(r1, 3), mk_card(r2, 0)),
            (mk_card(r1, 3), mk_card(r2, 1)),
            (mk_card(r1, 3), mk_card(r2, 2)),
        ],
    }
}

/// Builds the combinations of the cell at `row`, `col`.
pub fn cell_combos(row: u8, col: u8) -> (r: Vec<(Card, Card)>)
    requires
        row < 13,
        col < 13,
    ensures
        r@ == spec_cell_combos(row as int, col as int),
        r@.len() == spec_shape_size(spec_shape(row as int, col as int)),
{
    let r1 = 12 - row;
    let r2 = 12 - col;
    let mut r: Vec<(Card, Card)> = Vec::new();
    if row == col {
        r.push((Card { rank: r1, suit: 0 }, Card { rank: r1, suit: 1 }));
        r.push((Card { rank: r1, suit: 0 }, Card { rank: r1, suit: 2 }));
        r.push((Card { rank: r1, suit: 0 }, Card { rank: r1, suit: 3 }));
        r.push((Card { rank: r1, suit: 1 }, Card { rank: r1, suit: 2 }));
        r.push((Card { rank: r1, suit: 1 }, Card { rank: r1, suit: 3 }));
        r.push((Card { rank: r1, suit: 2 }, Card { rank: r1, suit: 3 }));
    } else if row < col {
        r.push((Card { rank: r1, suit: 0 }, Card { rank: r2, suit: 0 }));
        r.push((Card { rank: r1, suit: 1 }, Card { rank: r2, suit: 1 }));
        r.push((Card { rank: r1, suit: 2 }, Card { rank: r2, suit: 2 }));
        r.push((Card { rank: r1, suit: 3 }, Card { rank: r2, suit: 3 }));
    } else {
        r.push((Card { rank: r1, suit: 0 }, Card { rank: r2, suit: 1 }));
        r.push((Card { rank: r1, suit: 0 }, Card { rank: r2, suit: 2 }));
        r.push((Card { rank: r1, suit: 0 }, Card { rank: r2, suit: 3 }));
        r.push((Card { rank: r1, suit: 1 }, Card { rank: r2, suit: 0 }));
        r.push((Card { rank: r1, suit: 1 }, Card { rank: r2, suit: 2 }));
        r.push((Card { rank: r1, suit: 1 }, Card { rank: r2, suit: 3 }));
        r.push((Card { rank: r1, suit: 2 }, Card { rank: r2, suit: 0 }));
        r.push((Card { rank: r1, suit: 2 }, Card { rank: r2, suit: 1 }));
        r.push((Card { rank: r1, suit: 2 }, Card { rank: r2, suit: 3 }));
        r.push((Card { rank: r1, suit: 3 }, Card { rank: r2, suit: 0 }));
        r.push((Card { rank: r1, suit: 3 }, Card { rank: r2, suit: 1 }));
        r.push((Card { rank: r1, suit: 3 }, Card { rank: r2, suit: 2 }));
    }
    proof {
        assert(r@ =~= spec_cell_combos(row as int, col as int));
    }
    r
}

/// The text a matrix cell shows: the two ranks, higher first, and a suffix —
/// none for a pocket pair, 's' for suited, 'o' for offsuit.
pub open spec fn spec_cell_label(row: int, col: int) -> Seq<char> {
    let first = if row <= col {
        row
    } else {
        col
    };
    let second = if row <= col {
        col
    } else {
        row
    };
    seq![spec_rank_char(spec_rank_at(first)), spec_rank_char(spec_rank_at(second))] + (
    match spec_shape(row, col) {
        Shape::Pair => Seq::<char>::empty(),
        Shape::Suited => seq!['s'],
        Shape::Offsuit => seq!['o'],
    })
}

/// Builds the label of the cell at `row`, `col`, such as "AKs" or "77".
pub fn cell_label(row: u8, col: u8) -> (r: String)
    requires
        row < 13,
        col < 13,
    ensures
        r@ == spec_cell_label(row as int, col as int),
{
    proof {
        reveal_strlit("s");
        reveal_strlit("o");
    }
    let first = if row <= col {
        row
    } else {
        col
    };
    let second = if row <= col {
        col
    } else {
        row
    };
    let mut r = String::new();
    r.append(rank_str(12 - first));
    r.append(rank_str(12 - second));
    if row < col {
        r.append("s");
    } else if row > col {
        r.append("o");
    }
    proof {
        assert(r@ =~= spec_cell_label(row as int, col as int));
    }
    r
}

/// Every combination of a cell is made of two distinct well-formed cards.
pub proof fn lemma_cell_combos_wf(row: int, col: int)
    requires
        0 <= row < 13,
        0 <= col < 13,
    ensures
        forall|k: int|
            0 <= k < spec_cell_combos(row, col).len() ==> wf_card(
                (#[trigger] spec_cell_combos(row, col)[k]).0,
            ) && wf_card(spec_cell_combos(row, col)[k].1) && spec_cell_combos(row, col)[k].0
                != spec_cell_combos(row, col)[k].1,
{
    let s = spec_cell_combos(row, col);
    assert forall|k: int|
        0 <= k < s.len() implies wf_card((#[trigger] s[k]).0) && wf_card(s[k].1) && s[k].0
        != s[k].1 by {
        assert(0 <= spec_rank_at(row) < 13 && 0 <= spec_rank_at(col) < 13);
    }
}

/// The cell an unordered pair of two distinct cards belongs to: its ranks
/// pick the row and the column, suitedness picks the side of the diagonal.
pub open spec fn spec_cell_of(a: Card, b: Card) -> (int, int) {
    if a.rank == b.rank {
        (12 - a.rank as int, 12 - a.rank as int)
    } else {
        let hi = if a.rank > b.rank {
            a.rank as int
        } else {
            b.rank as int
        };
        let lo = if a.rank > b.rank {
            b.rank as int
        } else {
            a.rank as int
        };
        if a.suit == b.suit {
            (12 - hi, 12 - lo)
        } else {
            (12 - lo, 12 - hi)
        }
    }
}

/// Each unordered pair of two distinct cards appears among the combinations
/// of exactly one cell: the cell `spec_cell_of` assigns it to.
pub proof fn lemma_cell_assignment(a: Card, b: Card, row: int, col: int)
    requires
        wf_card(a),
        wf_card(b),
        a != b,
        0 <= row < 13,
        0 <= col < 13,
    ensures
        (exists|k: int|
            0 <= k < spec_cell_combos(row, col).len() && pair_matches(
                #[trigger] spec_cell_combos(row, col)[k],
                a,
                b,
            )) <==> (row, col) == spec_cell_of(a, b),
{
    let s = spec_cell_combos(row, col);
    let r1 = spec_rank_at(row);
    let r2 = spec_rank_at(col);
    if (row, col) == spec_cell_of(a, b) {
        if a.rank == b.rank {
            let lo = if a.suit < b.suit {
                a
            } else {
                b
            };
            let hi = if a.suit < b.suit {
                b
            } else {
                a
            };
            let s1 = lo.suit as int;
            let s2 = hi.suit as int;
            let k: int = if s1 == 0 {
                s2 - 1
            } else if s1 == 1 {
                s2 + 1
            } else {
                s2 + 2
            };
            assert(s[k] == (mk_card(r1, s1), mk_card(r1, s2)));
            assert(pair_matches(s[k], a, b));
        } else if a.suit == b.suit {
            let k: int = a.suit as int;
            assert(s[k] == (mk_card(r1, k), mk_card(r2, k)));
            assert(pair_matches(s[k], a, b));
        } else {
            let lo = if a.rank > b.rank {
                b
            } else {
                a
            };
            let hi = if a.rank > b.rank {
                a
            } else {
                b
            };
            let s1 = lo.suit as int;
            let s2 = hi.suit as int;
            let k: int = 3 * s1 + if s2 < s1 {
                s2
            } else {
                s2 - 1
            };
            assert(s[k] == (mk_card(r1, s1), mk_card(r2, s2)));
            assert(pair_matches(s[k], a, b));
        }
    }
    if exists|k: int| 0 <= k < s.len() && pair_matches(#[trigger] s[k], a, b) {
        let k = choose|k: int| 0 <= k < s.len() && pair_matches(#[trigger] s[k], a, b);
        let p = s[k];
        if row == col {
            assert(p.0.rank as int == r1 && p.1.rank as int == r1 && p.0.suit != p.1.suit);
            assert((row, col) == spec_cell_of(a, b));
        } else if row < col {
            assert(p.0.rank as int == r1 && p.1.rank as int == r2 && p.0.suit == p.1.suit);
            assert(r1 > r2);
            assert((row, col) == spec_cell_of(a, b));
        } else {
            assert(p.0.rank as int == r1 && p.1.rank as int == r2 && p.0.suit != p.1.suit);
            assert(r1 < r2);
            assert((row, col) == spec_cell_of(a, b));
        }
    }
}

/// The number of unordered pairs of an `n`-card sequence is `n (n - 1) / 2`.
pub proof fn lemma_pairs_len(s: Seq<Card>)
    ensures
        spec_pairs(s).len() == s.len() * (s.len() - 1) / 2,
    decreases s.len(),
{
    if s.len() == 0 {
    } else {
        let n = s.len() as int;
        lemma_pairs_len(s.drop_last());
        assert((n - 1) * (n - 2) / 2 + (n - 1) == n * (n - 1) / 2) by (nonlinear_arith)
            requires n >= 1;
    }
}

} // verus!
