use range_equity::card::Card;
use range_equity::classify::{cell_state, toggle_exclusion, CellCounts, CellState};
use range_equity::engine::{compute, EngineOutput, EngineStatus};
use range_equity::enumerate::Shape;

fn c(rank: u8, suit: u8) -> Card {
    Card { rank, suit }
}

fn cell(out: &EngineOutput, row: usize, col: usize) -> &range_equity::engine::CellResult {
    &out.cells[row * 13 + col]
}

fn no_cards() -> Vec<Card> {
    Vec::new()
}

fn no_exclusions() -> Vec<(u8, u8)> {
    Vec::new()
}

// Hero Q♥ Q♦, board A♠ 8♦ Q♣: trip queens.
fn hero_queens() -> Vec<Card> {
    vec![c(10, 2), c(10, 1)]
}

fn board_a8q() -> Vec<Card> {
    vec![c(12, 3), c(6, 1), c(10, 0)]
}

#[test]
fn heads_up_aces_beat_trip_queens() {
    // Hero Q♥Q♦ on A♠8♦Q♣ holds trip queens; villain A♥A♦ holds trip aces.
    let villain = vec![c(12, 2), c(12, 1)];
    let out = compute(&hero_queens(), &board_a8q(), &villain, &no_cards(), &no_exclusions());
    assert_eq!(out.status, EngineStatus::Evaluated);
    assert_eq!(out.totals.possible, 1);
    assert_eq!(out.totals.losing, 1);
    assert_eq!(out.totals.winning, 0);
    assert_eq!(out.totals.ties, 0);
}

#[test]
fn heads_up_comparison_runs_both_ways() {
    // The same cards with the roles swapped: the hero's trip aces win.
    let hero = vec![c(12, 2), c(12, 1)];
    let villain = vec![c(10, 2), c(10, 1)];
    let out = compute(&hero, &board_a8q(), &villain, &no_cards(), &no_exclusions());
    assert_eq!(out.totals.possible, 1);
    assert_eq!(out.totals.winning, 1);
    assert_eq!(out.totals.losing, 0);
}

#[test]
fn heads_up_board_plays_as_a_tie() {
    // A royal flush on the board: both pocket pairs play the board.
    let board = vec![c(12, 3), c(11, 3), c(10, 3), c(9, 3), c(8, 3)];
    let hero = vec![c(0, 2), c(0, 1)];
    let villain = vec![c(1, 2), c(1, 1)];
    let out = compute(&hero, &board, &villain, &no_cards(), &no_exclusions());
    assert_eq!(out.totals.possible, 1);
    assert_eq!(out.totals.ties, 1);
    assert_eq!(out.totals.winning, 0);
    assert_eq!(out.totals.losing, 0);
}

#[test]
fn heads_up_villain_sharing_a_board_card_counts_nothing() {
    // The villain hand holds the A♠ that lies on the board: the combination
    // cannot be evaluated and is excluded from every total.
    let villain = vec![c(12, 3), c(12, 1)];
    let out = compute(&hero_queens(), &board_a8q(), &villain, &no_cards(), &no_exclusions());
    assert_eq!(out.status, EngineStatus::Evaluated);
    assert_eq!(out.totals.possible, 0);
    assert_eq!(out.totals.winning, 0);
    assert_eq!(out.totals.losing, 0);
    assert_eq!(out.totals.ties, 0);
}

#[test]
fn empty_board_reports_insufficient_information() {
    // Range mode with a complete hero hand but no board: no result, zero
    // possible hands, whatever else is known.
    let hero = vec![c(12, 3), c(12, 2)];
    let friends = vec![c(5, 0), c(7, 1)];
    let out = compute(&hero, &no_cards(), &no_cards(), &friends, &no_exclusions());
    assert_eq!(out.status, EngineStatus::InsufficientInformation);
    assert_eq!(out.totals.possible, 0);
    assert_eq!(out.totals.winning, 0);
    assert_eq!(out.totals.losing, 0);
    assert_eq!(out.totals.ties, 0);
}

#[test]
fn incomplete_hero_hand_reports_insufficient_information() {
    let hero = vec![c(12, 3)];
    let out = compute(&hero, &board_a8q(), &no_cards(), &no_cards(), &no_exclusions());
    assert_eq!(out.status, EngineStatus::InsufficientInformation);
    assert_eq!(out.totals.possible, 0);
}

#[test]
fn hero_card_repeated_on_the_board_reports_insufficient_information() {
    // The A♠ sits both in the hero hand and on the board: the hero cannot be
    // evaluated.
    let hero = vec![c(12, 3), c(12, 2)];
    let board = vec![c(12, 3), c(11, 1), c(10, 1)];
    let out = compute(&hero, &board, &no_cards(), &no_cards(), &no_exclusions());
    assert_eq!(out.status, EngineStatus::InsufficientInformation);
    assert_eq!(out.totals.possible, 0);
}

#[test]
fn range_mode_hero_royal_flush_beats_every_hand() {
    // Hero A♠K♠ on Q♠J♠10♠: a royal flush.  47 cards remain, and every one
    // of the 1081 opponent hands loses.
    let hero = vec![c(12, 3), c(11, 3)];
    let board = vec![c(10, 3), c(9, 3), c(8, 3)];
    let out = compute(&hero, &board, &no_cards(), &no_cards(), &no_exclusions());
    assert_eq!(out.status, EngineStatus::Evaluated);
    assert_eq!(out.totals.possible, 1081);
    assert_eq!(out.totals.winning, 1081);
    assert_eq!(out.totals.losing, 0);
    assert_eq!(out.totals.ties, 0);
}

#[test]
fn range_mode_royal_board_ties_every_hand() {
    // The royal flush lies on the board: all 990 opponent hands split.
    let board = vec![c(12, 3), c(11, 3), c(10, 3), c(9, 3), c(8, 3)];
    let hero = vec![c(0, 2), c(0, 1)];
    let out = compute(&hero, &board, &no_cards(), &no_cards(), &no_exclusions());
    assert_eq!(out.totals.possible, 990);
    assert_eq!(out.totals.ties, 990);
    assert_eq!(out.totals.winning, 0);
    assert_eq!(out.totals.losing, 0);
}

#[test]
fn range_mode_counts_add_up() {
    let out = compute(&hero_queens(), &board_a8q(), &no_cards(), &no_cards(), &no_exclusions());
    // 5 cards are known, 47 remain: 1081 opponent hands, each evaluated.
    assert_eq!(out.totals.possible, 1081);
    assert_eq!(
        out.totals.winning + out.totals.losing + out.totals.ties,
        out.totals.possible
    );
    assert!(out.totals.losing > 0);
    assert!(out.totals.winning > 0);
}

#[test]
fn matrix_covers_all_1326_combinations() {
    let out = compute(&hero_queens(), &board_a8q(), &no_cards(), &no_cards(), &no_exclusions());
    assert_eq!(out.cells.len(), 169);
    let mut total: u64 = 0;
    let mut unblocked: u64 = 0;
    for cl in &out.cells {
        total += cl.counts.total as u64;
        unblocked += (cl.counts.total - cl.counts.blocked) as u64;
    }
    assert_eq!(total, 1326);
    // In range mode every unblocked combination is an evaluated opponent hand.
    assert_eq!(unblocked, out.totals.possible as u64);
}

#[test]
fn cell_sums_hold_for_every_cell() {
    // For every cell: winning + losing + ties + blocked + failed == total.
    let out = compute(&hero_queens(), &board_a8q(), &no_cards(), &no_cards(), &no_exclusions());
    for cl in &out.cells {
        assert_eq!(
            cl.counts.winning + cl.counts.losing + cl.counts.ties + cl.counts.blocked
                + cl.counts.failed,
            cl.counts.total
        );
    }
}

#[test]
fn cell_totals_are_fixed_by_shape() {
    // Two computations with different heroes and boards: every cell's total
    // is the same, and is 6 on the diagonal, 4 above it, 12 below it.
    let out1 = compute(&hero_queens(), &board_a8q(), &no_cards(), &no_cards(), &no_exclusions());
    let hero2 = vec![c(0, 0), c(1, 1)];
    let board2 = vec![c(5, 0), c(7, 1), c(9, 2), c(11, 3)];
    let out2 = compute(&hero2, &board2, &no_cards(), &no_cards(), &no_exclusions());
    for row in 0..13 {
        for col in 0..13 {
            let t1 = cell(&out1, row, col).counts.total;
            let t2 = cell(&out2, row, col).counts.total;
            assert_eq!(t1, t2);
            let expect = if row == col {
                6
            } else if row < col {
                4
            } else {
                12
            };
            assert_eq!(t1, expect);
        }
    }
}

#[test]
fn identical_inputs_yield_identical_results() {
    let exclusions = vec![(3u8, 4u8)];
    let friends = vec![c(4, 0), c(4, 1)];
    let out1 = compute(&hero_queens(), &board_a8q(), &no_cards(), &friends, &exclusions);
    let out2 = compute(&hero_queens(), &board_a8q(), &no_cards(), &friends, &exclusions);
    assert_eq!(out1.status, out2.status);
    assert_eq!(out1.totals, out2.totals);
    assert_eq!(out1.cells, out2.cells);
}

#[test]
fn exclusion_changes_display_only() {
    // Hero A♣A♦ on K♦7♣2♠: pocket threes always lose to the hero, so their
    // cell shows Safe.  Excluded by hand, it shows Excluded instead, with
    // every counter unchanged.
    let hero = vec![c(12, 0), c(12, 1)];
    let board = vec![c(11, 1), c(5, 0), c(0, 3)];
    let threes = (11usize, 11usize);
    let out_plain = compute(&hero, &board, &no_cards(), &no_cards(), &no_exclusions());
    let plain = cell(&out_plain, threes.0, threes.1);
    assert!(plain.counts.winning > 0);
    assert_eq!(plain.state, CellState::Safe);

    let excl = vec![(threes.0 as u8, threes.1 as u8)];
    let out_excl = compute(&hero, &board, &no_cards(), &no_cards(), &excl);
    let shaded = cell(&out_excl, threes.0, threes.1);
    assert_eq!(shaded.state, CellState::Excluded);
    assert_eq!(shaded.counts, plain.counts);
}

#[test]
fn cell_states_follow_the_priority_order() {
    let out = compute(&hero_queens(), &board_a8q(), &no_cards(), &no_cards(), &no_exclusions());
    // Pocket aces make trip aces and beat the hero's trip queens: Danger.
    assert_eq!(cell(&out, 0, 0).state, CellState::Danger);
    assert!(cell(&out, 0, 0).counts.losing > 0);
}

#[test]
fn fully_blocked_cell_shows_blocked() {
    // All four aces are in play: no opponent can hold pocket aces.
    let hero = vec![c(12, 3), c(12, 2)];
    let friends = vec![c(12, 1), c(12, 0)];
    let board = vec![c(11, 1), c(10, 1), c(9, 1)];
    let out = compute(&hero, &board, &no_cards(), &friends, &no_exclusions());
    let aces = cell(&out, 0, 0);
    assert_eq!(aces.counts.blocked, 6);
    assert_eq!(aces.counts.total, 6);
    assert_eq!(aces.state, CellState::FullyBlocked);
}

#[test]
fn split_cell_shows_split() {
    // A royal flush on the board ties everything: an untouched cell splits.
    let board = vec![c(12, 3), c(11, 3), c(10, 3), c(9, 3), c(8, 3)];
    let hero = vec![c(0, 2), c(0, 1)];
    let out = compute(&hero, &board, &no_cards(), &no_cards(), &no_exclusions());
    let nines = cell(&out, 5, 5);
    assert!(nines.counts.ties > 0);
    assert_eq!(nines.counts.winning, 0);
    assert_eq!(nines.counts.losing, 0);
    assert_eq!(nines.state, CellState::Split);
}

#[test]
fn preflop_cells_show_their_shape() {
    let out = compute(&no_cards(), &no_cards(), &no_cards(), &no_cards(), &no_exclusions());
    assert_eq!(out.status, EngineStatus::InsufficientInformation);
    assert_eq!(cell(&out, 0, 0).state, CellState::PreflopPair);
    assert_eq!(cell(&out, 0, 1).state, CellState::PreflopSuited);
    assert_eq!(cell(&out, 1, 0).state, CellState::PreflopOffsuit);
}

#[test]
fn classifier_orders_its_predicates() {
    let quiet = CellCounts { total: 6, blocked: 0, winning: 0, losing: 0, ties: 0, failed: 0 };
    assert_eq!(cell_state(&quiet, false, true, Shape::Pair), CellState::NeutralEvaluated);
    assert_eq!(cell_state(&quiet, false, false, Shape::Suited), CellState::PreflopSuited);

    let busy = CellCounts { total: 6, blocked: 1, winning: 2, losing: 1, ties: 2, failed: 0 };
    assert_eq!(cell_state(&busy, false, true, Shape::Pair), CellState::Danger);
    assert_eq!(cell_state(&busy, true, true, Shape::Pair), CellState::Excluded);

    let safe = CellCounts { total: 6, blocked: 1, winning: 3, losing: 0, ties: 2, failed: 0 };
    assert_eq!(cell_state(&safe, false, true, Shape::Pair), CellState::Safe);

    let walled = CellCounts { total: 6, blocked: 6, winning: 0, losing: 0, ties: 0, failed: 0 };
    assert_eq!(cell_state(&walled, false, true, Shape::Pair), CellState::FullyBlocked);
    assert_eq!(cell_state(&walled, true, true, Shape::Pair), CellState::Excluded);
}

#[test]
fn toggling_an_exclusion_adds_and_removes_it() {
    let mut exclusions: Vec<(u8, u8)> = Vec::new();
    toggle_exclusion(&mut exclusions, 3, 4);
    assert_eq!(exclusions, vec![(3, 4)]);
    toggle_exclusion(&mut exclusions, 5, 6);
    assert_eq!(exclusions.len(), 2);
    toggle_exclusion(&mut exclusions, 3, 4);
    assert_eq!(exclusions, vec![(5, 6)]);
    toggle_exclusion(&mut exclusions, 5, 6);
    assert!(exclusions.is_empty());
}
