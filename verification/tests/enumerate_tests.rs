use range_equity::card::{remaining_deck, Card};
use range_equity::enumerate::{cell_combos, cell_label, enumerate_pairs, shape_of, Shape};

fn c(rank: u8, suit: u8) -> Card {
    Card { rank, suit }
}

#[test]
fn pairs_of_four_cards_are_the_six_combinations() {
    let deck = vec![c(0, 0), c(0, 1), c(5, 2), c(12, 3)];
    let pairs = enumerate_pairs(&deck);
    assert_eq!(pairs.len(), 6);
    // Every unordered pair of two distinct deck cards appears exactly once:
    // no duplicates, no reversed duplicates.
    for i in 0..deck.len() {
        for j in (i + 1)..deck.len() {
            let hits = pairs
                .iter()
                .filter(|p| {
                    (p.0 == deck[i] && p.1 == deck[j]) || (p.0 == deck[j] && p.1 == deck[i])
                })
                .count();
            assert_eq!(hits, 1);
        }
    }
}

#[test]
fn pairs_of_the_full_deck_number_1326() {
    let known: Vec<Card> = Vec::new();
    let rem = remaining_deck(&known);
    let pairs = enumerate_pairs(&rem);
    assert_eq!(pairs.len(), 1326);
}

#[test]
fn cell_shapes_follow_the_grid() {
    assert_eq!(shape_of(0, 0), Shape::Pair);
    assert_eq!(shape_of(0, 1), Shape::Suited);
    assert_eq!(shape_of(1, 0), Shape::Offsuit);
}

#[test]
fn cell_combo_counts_are_6_4_12() {
    assert_eq!(cell_combos(0, 0).len(), 6);
    assert_eq!(cell_combos(0, 1).len(), 4);
    assert_eq!(cell_combos(1, 0).len(), 12);
    assert_eq!(cell_combos(12, 12).len(), 6);
}

#[test]
fn cell_combos_fit_their_cell() {
    // Cell (0, 1): ace-king suited.  Every combination holds an ace and a
    // king of one shared suit.
    let combos = cell_combos(0, 1);
    for p in &combos {
        assert_eq!(p.0.rank, 12);
        assert_eq!(p.1.rank, 11);
        assert_eq!(p.0.suit, p.1.suit);
    }
    // Cell (1, 0): ace-king offsuit, suits always different.
    let combos = cell_combos(1, 0);
    for p in &combos {
        assert_eq!(p.0.rank, 11);
        assert_eq!(p.1.rank, 12);
        assert_ne!(p.0.suit, p.1.suit);
    }
    // Cell (5, 5): pocket nines, two different suits of one rank.
    let combos = cell_combos(5, 5);
    for p in &combos {
        assert_eq!(p.0.rank, 7);
        assert_eq!(p.1.rank, 7);
        assert_ne!(p.0.suit, p.1.suit);
    }
}

#[test]
fn cell_labels_name_the_hands() {
    assert_eq!(cell_label(0, 0), "AA");
    assert_eq!(cell_label(0, 1), "AKs");
    assert_eq!(cell_label(1, 0), "AKo");
    assert_eq!(cell_label(5, 5), "99");
    assert_eq!(cell_label(12, 12), "22");
    assert_eq!(cell_label(3, 4), "JTs");
}
