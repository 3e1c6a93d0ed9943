use range_equity::card::{
    display_label, distinct_cards, full_deck, is_known, known_cards, rank_char, rank_str,
    remaining_deck, suit_char, Card,
};

fn c(rank: u8, suit: u8) -> Card {
    Card { rank, suit }
}

#[test]
fn full_deck_has_52_distinct_cards() {
    let deck = full_deck();
    assert_eq!(deck.len(), 52);
    assert!(distinct_cards(&deck));
}

#[test]
fn remaining_deck_of_empty_known_is_whole_deck() {
    let known: Vec<Card> = Vec::new();
    let rem = remaining_deck(&known);
    assert_eq!(rem.len(), 52);
    assert!(distinct_cards(&rem));
}

#[test]
fn remaining_deck_drops_exactly_the_known_cards() {
    // Three known cards: ace of spades, eight of diamonds, queen of clubs.
    let known = vec![c(12, 3), c(6, 1), c(10, 0)];
    let rem = remaining_deck(&known);
    assert_eq!(rem.len(), 52 - 3);
    for card in &known {
        assert!(!is_known(&rem, *card));
    }
    for card in &rem {
        assert!(!is_known(&known, *card));
    }
}

#[test]
fn remaining_deck_of_fully_known_deck_is_empty() {
    let rem = remaining_deck(&full_deck());
    assert_eq!(rem.len(), 0);
}

#[test]
fn known_cards_collects_each_card_once() {
    // The queen of clubs appears both as a board card and as a friend's card:
    // it is taken as known once.
    let hero = vec![c(10, 2), c(10, 1)];
    let board = vec![c(12, 3), c(6, 1), c(10, 0)];
    let villain: Vec<Card> = Vec::new();
    let friends = vec![c(10, 0), c(0, 0)];
    let known = known_cards(&hero, &board, &villain, &friends);
    assert_eq!(known.len(), 6);
    assert!(distinct_cards(&known));
    assert!(is_known(&known, c(10, 0)));
    assert!(is_known(&known, c(0, 0)));
    assert!(!is_known(&known, c(12, 2)));
}

#[test]
fn distinct_cards_spots_a_duplicate() {
    assert!(distinct_cards(&vec![c(0, 0), c(0, 1), c(1, 0)]));
    assert!(!distinct_cards(&vec![c(0, 0), c(0, 1), c(0, 0)]));
}

#[test]
fn rank_and_suit_characters() {
    assert_eq!(rank_char(0), '2');
    assert_eq!(rank_char(8), 'T');
    assert_eq!(rank_char(12), 'A');
    assert_eq!(suit_char(0), 'c');
    assert_eq!(suit_char(1), 'd');
    assert_eq!(suit_char(2), 'h');
    assert_eq!(suit_char(3), 's');
    assert_eq!(rank_str(8), "T");
    assert_eq!(rank_str(11), "K");
}

#[test]
fn display_labels_spell_cards_out() {
    assert_eq!(display_label(c(10, 2)), "Q♥");
    assert_eq!(display_label(c(8, 0)), "10♣");
    assert_eq!(display_label(c(12, 3)), "A♠");
    assert_eq!(display_label(c(0, 1)), "2♦");
}
