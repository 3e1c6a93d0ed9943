//! The card and deck model.
//!
//! A card is a rank (0 = two .. 12 = ace) together with a suit
//! (0 = clubs, 1 = diamonds, 2 = hearts, 3 = spades).  The module derives the
//! remaining deck — the 52 standard cards minus the cards already known to be
//! held — which is the space opponent hands are drawn from.

use vstd::prelude::*;
use vstd::seq_lib::*;
use vstd::set_lib::*;

verus! {

/// A single playing card, identified by rank and suit.
#[derive(Clone, Copy, PartialEq, Eq, Structural, Debug, Hash)]
pub struct Card {
    /// 0 = two, 1 = three, ..., 8 = ten, 9 = jack, 10 = queen, 11 = king, 12 = ace.
    pub rank: u8,
    /// 0 = clubs, 1 = diamonds, 2 = hearts, 3 = spades.
    pub suit: u8,
}

/// A card is well formed when its rank and suit are in range.
pub open spec fn wf_card(c: Card) -> bool {
    c.rank < 13 && c.suit < 4
}

/// Every card of a sequence is well formed.
pub open spec fn wf_cards(s: Seq<Card>) -> bool {
    forall|i: int| 0 <= i < s.len() ==> wf_card(#[trigger] s[i])
}

/// A total order over cards: the position of a card in the full deck.
pub open spec fn card_id(c: Card) -> int {
    c.rank * 4 + c.suit
}

/// The 52 standard cards, ordered by `card_id`.
pub open spec fn full_deck_seq() -> Seq<Card> {
    Seq::new(52, |i: int| Card { rank: (i / 4) as u8, suit: (i % 4) as u8 })
}

/// The deck cards that are not members of the known set `k`.
pub open spec fn card_free(k: Set<Card>) -> spec_fn(Card) -> bool {
    |c: Card| !k.contains(c)
}

/// The remaining deck: the full deck minus the known set, in deck order.
pub open spec fn spec_remaining(k: Set<Card>) -> Seq<Card> {
    full_deck_seq().filter(card_free(k))
}

/// The text form of a rank, one of "23456789TJQKA".
pub open spec fn spec_rank_char(r: int) -> char {
    if r == 0 {
        '2'
    } else if r == 1 {
        '3'
    } else if r == 2 {
        '4'
    } else if r == 3 {
        '5'
    } else if r == 4 {
        '6'
    } else if r == 5 {
        '7'
    } else if r == 6 {
        '8'
    } else if r == 7 {
        '9'
    } else if r == 8 {
        'T'
    } else if r == 9 {
        'J'
    } else if r == 10 {
        'Q'
    } else if r == 11 {
        'K'
    } else {
        'A'
    }
}

/// The text form of a suit, one of "cdhs".
pub open spec fn spec_suit_char(s: int) -> char {
    if s == 0 {
        'c'
    } else if s == 1 {
        'd'
    } else if s == 2 {
        'h'
    } else {
        's'
    }
}

/// The character standing for a rank: '2'..'9', 'T', 'J', 'Q', 'K' or 'A'.
pub fn rank_char(rank: u8) -> (c: char)
    requires
        rank < 13,
    ensures
        c == spec_rank_char(rank as int),
{
    match rank {
        0 => '2',
        1 => '3',
        2 => '4',
        3 => '5',
        4 => '6',
        5 => '7',
        6 => '8',
        7 => '9',
        8 => 'T',
        9 => 'J',
        10 => 'Q',
        11 => 'K',
        _ => 'A',
    }
}

/// The character standing for a suit: 'c', 'd', 'h' or 's'.
pub fn suit_char(suit: u8) -> (c: char)
    requires
        suit < 4,
    ensures
        c == spec_suit_char(suit as int),
{
    match suit {
        0 => 'c',
        1 => 'd',
        2 => 'h',
        _ => 's',
    }
}

/// The rank text of a card face: "10" for a ten, one character otherwise.
pub open spec fn spec_rank_text(r: int) -> Seq<char> {
    if r == 8 {
        seq!['1', '0']
    } else {
        seq![spec_rank_char(r)]
    }
}

/// The symbol of a suit.
pub open spec fn spec_suit_symbol(s: int) -> char {
    if s == 0 {
        '♣'
    } else if s == 1 {
        '♦'
    } else if s == 2 {
        '♥'
    } else {
        '♠'
    }
}

/// The text a card face shows: its rank ("10" for a ten) and its suit symbol.
pub open spec fn spec_display_label(c: Card) -> Seq<char> {
    spec_rank_text(c.rank as int) + seq![spec_suit_symbol(c.suit as int)]
}

/// The one-character text of a rank, 'T' standing for a ten: the form the
/// matrix labels use.
pub fn rank_str(rank: u8) -> (r: &'static str)
    requires
        rank < 13,
    ensures
        r@ == seq![spec_rank_char(rank as int)],
{
    proof {
        reveal_strlit("2");
        reveal_strlit("3");
        reveal_strlit("4");
        reveal_strlit("5");
        reveal_strlit("6");
        reveal_strlit("7");
        reveal_strlit("8");
        reveal_strlit("9");
        reveal_strlit("T");
        reveal_strlit("J");
        reveal_strlit("Q");
        reveal_strlit("K");
        reveal_strlit("A");
    }
    let r = match rank {
        0 => "2",
        1 => "3",
        2 => "4",
        3 => "5",
        4 => "6",
        5 => "7",
        6 => "8",
        7 => "9",
        8 => "T",
        9 => "J",
        10 => "Q",
        11 => "K",
        _ => "A",
    };
    proof {
        assert(r@ =~= seq![spec_rank_char(rank as int)]);
    }
    r
}

/// The text a card shows on a button: rank and suit symbol, "10" spelt out.
pub fn display_label(c: Card) -> (r: String)
    requires
        wf_card(c),
    ensures
        r@ == spec_display_label(c),
{
    proof {
        reveal_strlit("2");
        reveal_strlit("3");
        reveal_strlit("4");
        reveal_strlit("5");
        reveal_strlit("6");
        reveal_strlit("7");
        reveal_strlit("8");
        reveal_strlit("9");
        reveal_strlit("10");
        reveal_strlit("J");
        reveal_strlit("Q");
        reveal_strlit("K");
        reveal_strlit("A");
        reveal_strlit("♣");
        reveal_strlit("♦");
        reveal_strlit("♥");
        reveal_strlit("♠");
    }
    let mut r = String::new();
    match c.rank {
        0 => r.append("2"),
        1 => r.append("3"),
        2 => r.append("4"),
        3 => r.append("5"),
        4 => r.append("6"),
        5 => r.append("7"),
        6 => r.append("8"),
        7 => r.append("9"),
        8 => r.append("10"),
        9 => r.append("J"),
        10 => r.append("Q"),
        11 => r.append("K"),
        _ => r.append("A"),
    }
    match c.suit {
        0 => r.append("♣"),
        1 => r.append("♦"),
        2 => r.append("♥"),
        _ => r.append("♠"),
    }
    proof {
        assert(r@ =~= spec_display_label(c));
    }
    r
}

/// Builds the 52-card deck in `card_id` order.
pub fn full_deck() -> (r: Vec<Card>)
    ensures
        r@ == full_deck_seq(),
{
    let mut r: Vec<Card> = Vec::new();
    let mut rank: u8 = 0;
    while rank < 13
        invariant
            rank <= 13,
            r@.len() == 4 * rank,
            forall|k: int|
                0 <= k < r@.len() ==> #[trigger] r@[k] == (Card {
                    rank: (k / 4) as u8,
                    suit: (k % 4) as u8,
                }),
        decreases 13 - rank,
    {
        let mut suit: u8 = 0;
        while suit < 4
            invariant
                rank < 13,
                suit <= 4,
                r@.len() == 4 * rank + suit,
                forall|k: int|
                    0 <= k < r@.len() ==> #[trigger] r@[k] == (Card {
                        rank: (k / 4) as u8,
                        suit: (k % 4) as u8,
                    }),
            decreases 4 - suit,
        {
            r.push(Card { rank, suit });
            proof {
                assert((4 * rank + suit) / 4 == rank as int && (4 * rank + suit) % 4 == suit as int)
                    by (nonlinear_arith)
                    requires rank < 13 && suit < 4;
            }
            suit = suit + 1;
        }
        rank = rank + 1;
    }
    proof {
        assert(r@ =~= full_deck_seq());
    }
    r
}

/// Whether `c` is one of the cards in `known`: the membership test the
/// presentation layer uses to grey out cards that are already in play.
pub fn is_known(known: &Vec<Card>, c: Card) -> (b: bool)
    ensures
        b == known@.contains(c),
{
    let mut i: usize = 0;
    while i < known.len()
        invariant
            i <= known@.len(),
            forall|k: int| 0 <= k < i ==> known@[k] != c,
        decreases known@.len() - i,
    {
        if known[i] == c {
            return true;
        }
        i = i + 1;
    }
    false
}

/// Whether the cards of `v` are pairwise distinct.
pub fn distinct_cards(v: &Vec<Card>) -> (b: bool)
    ensures
        b == v@.no_duplicates(),
{
    let mut i: usize = 0;
    while i < v.len()
        invariant
            i <= v@.len(),
            forall|p: int, q: int| 0 <= p < q < v@.len() && p < i ==> v@[p] != v@[q],
        decreases v@.len() - i,
    {
        let mut j: usize = i + 1;
        while j < v.len()
            invariant
                i < j <= v@.len(),
                forall|p: int, q: int| 0 <= p < q < v@.len() && p < i ==> v@[p] != v@[q],
                forall|q: int| i < q < j ==> v@[i as int] != v@[q],
            decreases v@.len() - j,
        {
            if v[i] == v[j] {
                return false;
            }
            j = j + 1;
        }
        i = i + 1;
    }
    true
}

/// Appends to `acc` every card of `part` that `acc` does not hold yet.
fn add_new_cards(acc: &mut Vec<Card>, part: &Vec<Card>)
    requires
        old(acc)@.no_duplicates(),
    ensures
        final(acc)@.no_duplicates(),
        forall|c: Card|
            #[trigger] final(acc)@.contains(c) <==> old(acc)@.contains(c) || part@.contains(c),
{
    broadcast use vstd::seq_lib::group_seq_properties;

    let mut i: usize = 0;
    while i < part.len()
        invariant
            i <= part@.len(),
            acc@.no_duplicates(),
            forall|c: Card|
                #[trigger] acc@.contains(c) <==> old(acc)@.contains(c) || part@.take(
                    i as int,
                ).contains(c),
        decreases part@.len() - i,
    {
        broadcast use vstd::seq_lib::group_seq_properties;

        let c = part[i];
        let ghost prev = acc@;
        if !is_known(acc, c) {
            acc.push(c);
            proof {
                assert(acc@ == prev.push(c));
                assert forall|p: int, q: int|
                    0 <= p < q < acc@.len() implies acc@[p] != acc@[q] by {
                    if q == acc@.len() - 1 {
                        assert(acc@[p] == prev[p]);
                        assert(prev[p] != c);
                    }
                }
            }
        }
        proof {
            assert(part@.take(i + 1) =~= part@.take(i as int).push(part@[i as int]));
        }
        i = i + 1;
    }
    proof {
        assert(part@.take(part@.len() as int) =~= part@);
    }
}

/// Collects the known-card set: every card assigned to the hero, the board,
/// the declared villain or a declared friend, each card once.  A card that
/// appears in more than one role is simply taken as known once.
pub fn known_cards(hero: &Vec<Card>, board: &Vec<Card>, villain: &Vec<Card>, friends: &Vec<Card>)
    -> (r: Vec<Card>)
    ensures
        r@.no_duplicates(),
        forall|c: Card|
            #[trigger] r@.contains(c) <==> hero@.contains(c) || board@.contains(c)
                || villain@.contains(c) || friends@.contains(c),
        r@.to_set() == hero@.to_set() + board@.to_set() + villain@.to_set() + friends@.to_set(),
{
    let mut r: Vec<Card> = Vec::new();
    add_new_cards(&mut r, hero);
    add_new_cards(&mut r, board);
    add_new_cards(&mut r, villain);
    add_new_cards(&mut r, friends);
    proof {
        assert(r@.to_set() =~= hero@.to_set() + board@.to_set() + villain@.to_set()
            + friends@.to_set());
    }
    r
}

/// Derives the remaining deck: all 52 cards minus the cards of `known`.
pub fn remaining_deck(known: &Vec<Card>) -> (r: Vec<Card>)
    ensures
        r@ == spec_remaining(known@.to_set()),
{
    let ghost k: Set<Card> = known@.to_set();
    let deck = full_deck();
    let mut r: Vec<Card> = Vec::new();
    let mut i: usize = 0;
    while i < deck.len()
        invariant
            deck@ == full_deck_seq(),
            i <= 52,
            r@ == deck@.take(i as int).filter(card_free(k)),
            k == known@.to_set(),
        decreases 52 - i,
    {
        let c = deck[i];
        let present = is_known(known, c);
        if !present {
            r.push(c);
        }
        proof {
            reveal_with_fuel(Seq::filter, 2);
            let t = deck@.take(i + 1);
            assert(t.drop_last() =~= deck@.take(i as int));
            assert(t.last() == c);
            assert(k.contains(c) == known@.contains(c));
            if !present {
                assert(card_free(k)(c));
                assert(t.filter(card_free(k)) == deck@.take(i as int).filter(card_free(k)).push(c));
            } else {
                assert(!card_free(k)(c));
                assert(t.filter(card_free(k)) == deck@.take(i as int).filter(card_free(k)));
            }
        }
        i = i + 1;
    }
    proof {
        assert(deck@.take(52) =~= deck@);
    }
    r
}

/// The filtered sequence of a duplicate-free sequence is duplicate-free, and
/// each of its cards comes from the source sequence.
proof fn lemma_filter_distinct(s: Seq<Card>, p: spec_fn(Card) -> bool)
    requires
        s.no_duplicates(),
    ensures
        s.filter(p).no_duplicates(),
        forall|i: int| 0 <= i < s.filter(p).len() ==> s.contains(#[trigger] s.filter(p)[i]),
    decreases s.len(),
{
    reveal(Seq::filter);
    if s.len() > 0 {
        let t = s.drop_last();
        let f = t.filter(p);
        lemma_filter_distinct(t, p);
        assert forall|i: int| 0 <= i < f.len() implies s.contains(#[trigger] f[i]) by {
            assert(t.contains(f[i]));
            let w = choose|w: int| 0 <= w < t.len() && t[w] == f[i];
            assert(s[w] == f[i]);
        }
        if p(s.last()) {
            assert forall|i: int| 0 <= i < f.len() implies f[i] != s.last() by {
                assert(t.contains(f[i]));
                let w = choose|w: int| 0 <= w < t.len() && t[w] == f[i];
                assert(s[w] == f[i]);
                assert(s[w] != s[s.len() - 1]);
            }
            assert(s.filter(p) == f.push(s.last()));
            assert forall|a: int, b: int|
                0 <= a < b < s.filter(p).len() implies s.filter(p)[a] != s.filter(p)[b] by {
                if b < f.len() {
                    assert(s.filter(p)[a] == f[a] && s.filter(p)[b] == f[b]);
                } else {
                    assert(s.filter(p)[a] == f[a] && s.filter(p)[b] == s.last());
                }
            }
        }
    }
}

/// The deck holds each well-formed card exactly once.
proof fn lemma_full_deck_contents()
    ensures
        full_deck_seq().no_duplicates(),
        forall|c: Card| #[trigger] full_deck_seq().contains(c) <==> wf_card(c),
{
    assert forall|i: int, j: int|
        0 <= i < 52 && 0 <= j < 52 && i != j implies full_deck_seq()[i] != full_deck_seq()[j] by {
        assert(i / 4 != j / 4 || i % 4 != j % 4) by (nonlinear_arith)
            requires 0 <= i < 52 && 0 <= j < 52 && i != j;
    }
    assert forall|c: Card| wf_card(c) implies #[trigger] full_deck_seq().contains(c) by {
        let i: int = card_id(c);
        assert(i / 4 == c.rank as int && i % 4 == c.suit as int) by (nonlinear_arith)
            requires i == c.rank * 4 + c.suit && c.rank < 13 && c.suit < 4;
        assert(full_deck_seq()[i] == c);
    }
    assert forall|c: Card| #[trigger] full_deck_seq().contains(c) implies wf_card(c) by {
        let i = choose|i: int| 0 <= i < 52 && full_deck_seq()[i] == c;
        assert(0 <= i / 4 < 13 && 0 <= i % 4 < 4) by (nonlinear_arith)
            requires 0 <= i < 52;
        assert(c.rank == (i / 4) as u8 && c.suit == (i % 4) as u8);
    }
}

/// The remaining deck holds exactly the well-formed cards outside the known
/// set, in deck order and without duplicates; it never meets the known set,
/// and when every known card is a well-formed card it has `52 - |known|`
/// members.
pub proof fn lemma_remaining_deck(k: Set<Card>)
    requires
        k.finite(),
    ensures
        spec_remaining(k).no_duplicates(),
        forall|c: Card| #[trigger] spec_remaining(k).contains(c) <==> wf_card(c) && !k.contains(c),
        forall|c: Card| #[trigger] k.contains(c) ==> !spec_remaining(k).contains(c),
        (forall|c: Card| #[trigger] k.contains(c) ==> wf_card(c)) ==> spec_remaining(k).len() == 52
            - k.len(),
{
    broadcast use vstd::seq_lib::group_filter_ensures;

    let deck = full_deck_seq();
    let rem = spec_remaining(k);
    lemma_full_deck_contents();
    lemma_filter_distinct(deck, card_free(k));
    assert forall|c: Card| #[trigger] rem.contains(c) implies wf_card(c) && !k.contains(c) by {
        let i = choose|i: int| 0 <= i < rem.len() && rem[i] == c;
        assert(deck.contains(rem[i]));
        assert(card_free(k)(rem[i]));
    }
    assert forall|c: Card| wf_card(c) && !k.contains(c) implies #[trigger] rem.contains(c) by {
        assert(deck.contains(c));
        let i = choose|i: int| 0 <= i < deck.len() && deck[i] == c;
        assert(card_free(k)(deck[i]));
        assert(deck.filter(card_free(k)).contains(deck[i]));
    }
    if forall|c: Card| #[trigger] k.contains(c) ==> wf_card(c) {
        rem.unique_seq_to_set();
        deck.unique_seq_to_set();
        assert(rem.to_set() =~= deck.to_set().difference(k));
        lemma_set_difference_len(deck.to_set(), k);
        assert(deck.to_set().intersect(k) =~= k);
    }
}

} // verus!
