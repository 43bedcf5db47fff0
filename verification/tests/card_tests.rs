use cardset::{Card, Rank, Suit, NUM_CARDS};
use std::collections::HashSet;

#[test]
fn from_index_produces_sorted_values() {
    let cards_in_order: Vec<Card> = (0..NUM_CARDS).map(Card::from_index).collect();
    let mut cards_sorted = cards_in_order.clone();
    cards_sorted.sort();
    assert_eq!(cards_in_order, cards_sorted);
}

#[test]
fn from_index_has_no_duplicates() {
    let card_set: HashSet<Card> = (0..NUM_CARDS).map(Card::from_index).collect();
    assert_eq!(card_set.len(), NUM_CARDS);
}

#[test]
fn from_index_is_bijective_with_to_index() {
    for i in 0..NUM_CARDS {
        assert_eq!(Card::from_index(i).to_index(), i)
    }
}

#[test]
fn test_parse() {
    assert_eq!(Card::parse("As"), Some(Card::new(Rank::Ace, Suit::Spade)));
    assert_eq!(Card::parse("aS"), Some(Card::new(Rank::Ace, Suit::Spade)));
    assert_eq!(Card::parse("Kh"), Some(Card::new(Rank::King, Suit::Heart)));
    assert_eq!(Card::parse("Tc"), Some(Card::new(Rank::Ten, Suit::Club)));
    assert_eq!(Card::parse("6d"), Some(Card::new(Rank::Six, Suit::Diamond)));
    assert_eq!(Card::parse("2f"), None);
    assert_eq!(Card::parse("Fh"), None);
    assert_eq!(Card::parse("Ash"), None);
    assert_eq!(Card::parse("A"), None);
    assert_eq!(Card::parse(""), None);
}

#[test]
fn to_index_exact_values() {
    assert_eq!(Card::new(Rank::Two, Suit::Diamond).to_index(), 0);
    assert_eq!(Card::new(Rank::Two, Suit::Spade).to_index(), 3);
    assert_eq!(Card::new(Rank::Three, Suit::Diamond).to_index(), 4);
    assert_eq!(Card::new(Rank::Ten, Suit::Heart).to_index(), 34);
    assert_eq!(Card::new(Rank::Ace, Suit::Spade).to_index(), 51);
}

#[test]
fn from_index_exact_values() {
    assert_eq!(Card::from_index(0), Card::new(Rank::Two, Suit::Diamond));
    assert_eq!(Card::from_index(5), Card::new(Rank::Three, Suit::Club));
    assert_eq!(Card::from_index(51), Card::new(Rank::Ace, Suit::Spade));
}

#[test]
fn to_index_from_index_round_trip_every_card() {
    for r in cardset::ALL_RANKS {
        for s in cardset::ALL_SUITS {
            let c = Card::new(r, s);
            assert_eq!(Card::from_index(c.to_index()), c);
        }
    }
}

#[test]
fn parse_every_rank_and_suit_character() {
    let ranks = [
        ('2', Rank::Two), ('3', Rank::Three), ('4', Rank::Four), ('5', Rank::Five),
        ('6', Rank::Six), ('7', Rank::Seven), ('8', Rank::Eight), ('9', Rank::Nine),
        ('T', Rank::Ten), ('t', Rank::Ten), ('J', Rank::Jack), ('j', Rank::Jack),
        ('Q', Rank::Queen), ('q', Rank::Queen), ('K', Rank::King), ('k', Rank::King),
        ('A', Rank::Ace), ('a', Rank::Ace),
    ];
    let suits = [
        ('c', Suit::Club), ('C', Suit::Club), ('d', Suit::Diamond), ('D', Suit::Diamond),
        ('h', Suit::Heart), ('H', Suit::Heart), ('s', Suit::Spade), ('S', Suit::Spade),
    ];
    for (rc, r) in ranks {
        for (sc, s) in suits {
            let text: String = [rc, sc].iter().collect();
            assert_eq!(Card::parse(&text), Some(Card::new(r, s)));
        }
    }
}

#[test]
fn parse_rejects_bad_text() {
    assert_eq!(Card::parse("1s"), None);
    assert_eq!(Card::parse("sA"), None);
    assert_eq!(Card::parse("Ax"), None);
    assert_eq!(Card::parse(" As"), None);
    assert_eq!(Card::parse("Äs"), None);
    assert_eq!(Card::parse("AsAs"), None);
}

#[test]
fn getters_and_constructors_agree() {
    let c = Card::new(Rank::Queen, Suit::Heart);
    assert_eq!(c.rank(), Rank::Queen);
    assert_eq!(c.suit(), Suit::Heart);
    assert_eq!(Card::new_const(Rank::Queen, Suit::Heart), c);
}

#[test]
fn card_vec_parses_in_order() {
    let v = cardset::card::card_vec(&["As", "2d", "tH"]);
    assert_eq!(
        v,
        vec![
            Card::new(Rank::Ace, Suit::Spade),
            Card::new(Rank::Two, Suit::Diamond),
            Card::new(Rank::Ten, Suit::Heart)
        ]
    );
}
