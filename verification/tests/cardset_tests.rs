use cardset::card::card_vec;
use cardset::{Card, CardSet, NUM_CARDS};
use std::collections::HashSet;

fn cards_of(set: &CardSet) -> Vec<Card> {
    let mut it = set.iter();
    let mut out = Vec::new();
    while let Some(c) = it.next() {
        out.push(c);
    }
    out
}

fn set_of(texts: &[&str]) -> CardSet {
    CardSet::from_iter(&card_vec(texts))
}

/// A fixed sequence of pseudo-random card sets, for properties over many sets.
fn sample_sets() -> Vec<CardSet> {
    let mut state: u64 = 0x9E37_79B9_7F4A_7C15;
    let mut sets = vec![CardSet::empty(), CardSet::all()];
    for _ in 0..200 {
        state ^= state << 13;
        state ^= state >> 7;
        state ^= state << 17;
        let cards: Vec<Card> = (0..NUM_CARDS)
            .filter(|i| (state >> i) & 1 == 1)
            .map(Card::from_index)
            .collect();
        sets.push(CardSet::from_iter(&cards));
    }
    sets
}

fn hash_set(set: &CardSet) -> HashSet<Card> {
    cards_of(set).into_iter().collect()
}

#[test]
fn test_all_cards_have_52() {
    let set = CardSet::all();
    assert_eq!(set.len(), NUM_CARDS);
}

#[test]
fn test_empty_set_has_zero_len() {
    let set = CardSet::empty();
    assert_eq!(set.len(), 0);
}

#[test]
fn test_add_to_empty_set() {
    let card = Card::parse("As").unwrap();
    let set = CardSet::empty() + card;

    assert_eq!(set.len(), 1);
    assert_eq!(set.contains(card), true);
}

#[test]
fn test_add_is_idempotent() {
    let card = Card::parse("As").unwrap();
    let set = CardSet::empty() + card + card;

    assert_eq!(set.len(), 1);
    assert_eq!(set.contains(card), true);
}

#[test]
fn test_addassign_to_empty_set() {
    let mut set = CardSet::empty();
    let card = Card::parse("As").unwrap();

    set += card;

    assert_eq!(set.len(), 1);
    assert_eq!(set.contains(card), true);
}

#[test]
fn test_addassign_is_idempotent() {
    let mut set = CardSet::empty();
    let card = Card::parse("As").unwrap();

    set += card;
    set += card;

    assert_eq!(set.len(), 1);
    assert_eq!(set.contains(card), true);
}

#[test]
fn test_addassign_all_52_cards() {
    let mut set = CardSet::empty();
    for i in 0..NUM_CARDS {
        set += Card::from_index(i);
    }
    assert_eq!(set, CardSet::all());
}

#[test]
fn test_addassign_adds_card_property() {
    for set in sample_sets() {
        for i in 0..NUM_CARDS {
            let card = Card::from_index(i);
            if set.contains(card) {
                continue;
            }
            let mut cardset = set;
            let initial_len = cardset.len();
            cardset += card;
            assert!(cardset.contains(card));
            assert_eq!(cardset.len(), initial_len + 1);
        }
    }
}

#[test]
fn test_bitand_returns_cardset_with_only_shared_cards() {
    let set1 = set_of(&["As", "Kh"]);
    let set2 = set_of(&["Td", "Kh", "8s"]);
    let expected = set_of(&["Kh"]);
    assert_eq!(set1 & set2, expected);
}

#[test]
fn test_bitand_intersects_cards_property() {
    let sets = sample_sets();
    for pair in sets.windows(2) {
        let (a, b) = (pair[0], pair[1]);
        let actual = hash_set(&(a & b));
        let expected: HashSet<Card> = hash_set(&a).intersection(&hash_set(&b)).cloned().collect();
        assert_eq!(actual, expected);
    }
}

#[test]
fn test_bitandassign_removes_all_but_shared_cards() {
    let mut set1 = set_of(&["As", "Kh"]);
    let set2 = set_of(&["Td", "Kh", "8s"]);
    set1 &= set2;
    let expected = set_of(&["Kh"]);
    assert_eq!(set1, expected);
}

#[test]
fn test_bitor_returns_cards_from_both() {
    let set1 = set_of(&["As", "Kh"]);
    let set2 = set_of(&["Td", "Kh", "8s"]);
    let expected = set_of(&["As", "Kh", "Td", "8s"]);
    assert_eq!(set1 | set2, expected);
}

#[test]
fn test_bitor_unions_cards_property() {
    let sets = sample_sets();
    for pair in sets.windows(2) {
        let (a, b) = (pair[0], pair[1]);
        let actual = hash_set(&(a | b));
        let expected: HashSet<Card> = hash_set(&a).union(&hash_set(&b)).cloned().collect();
        assert_eq!(actual, expected);
    }
}

#[test]
fn test_bitor_unions_cards() {
    let mut set1 = set_of(&["As", "Kh"]);
    let set2 = set_of(&["Td", "Kh", "8s"]);
    set1 |= set2;
    let expected = set_of(&["As", "Kh", "Td", "8s"]);
    assert_eq!(set1, expected);
}

#[test]
fn test_disjoint_with_returns_true_for_no_shared_cards() {
    let set1 = set_of(&["As", "Kh"]);
    let set2 = set_of(&["Td", "9d", "8s"]);
    assert!(set1.disjoint_with(set2));
}

#[test]
fn test_disjoint_with_returns_false_for_any_shared_card() {
    let set1 = set_of(&["As", "Kh"]);
    let set2 = set_of(&["Td", "Kh", "8s"]);
    assert!(!set1.disjoint_with(set2));
}

#[test]
fn test_disjoint_with_property() {
    let sets = sample_sets();
    for pair in sets.windows(2) {
        let (a, b) = (pair[0], pair[1]);
        let shared = hash_set(&a).intersection(&hash_set(&b)).count();
        assert_eq!(a.disjoint_with(b), shared == 0);
    }
    assert!(CardSet::empty().disjoint_with(CardSet::all()));
    assert!(!CardSet::all().disjoint_with(CardSet::all()));
}

#[test]
fn test_from_iterator_adds_all_cards() {
    let cards = card_vec(&["As", "Kh", "Tc", "9c", "8d"]);
    let cardset = CardSet::from_iter(&cards);

    for card in cards {
        assert!(cardset.contains(card));
    }
    assert_eq!(cardset.len(), 5);
}

#[test]
fn test_from_iterator_with_repeats() {
    let cards = card_vec(&["As", "Kh", "As", "as"]);
    let cardset = CardSet::from_iter(&cards);
    assert_eq!(cardset.len(), 2);
    assert_eq!(CardSet::from_iter(&[]), CardSet::empty());
}

#[test]
fn test_from_to_iterator_is_bijective_property() {
    for set in sample_sets() {
        let cards = cards_of(&set);
        let rebuilt = CardSet::from_iter(&cards);
        assert_eq!(rebuilt, set);
        assert_eq!(cards.len(), set.len());
    }
}

#[test]
fn test_iter_all_cards_have_52() {
    let set = CardSet::all();
    assert_eq!(cards_of(&set).len(), NUM_CARDS);
}

#[test]
fn test_iter_all_cards_has_no_duplicates() {
    let set = CardSet::all();
    let cards: HashSet<Card> = cards_of(&set).into_iter().collect();
    assert_eq!(cards.len(), set.len());
}

#[test]
fn test_iter_all_cards_sorted_ascending() {
    let set = CardSet::all();
    let cards: Vec<Card> = cards_of(&set);
    let mut cards_sorted = cards.clone();
    cards_sorted.sort();

    assert_eq!(cards, cards_sorted);
}

#[test]
fn test_iter_empty_and_after_end() {
    let mut it = CardSet::empty().iter();
    assert_eq!(it.next(), None);
    assert_eq!(it.next(), None);
    let s = set_of(&["2d", "As"]);
    let mut it = s.iter();
    assert_eq!(it.next(), Card::parse("2d"));
    assert_eq!(it.next(), Card::parse("As"));
    assert_eq!(it.next(), None);
    let exhausted = format!("{:?}", it);
    assert_eq!(it.next(), None);
    assert_eq!(format!("{:?}", it), exhausted);
}

#[test]
fn test_sub_cardset_removes_cards_in_other_set() {
    let set1 = set_of(&["As", "Kh", "Qd"]);
    let set2 = set_of(&["As", "Qd", "Th"]);
    let expected = set_of(&["Kh"]);
    assert_eq!(set1 - set2, expected);
}

#[test]
fn test_subassign_cardset_removes_cards_in_other_set() {
    let mut set1 = set_of(&["As", "Kh", "Qd"]);
    let set2 = set_of(&["As", "Qd", "Th"]);
    set1 -= set2;
    let expected = set_of(&["Kh"]);
    assert_eq!(set1, expected);
}

#[test]
fn test_subassign_cardset_removes_all_from_other_set_property() {
    let sets = sample_sets();
    for pair in sets.windows(2) {
        let (a, b) = (pair[0], pair[1]);
        let mut c = a;
        c -= b;
        let diff: Vec<Card> = hash_set(&a).difference(&hash_set(&b)).cloned().collect();
        assert_eq!(c, CardSet::from_iter(&diff));
    }
}

#[test]
fn test_sub_is_idempotent() {
    let card = Card::parse("As").unwrap();
    let set = CardSet::all() - card - card;
    assert!(!set.contains(card));
    assert_eq!(set.len(), NUM_CARDS - 1);
}

#[test]
fn test_sub_removes_card() {
    let card = Card::parse("As").unwrap();
    let set = CardSet::all() - card;
    assert!(!set.contains(card));
    assert_eq!(set.len(), NUM_CARDS - 1);
}

#[test]
fn test_subassign_removes_card() {
    let card = Card::parse("As").unwrap();
    let mut set = CardSet::all();
    set -= card;
    assert!(!set.contains(card));
    assert_eq!(set.len(), NUM_CARDS - 1);
}

#[test]
fn test_subassign_removes_card_property() {
    for set in sample_sets() {
        for i in 0..NUM_CARDS {
            let card = Card::from_index(i);
            if !set.contains(card) {
                continue;
            }
            let mut s = set;
            s -= card;
            assert!(!s.contains(card));
            assert_eq!(s.len() + 1, set.len());
        }
    }
}

#[test]
fn test_contains_exact() {
    let s = set_of(&["2d", "Ac"]);
    assert!(s.contains(Card::parse("2d").unwrap()));
    assert!(s.contains(Card::parse("Ac").unwrap()));
    assert!(!s.contains(Card::parse("2c").unwrap()));
    assert!(!CardSet::empty().contains(Card::from_index(0)));
    assert!(CardSet::all().contains(Card::from_index(51)));
}

#[test]
fn test_equal_sets_hold_same_cards() {
    let a = set_of(&["As", "Kh"]);
    let b = set_of(&["Kh", "As"]);
    assert_eq!(a, b);
    assert_ne!(a, set_of(&["As"]));
}
