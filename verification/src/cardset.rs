//! Sets of cards, each held as a bit mask with bit `i` standing for the card
//! numbered `i`.
use vstd::prelude::*;

use core::ops::AddAssign;

use crate::card::{Card, NUM_CARDS};

verus! {

/// Whether bit `i` of `bits` is set.
pub open spec fn has_bit(bits: u64, i: nat) -> bool {
    i < 64 && (bits >> (i as u64)) & 1u64 == 1u64
}

/// The cards whose bits are set in `bits`.
pub open spec fn cards_of(bits: u64) -> Set<Card> {
    Set::new(|c: Card| has_bit(bits, c.index()))
}

/// The cards numbered below `n` whose bits are set in `bits`.
pub open spec fn cards_below(bits: u64, n: nat) -> Set<Card> {
    Set::new(|c: Card| c.index() < n && has_bit(bits, c.index()))
}

// ---- facts about the bits of a word ----

proof fn lemma_bit_or(a: u64, b: u64, i: u64)
    by (bit_vector)
    requires
        i < 64,
    ensures
        ((a | b) >> i) & 1 == 1 <==> ((a >> i) & 1 == 1 || (b >> i) & 1 == 1),
{
}

proof fn lemma_bit_and(a: u64, b: u64, i: u64)
    by (bit_vector)
    requires
        i < 64,
    ensures
        ((a & b) >> i) & 1 == 1 <==> ((a >> i) & 1 == 1 && (b >> i) & 1 == 1),
{
}

proof fn lemma_bit_and_not(a: u64, b: u64, i: u64)
    by (bit_vector)
    requires
        i < 64,
    ensures
        ((a & !b) >> i) & 1 == 1 <==> ((a >> i) & 1 == 1 && (b >> i) & 1 != 1),
{
}

proof fn lemma_bit_single(k: u64, i: u64)
    by (bit_vector)
    requires
        k < 64,
        i < 64,
    ensures
        ((1u64 << k) >> i) & 1 == 1 <==> k == i,
{
}

proof fn lemma_bit_test(b: u64, k: u64)
    by (bit_vector)
    requires
        k < 64,
    ensures
        (b & (1u64 << k) > 0) <==> ((b >> k) & 1 == 1),
{
}

proof fn lemma_bit_zero(i: u64)
    by (bit_vector)
    ensures
        (0u64 >> i) & 1 != 1,
{
}

proof fn lemma_bit_low52(i: u64)
    by (bit_vector)
    requires
        i < 64,
    ensures
        (0xFFFFFFFFFFFFFu64 >> i) & 1 == 1 <==> i < 52,
{
}

proof fn lemma_bit_above52(b: u64, i: u64)
    by (bit_vector)
    requires
        b >> 52u64 == 0,
        52 <= i < 64,
    ensures
        (b >> i) & 1 != 1,
{
}

proof fn lemma_fits_or(a: u64, b: u64)
    by (bit_vector)
    requires
        a >> 52u64 == 0,
        b >> 52u64 == 0,
    ensures
        (a | b) >> 52u64 == 0,
{
}

proof fn lemma_fits_and(a: u64, b: u64)
    by (bit_vector)
    requires
        a >> 52u64 == 0,
    ensures
        (a & b) >> 52u64 == 0,
{
}

proof fn lemma_fits_single(k: u64)
    by (bit_vector)
    requires
        k < 52,
    ensures
        (1u64 << k) >> 52u64 == 0,
{
}

proof fn lemma_fits_consts()
    by (bit_vector)
    ensures
        0xFFFFFFFFFFFFFu64 >> 52u64 == 0,
        0u64 >> 52u64 == 0,
{
}

/// A word with some bit set has a lowest such bit below 64.
proof fn lemma_some_bit_aux(x: u64, hi: u64) -> (i: u64)
    requires
        x != 0,
        hi <= 64,
        x >> hi == 0,
    ensures
        i < hi,
        (x >> i) & 1 == 1,
    decreases hi,
{
    assert(hi != 0) by (bit_vector)
        requires
            x != 0,
            hi <= 64,
            x >> hi == 0,
    ;
    if x & 1 == 1 {
        assert((x >> 0u64) & 1 == 1) by (bit_vector)
            requires
                x & 1 == 1,
        ;
        0
    } else {
        assert((x >> 1u64) != 0 && (x >> 1u64) >> ((hi - 1) as u64) == 0) by (bit_vector)
            requires
                x & 1 != 1,
                x != 0,
                hi <= 64,
                hi != 0,
                x >> hi == 0,
        ;
        let j = lemma_some_bit_aux(x >> 1u64, (hi - 1) as u64);
        assert((x >> ((j + 1) as u64)) & 1 == 1) by (bit_vector)
            requires
                ((x >> 1u64) >> j) & 1 == 1,
                j < 63,
        ;
        (j + 1) as u64
    }
}

/// A nonzero word has a set bit.
proof fn lemma_some_bit(x: u64) -> (i: u64)
    requires
        x != 0,
    ensures
        i < 64,
        has_bit(x, i as nat),
{
    assert(x >> 64u64 == 0) by (bit_vector);
    lemma_some_bit_aux(x, 64)
}

/// Two words whose bits all agree are equal.
proof fn lemma_bits_ext(a: u64, b: u64)
    requires
        forall|i: nat| i < 64 ==> has_bit(a, i) == has_bit(b, i),
    ensures
        a == b,
{
    if a != b {
        assert(a ^ b != 0) by (bit_vector)
            requires
                a != b,
        ;
        let i = lemma_some_bit(a ^ b);
        assert(has_bit(a, i as nat) == has_bit(b, i as nat));
        assert(((a >> i) & 1 == 1) == ((b >> i) & 1 == 1));
        assert(false) by (bit_vector)
            requires
                i < 64,
                ((a ^ b) >> i) & 1 == 1,
                ((a >> i) & 1 == 1) == ((b >> i) & 1 == 1),
        ;
    }
}

// ---- counting ----

/// Adding the card numbered `n` to the range below `n`.
proof fn lemma_cards_below_step(bits: u64, n: nat)
    requires
        n < NUM_CARDS,
    ensures
        cards_below(bits, n + 1) == (if has_bit(bits, n) {
            cards_below(bits, n).insert(Card::at(n))
        } else {
            cards_below(bits, n)
        }),
        !cards_below(bits, n).contains(Card::at(n)),
{
    Card::lemma_at_index(n);
    let next = if has_bit(bits, n) {
        cards_below(bits, n).insert(Card::at(n))
    } else {
        cards_below(bits, n)
    };
    assert forall|c: Card| #[trigger] cards_below(bits, n + 1).contains(c) == next.contains(c) by {
        Card::lemma_index_at(c);
    }
    assert(cards_below(bits, n + 1) =~= next);
}

/// The cards below `n` that a word holds form a finite set.
proof fn lemma_cards_below_finite(bits: u64, n: nat)
    requires
        n <= NUM_CARDS,
    ensures
        cards_below(bits, n).finite(),
    decreases n,
{
    if n == 0 {
        assert(cards_below(bits, 0) =~= Set::empty());
    } else {
        lemma_cards_below_finite(bits, (n - 1) as nat);
        lemma_cards_below_step(bits, (n - 1) as nat);
    }
}

/// Every card is numbered below 52, so the cards below 52 are all of them.
proof fn lemma_cards_below_all(bits: u64)
    ensures
        cards_below(bits, NUM_CARDS as nat) == cards_of(bits),
        cards_of(bits).finite(),
{
    assert forall|c: Card| #[trigger] cards_of(bits).contains(c) == cards_below(bits, 52).contains(c) by {
        Card::lemma_index_at(c);
    }
    assert(cards_below(bits, 52) =~= cards_of(bits));
    lemma_cards_below_finite(bits, 52);
}

/// A set of cards.
#[derive(Clone, Copy, Debug, Hash, Eq, PartialEq, Structural, PartialOrd, Ord)]
pub struct CardSet {
    bitset: u64,
}

impl CardSet {
    /// Only the low 52 bits, one per card, are ever set; every set that
    /// this module makes keeps it.
    #[verifier::type_invariant]
    pub closed spec fn wf(self) -> bool {
        self.bitset >> 52u64 == 0
    }

    /// Two sets are equal exactly when they hold the same cards.
    pub proof fn lemma_eq_iff_same_cards(a: CardSet, b: CardSet)
        requires
            a.wf(),
            b.wf(),
        ensures
            a == b <==> a@ == b@,
    {
        if a@ == b@ {
            assert forall|i: nat| i < 64 implies has_bit(a.bitset, i) == has_bit(b.bitset, i) by {
                if i < 52 {
                    Card::lemma_at_index(i);
                    assert(a@.contains(Card::at(i)) == b@.contains(Card::at(i)));
                } else {
                    lemma_bit_above52(a.bitset, i as u64);
                    lemma_bit_above52(b.bitset, i as u64);
                }
            }
            lemma_bits_ext(a.bitset, b.bitset);
        }
    }
}

impl View for CardSet {
    type V = Set<Card>;

    /// The cards in the set.
    closed spec fn view(&self) -> Set<Card> {
        cards_of(self.bitset)
    }
}

impl CardSet {
    /// The set of all 52 cards.
    pub fn all() -> (r: Self)
        ensures
            r@ == Set::<Card>::full(),
            r@.len() == NUM_CARDS,
    {
        proof {
            lemma_all_cards();
            lemma_fits_consts();
        }
        Self { bitset: 0xFFFFFFFFFFFFF }
    }

    /// Whether the two sets have no card in common.
    pub fn disjoint_with(&self, other: CardSet) -> (r: bool)
        ensures
            r == self@.disjoint(other@),
    {
        proof {
            use_type_invariant(self);
            use_type_invariant(&other);
        }
        let common = *self & other;
        let e = CardSet::empty();
        let r = common == e;
        proof {
            if r {
                assert forall|c: Card| self@.contains(c) implies !other@.contains(c) by {
                    assert(!common@.contains(c));
                }
            } else {
                use_type_invariant(&common);
                use_type_invariant(&e);
                CardSet::lemma_eq_iff_same_cards(common, e);
                assert(!(common@ =~= Set::<Card>::empty()));
            }
        }
        r
    }

    /// The empty set.
    pub fn empty() -> (r: Self)
        ensures
            r@ == Set::<Card>::empty(),
    {
        proof {
            lemma_fits_consts();
            assert forall|c: Card| !(#[trigger] cards_of(0u64).contains(c)) by {
                lemma_bit_zero(c.index() as u64);
            }
            assert(cards_of(0u64) =~= Set::<Card>::empty());
        }
        Self { bitset: 0 }
    }

    /// Whether `card` is in the set.
    pub fn contains(&self, card: Card) -> (r: bool)
        ensures
            r == self@.contains(card),
    {
        let k = card.to_index() as u64;
        proof {
            lemma_bit_test(self.bitset, k);
        }
        self.bitset & (1u64 << k) > 0
    }

    /// An iterator over the cards of the set, in ascending order.
    pub fn iter(&self) -> (r: CardSetIterator)
        ensures
            r@ == self@,
    {
        proof {
            use_type_invariant(self);
        }
        let r = CardSetIterator { bitset: self.bitset, shifted: 0 };
        proof {
            assert forall|c: Card| #[trigger] r@.contains(c) == self@.contains(c) by {
                assert(c.index() - 0 == c.index());
            }
            assert(r@ =~= self@);
        }
        r
    }

    /// The number of cards in the set.
    pub fn len(&self) -> (r: usize)
        ensures
            r == self@.len(),
            r <= NUM_CARDS,
    {
        let bits = self.bitset;
        let mut count: usize = 0;
        let mut i: u64 = 0;
        proof {
            assert(cards_below(bits, 0) =~= Set::empty());
        }
        while i < 52
            invariant
                i <= 52,
                count <= i,
                cards_below(bits, i as nat).finite(),
                cards_below(bits, i as nat).len() == count,
            decreases 52 - i,
        {
            proof {
                lemma_cards_below_step(bits, i as nat);
            }
            if (bits >> i) & 1 == 1 {
                count = count + 1;
            }
            i = i + 1;
        }
        proof {
            lemma_cards_below_all(bits);
        }
        count
    }
}

impl CardSet {
    /// The set with `card` added.
    pub closed spec fn with_card(self, card: Card) -> CardSet {
        CardSet { bitset: self.bitset | (1u64 << (card.index() as u64)) }
    }

    /// The set with `card` taken out.
    pub closed spec fn without_card(self, card: Card) -> CardSet {
        CardSet { bitset: self.bitset & !(1u64 << (card.index() as u64)) }
    }

    /// The cards in both sets.
    pub closed spec fn meet(self, other: CardSet) -> CardSet {
        CardSet { bitset: self.bitset & other.bitset }
    }

    /// The cards in either set.
    pub closed spec fn join(self, other: CardSet) -> CardSet {
        CardSet { bitset: self.bitset | other.bitset }
    }

    /// The cards in `self` and not in `other`.
    pub closed spec fn minus(self, other: CardSet) -> CardSet {
        CardSet { bitset: self.bitset & !other.bitset }
    }
}

impl core::ops::Add<Card> for CardSet {
    type Output = Self;

    /// The set with `other` added.
    fn add(self, other: Card) -> (r: Self)
        ensures
            r == self.with_card(other),
            r@ == self@.insert(other),
    {
        proof {
            use_type_invariant(&self);
        }
        let k = other.to_index() as u64;
        proof {
            lemma_fits_single(k);
            lemma_fits_or(self.bitset, 1u64 << k);
        }
        let r = Self { bitset: self.bitset | (1u64 << k) };
        proof {
            assert forall|c: Card| #[trigger] r@.contains(c) == self@.insert(other).contains(c) by {
                Card::lemma_index_at(c);
                Card::lemma_index_at(other);
                lemma_bit_or(self.bitset, 1u64 << k, c.index() as u64);
                lemma_bit_single(k, c.index() as u64);
                Card::lemma_fields(c, other);
            }
            assert(r@ =~= self@.insert(other));
        }
        r
    }
}

impl vstd::std_specs::ops::AddSpecImpl<Card> for CardSet {
    open spec fn obeys_add_spec() -> bool {
        true
    }

    open spec fn add_req(self, rhs: Card) -> bool {
        true
    }

    open spec fn add_spec(self, rhs: Card) -> Self {
        self.with_card(rhs)
    }
}

impl core::ops::BitAnd for CardSet {
    type Output = Self;

    /// The cards in both sets.
    fn bitand(self, other: Self) -> (r: Self)
        ensures
            r == self.meet(other),
            r@ == self@.intersect(other@),
    {
        proof {
            use_type_invariant(&self);
            lemma_fits_and(self.bitset, other.bitset);
        }
        let r = Self { bitset: self.bitset & other.bitset };
        proof {
            assert forall|c: Card| #[trigger] r@.contains(c) == self@.intersect(other@).contains(c) by {
                Card::lemma_index_at(c);
                lemma_bit_and(self.bitset, other.bitset, c.index() as u64);
            }
            assert(r@ =~= self@.intersect(other@));
        }
        r
    }
}

impl vstd::std_specs::ops::BitAndSpecImpl for CardSet {
    open spec fn obeys_bitand_spec() -> bool {
        true
    }

    open spec fn bitand_req(self, rhs: CardSet) -> bool {
        true
    }

    open spec fn bitand_spec(self, rhs: CardSet) -> Self {
        self.meet(rhs)
    }
}

impl core::ops::BitOr for CardSet {
    type Output = Self;

    /// The cards in either set.
    fn bitor(self, other: Self) -> (r: Self)
        ensures
            r == self.join(other),
            r@ == self@.union(other@),
    {
        proof {
            use_type_invariant(&self);
            use_type_invariant(&other);
            lemma_fits_or(self.bitset, other.bitset);
        }
        let r = Self { bitset: self.bitset | other.bitset };
        proof {
            assert forall|c: Card| #[trigger] r@.contains(c) == self@.union(other@).contains(c) by {
                Card::lemma_index_at(c);
                lemma_bit_or(self.bitset, other.bitset, c.index() as u64);
            }
            assert(r@ =~= self@.union(other@));
        }
        r
    }
}

impl vstd::std_specs::ops::BitOrSpecImpl for CardSet {
    open spec fn obeys_bitor_spec() -> bool {
        true
    }

    open spec fn bitor_req(self, rhs: CardSet) -> bool {
        true
    }

    open spec fn bitor_spec(self, rhs: CardSet) -> Self {
        self.join(rhs)
    }
}

impl core::ops::Sub for CardSet {
    type Output = Self;

    /// The cards of `self` that are not in `other`.
    fn sub(self, other: Self) -> (r: Self)
        ensures
            r == self.minus(other),
            r@ == self@.difference(other@),
    {
        proof {
            use_type_invariant(&self);
            lemma_fits_and(self.bitset, !other.bitset);
        }
        let r = Self { bitset: self.bitset & !other.bitset };
        proof {
            assert forall|c: Card| #[trigger] r@.contains(c) == self@.difference(other@).contains(c) by {
                Card::lemma_index_at(c);
                lemma_bit_and_not(self.bitset, other.bitset, c.index() as u64);
            }
            assert(r@ =~= self@.difference(other@));
        }
        r
    }
}

impl vstd::std_specs::ops::SubSpecImpl for CardSet {
    open spec fn obeys_sub_spec() -> bool {
        true
    }

    open spec fn sub_req(self, rhs: CardSet) -> bool {
        true
    }

    open spec fn sub_spec(self, rhs: CardSet) -> Self {
        self.minus(rhs)
    }
}

impl core::ops::Sub<Card> for CardSet {
    type Output = Self;

    /// The set with `other` taken out.
    fn sub(self, other: Card) -> (r: Self)
        ensures
            r == self.without_card(other),
            r@ == self@.remove(other),
    {
        proof {
            use_type_invariant(&self);
        }
        let k = other.to_index() as u64;
        proof {
            lemma_fits_and(self.bitset, !(1u64 << k));
        }
        let r = Self { bitset: self.bitset & !(1u64 << k) };
        proof {
            assert forall|c: Card| #[trigger] r@.contains(c) == self@.remove(other).contains(c) by {
                Card::lemma_index_at(c);
                Card::lemma_index_at(other);
                lemma_bit_and_not(self.bitset, 1u64 << k, c.index() as u64);
                lemma_bit_single(k, c.index() as u64);
                Card::lemma_fields(c, other);
            }
            assert(r@ =~= self@.remove(other));
        }
        r
    }
}

impl vstd::std_specs::ops::SubSpecImpl<Card> for CardSet {
    open spec fn obeys_sub_spec() -> bool {
        true
    }

    open spec fn sub_req(self, rhs: Card) -> bool {
        true
    }

    open spec fn sub_spec(self, rhs: Card) -> Self {
        self.without_card(rhs)
    }
}

impl core::ops::AddAssign<Card> for CardSet {
    /// Adds `other` to the set.
    fn add_assign(&mut self, other: Card)
        ensures
            *final(self) == old(self).with_card(other),
            final(self)@ == old(self)@.insert(other),
    {
        *self = *self + other;
    }
}

impl core::ops::BitAndAssign for CardSet {
    /// Keeps only the cards that are also in `other`.
    fn bitand_assign(&mut self, other: Self)
        ensures
            *final(self) == old(self).meet(other),
            final(self)@ == old(self)@.intersect(other@),
    {
        *self = *self & other;
    }
}

impl core::ops::BitOrAssign for CardSet {
    /// Adds the cards of `other`.
    fn bitor_assign(&mut self, other: Self)
        ensures
            *final(self) == old(self).join(other),
            final(self)@ == old(self)@.union(other@),
    {
        *self = *self | other;
    }
}

impl core::ops::SubAssign for CardSet {
    /// Takes out the cards of `other`.
    fn sub_assign(&mut self, other: Self)
        ensures
            *final(self) == old(self).minus(other),
            final(self)@ == old(self)@.difference(other@),
    {
        *self = *self - other;
    }
}

impl core::ops::SubAssign<Card> for CardSet {
    /// Takes `other` out of the set.
    fn sub_assign(&mut self, other: Card)
        ensures
            *final(self) == old(self).without_card(other),
            final(self)@ == old(self)@.remove(other),
    {
        *self = *self - other;
    }
}

impl CardSet {
    /// The set of the cards in `cards`.
    pub fn from_iter(cards: &[Card]) -> (r: Self)
        ensures
            r@ == cards@.to_set(),
    {
        let mut set = Self::empty();
        let mut i: usize = 0;
        while i < cards.len()
            invariant
                i <= cards.len(),
                set@ == cards@.take(i as int).to_set(),
            decreases cards.len() - i,
        {
            proof {
                let before = cards@.take(i as int);
                let after = cards@.take(i + 1);
                assert(after =~= before.push(cards@[i as int]));
                assert forall|c: Card| #[trigger] after.to_set().contains(c)
                    == before.to_set().insert(cards@[i as int]).contains(c) by {
                    if after.contains(c) {
                        let j = choose|j: int| 0 <= j < after.len() && after[j] == c;
                        if j < i {
                            assert(before[j] == c);
                        }
                    }
                    if before.contains(c) {
                        let j = choose|j: int| 0 <= j < before.len() && before[j] == c;
                        assert(after[j] == c);
                    }
                    if c == cards@[i as int] {
                        assert(after[i as int] == c);
                    }
                }
                assert(after.to_set() =~= before.to_set().insert(cards@[i as int]));
            }
            set.add_assign(cards[i]);
            i += 1;
        }
        proof {
            assert(cards@.take(cards.len() as int) =~= cards@);
        }
        set
    }
}

/// An iterator over the cards of a set, lowest numbered first.
#[derive(Debug)]
pub struct CardSetIterator {
    bitset: u64,
    shifted: usize,
}

/// The cards that an iterator in state `(bits, shifted)` has still to give:
/// bit `k` of `bits` stands for the card numbered `shifted + k`.
pub open spec fn cards_after(bits: u64, shifted: nat) -> Set<Card> {
    Set::new(|c: Card| c.index() >= shifted && has_bit(bits, (c.index() - shifted) as nat))
}

impl CardSetIterator {
    /// The mask holds no card numbered 52 or more.
    #[verifier::type_invariant]
    spec fn fits(self) -> bool {
        &&& self.shifted <= 52
        &&& self.bitset >> ((52 - self.shifted) as u64) == 0
    }
}

impl View for CardSetIterator {
    type V = Set<Card>;

    /// The cards that the iterator has still to give.
    closed spec fn view(&self) -> Set<Card> {
        cards_after(self.bitset, self.shifted as nat)
    }
}

/// Bits of a word shifted right by one.
proof fn lemma_shift_one(b: u64, k: u64)
    by (bit_vector)
    requires
        k < 63,
    ensures
        ((b >> 1u64) >> k) & 1 == (b >> (k + 1) as u64) & 1,
        ((b >> 1u64) >> 63u64) & 1 != 1,
{
}

/// How the state of an iterator steps: bit 0 gives the card numbered
/// `shifted`, the rest are what remains after it.
proof fn lemma_cards_after_step(b: u64, s: nat)
    requires
        s < NUM_CARDS,
    ensures
        cards_after(b, s) == (if has_bit(b, 0) {
            cards_after(b >> 1u64, s + 1).insert(Card::at(s))
        } else {
            cards_after(b >> 1u64, s + 1)
        }),
        !cards_after(b >> 1u64, s + 1).contains(Card::at(s)),
{
    Card::lemma_at_index(s);
    let rest = cards_after(b >> 1u64, s + 1);
    let stepped = if has_bit(b, 0) {
        rest.insert(Card::at(s))
    } else {
        rest
    };
    assert forall|c: Card| #[trigger] cards_after(b, s).contains(c) == stepped.contains(c) by {
        Card::lemma_index_at(c);
        if c.index() > s {
            let k = (c.index() - s - 1) as nat;
            if k < 63 {
                lemma_shift_one(b, k as u64);
            } else {
                lemma_shift_one(b, 0);
            }
            assert(has_bit(b >> 1u64, k) == has_bit(b, k + 1));
        }
    }
    assert(cards_after(b, s) =~= stepped);
}

proof fn lemma_fits_shift(b: u64, k: u64)
    by (bit_vector)
    requires
        1 <= k <= 52,
        b >> k == 0,
    ensures
        (b >> 1u64) >> ((k - 1) as u64) == 0,
{
}

proof fn lemma_fits_nonzero(b: u64, k: u64)
    by (bit_vector)
    requires
        k <= 52,
        b >> k == 0,
        b != 0,
    ensures
        k >= 1,
{
}

proof fn lemma_zero_word(s: nat)
    ensures
        cards_after(0u64, s) == Set::<Card>::empty(),
{
    assert forall|c: Card| !(#[trigger] cards_after(0u64, s).contains(c)) by {
        lemma_bit_zero((c.index() - s) as u64);
    }
    assert(cards_after(0u64, s) =~= Set::<Card>::empty());
}

proof fn lemma_low_bit(b: u64)
    by (bit_vector)
    ensures
        (b & 1 == 0) <==> ((b >> 0u64) & 1 != 1),
        b & 1 != 0 ==> b != 0,
{
}

impl CardSetIterator {
    /// Gives the lowest numbered card still to come, or `None` once all the
    /// cards have been given.
    pub fn next(&mut self) -> (r: Option<Card>)
        ensures
            r is None ==> old(self)@ == Set::<Card>::empty() && *final(self) == *old(self),
            r is Some ==> {
                &&& old(self)@.contains(r->0)
                &&& forall|d: Card| #[trigger] old(self)@.contains(d) ==> r->0.index() <= d.index()
                &&& final(self)@ == old(self)@.remove(r->0)
                &&& forall|d: Card| #[trigger] final(self)@.contains(d) ==> r->0.index() < d.index()
            },
    {
        proof {
            use_type_invariant(&*self);
        }
        let mut b = self.bitset;
        let mut s = self.shifted;
        while b & 1 == 0
            invariant
                s <= 52,
                b >> ((52 - s) as u64) == 0,
                cards_after(b, s as nat) == old(self)@,
            decreases 52 - s,
        {
            if b == 0 {
                proof {
                    lemma_zero_word(s as nat);
                }
                return None;
            }
            proof {
                lemma_fits_nonzero(b, (52 - s) as u64);
                lemma_fits_shift(b, (52 - s) as u64);
                lemma_low_bit(b);
                lemma_cards_after_step(b, s as nat);
            }
            b = b >> 1;
            s = s + 1;
        }
        proof {
            lemma_low_bit(b);
            lemma_fits_nonzero(b, (52 - s) as u64);
            lemma_fits_shift(b, (52 - s) as u64);
            lemma_cards_after_step(b, s as nat);
        }
        let card = Card::from_index(s);
        *self = CardSetIterator { bitset: b >> 1, shifted: s + 1 };
        proof {
            assert(cards_after(b, s as nat).remove(card) =~= cards_after(b >> 1u64, (s + 1) as nat));
        }
        Some(card)
    }
}

// ---- laws of card sets ----

impl CardSet {
    /// A set holds finitely many cards, at most 52.
    pub proof fn lemma_finite(s: CardSet)
        ensures
            s@.finite(),
            s@.len() <= NUM_CARDS,
    {
        lemma_cards_below_all(s.bitset);
        lemma_all_cards();
        vstd::set_lib::lemma_len_subset(s@, Set::<Card>::full());
    }

    /// Adding a card the set lacks grows it by one; adding one it holds
    /// leaves it as it was.
    pub proof fn lemma_add_len(s: CardSet, c: Card)
        requires
            s.wf(),
        ensures
            s.with_card(c)@ == s@.insert(c),
            !s@.contains(c) ==> s.with_card(c)@.len() == s@.len() + 1,
            s@.contains(c) ==> s.with_card(c) == s,
    {
        CardSet::lemma_with_card(s, c);
        CardSet::lemma_finite(s);
        if s@.contains(c) {
            assert(s@.insert(c) =~= s@);
            CardSet::lemma_eq_iff_same_cards(s.with_card(c), s);
        }
    }

    /// Adding a card twice is adding it once.
    pub proof fn lemma_add_idempotent(s: CardSet, c: Card)
        requires
            s.wf(),
        ensures
            s.with_card(c).with_card(c) == s.with_card(c),
    {
        CardSet::lemma_with_card(s, c);
        CardSet::lemma_add_len(s.with_card(c), c);
    }

    /// Taking out a card the set holds shrinks it by one; the card is then
    /// no longer in it.
    pub proof fn lemma_sub_len(s: CardSet, c: Card)
        requires
            s.wf(),
        ensures
            s.without_card(c)@ == s@.remove(c),
            !s.without_card(c)@.contains(c),
            s@.contains(c) ==> s.without_card(c)@.len() + 1 == s@.len(),
            !s@.contains(c) ==> s.without_card(c) == s,
    {
        CardSet::lemma_without_card(s, c);
        CardSet::lemma_finite(s);
        if !s@.contains(c) {
            assert(s@.remove(c) =~= s@);
            CardSet::lemma_eq_iff_same_cards(s.without_card(c), s);
        }
    }

    /// Taking out a card twice is taking it out once.
    pub proof fn lemma_sub_idempotent(s: CardSet, c: Card)
        requires
            s.wf(),
        ensures
            s.without_card(c).without_card(c) == s.without_card(c),
    {
        CardSet::lemma_without_card(s, c);
        CardSet::lemma_sub_len(s.without_card(c), c);
    }

    proof fn lemma_with_card(s: CardSet, c: Card)
        requires
            s.wf(),
        ensures
            s.with_card(c).wf(),
            s.with_card(c)@ == s@.insert(c),
    {
        let k = c.index() as u64;
        Card::lemma_index_at(c);
        lemma_fits_single(k);
        lemma_fits_or(s.bitset, 1u64 << k);
        let r = s.with_card(c);
        assert forall|d: Card| #[trigger] r@.contains(d) == s@.insert(c).contains(d) by {
            Card::lemma_index_at(d);
            lemma_bit_or(s.bitset, 1u64 << k, d.index() as u64);
            lemma_bit_single(k, d.index() as u64);
            Card::lemma_index_order(c, d);
        }
        assert(r@ =~= s@.insert(c));
    }

    proof fn lemma_without_card(s: CardSet, c: Card)
        requires
            s.wf(),
        ensures
            s.without_card(c).wf(),
            s.without_card(c)@ == s@.remove(c),
    {
        let k = c.index() as u64;
        Card::lemma_index_at(c);
        lemma_fits_and(s.bitset, !(1u64 << k));
        let r = s.without_card(c);
        assert forall|d: Card| #[trigger] r@.contains(d) == s@.remove(c).contains(d) by {
            Card::lemma_index_at(d);
            lemma_bit_and_not(s.bitset, 1u64 << k, d.index() as u64);
            lemma_bit_single(k, d.index() as u64);
            Card::lemma_index_order(c, d);
        }
        assert(r@ =~= s@.remove(c));
    }
}

/// There are 52 cards, and the mask of the low 52 bits holds all of them.
pub proof fn lemma_all_cards()
    ensures
        cards_of(0xFFFFFFFFFFFFFu64) == Set::<Card>::full(),
        Set::<Card>::full().finite(),
        Set::<Card>::full().len() == NUM_CARDS,
{
    lemma_cards_below_count(52);
    lemma_cards_below_all(0xFFFFFFFFFFFFFu64);
    assert forall|c: Card| #[trigger] cards_of(0xFFFFFFFFFFFFFu64).contains(c) by {
        Card::lemma_index_at(c);
        lemma_bit_low52(c.index() as u64);
    }
    assert(cards_of(0xFFFFFFFFFFFFFu64) =~= Set::<Card>::full());
}

proof fn lemma_cards_below_count(n: nat)
    requires
        n <= NUM_CARDS,
    ensures
        cards_below(0xFFFFFFFFFFFFFu64, n).finite(),
        cards_below(0xFFFFFFFFFFFFFu64, n).len() == n,
    decreases n,
{
    if n == 0 {
        assert(cards_below(0xFFFFFFFFFFFFFu64, 0) =~= Set::empty());
    } else {
        let m = (n - 1) as nat;
        lemma_cards_below_count(m);
        lemma_cards_below_step(0xFFFFFFFFFFFFFu64, m);
        lemma_bit_low52(m as u64);
    }
}

} // verus!
