# cardset

Playing cards and sets of cards for card-game engines.

- `src/card.rs`: `Rank`, `Suit`, `Card`; parsing a card from text such as
  `"As"`; the numbering of the 52 cards (`to_index` / `from_index`).
- `src/cardset.rs`: `CardSet`, a set of cards held as a 52-bit mask, with
  `+`, `-`, `&`, `|` and their assigning forms, `contains`, `len`,
  `disjoint_with`, building from a slice of cards, and an iterator that gives
  the cards lowest first.

Every function in `src/` is verified with Verus. The contracts of the card
functions speak of a card's rank, suit and number (`Card::index`); those of
the set functions speak of the mathematical set of cards (`Set<Card>`) that a
`CardSet` stands for.
`app/` holds the `wasm_bindgen` bindings that export the card types to
JavaScript.
