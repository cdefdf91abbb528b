use casino::cards::{
    BaccaratRank, BlackjackRank, Card, CardCollection, Deck, Rank, Shoe, StandardRank, Suit,
};

#[test]
fn test_card_value() {
    let card = Card::<StandardRank>::new(Suit::Hearts, StandardRank::Ace);
    assert_eq!(card.value(), 11);

    let card = Card::<StandardRank>::new(Suit::Spades, StandardRank::Ten);
    assert_eq!(card.value(), 10);

    let card = Card::<StandardRank>::new(Suit::Diamonds, StandardRank::Three);
    assert_eq!(card.value(), 3);
}

#[test]
fn test_deck_creation() {
    let deck = Deck::<StandardRank>::new();
    assert_eq!(deck.cards.len(), 52);
}

#[test]
fn test_deck_shuffle() {
    let mut deck1 = Deck::<StandardRank>::new();
    let mut deck2 = Deck::<StandardRank>::new();
    deck1.shuffle();
    deck2.shuffle();
    assert_ne!(deck1.cards, deck2.cards);
}

#[test]
fn test_deal_card() {
    let mut deck = Deck::<StandardRank>::new();
    let initial_len = deck.cards.len();
    let card = deck.deal();
    assert!(card.is_some());
    assert_eq!(deck.cards.len(), initial_len - 1);
}

#[test]
fn test_shoe_creation() {
    let shoe = Shoe::<StandardRank>::new(6);
    assert_eq!(shoe.shoe.len(), 52 * 6);
}

#[test]
fn test_shoe_shuffle() {
    let mut shoe1 = Shoe::<StandardRank>::new(6);
    let mut shoe2 = Shoe::<StandardRank>::new(6);
    shoe1.shuffle();
    shoe2.shuffle();
    assert_ne!(shoe1.shoe, shoe2.shoe);
}

#[test]
fn test_deal_from_shoe() {
    let mut shoe = Shoe::<StandardRank>::new(6);
    let initial_len = shoe.shoe.len();
    let card = shoe.deal();
    assert!(card.is_some());
    assert_eq!(shoe.shoe.len(), initial_len - 1);
}

#[test]
fn a_fresh_deck_lies_suit_by_suit() {
    let deck = Deck::<StandardRank>::new();
    let cards = &deck.cards.cards;
    assert_eq!(cards[0], Card::new(Suit::Hearts, StandardRank::Two));
    assert_eq!(cards[12], Card::new(Suit::Hearts, StandardRank::Ace));
    assert_eq!(cards[13], Card::new(Suit::Diamonds, StandardRank::Two));
    assert_eq!(cards[26], Card::new(Suit::Clubs, StandardRank::Two));
    assert_eq!(cards[51], Card::new(Suit::Spades, StandardRank::Ace));
    for (i, card) in cards.iter().enumerate() {
        assert_eq!(card.suit, Suit::all()[i / 13]);
        assert_eq!(card.rank, StandardRank::all()[i % 13]);
    }
}

#[test]
fn a_shoe_is_its_decks_in_a_row() {
    let shoe = Shoe::<StandardRank>::new(3);
    let deck = Deck::<StandardRank>::new();
    assert_eq!(shoe.len(), 156);
    for (i, card) in shoe.shoe.cards.iter().enumerate() {
        assert_eq!(*card, deck.cards.cards[i % 52]);
    }
    assert_eq!(Shoe::<StandardRank>::new(0).len(), 0);
}

fn sorted(cards: &[Card<StandardRank>]) -> Vec<String> {
    let mut names: Vec<String> = cards.iter().map(|c| c.display()).collect();
    names.sort();
    names
}

#[test]
fn shuffle_keeps_every_card() {
    for decks in 0..4 {
        let mut shoe = Shoe::<StandardRank>::new(decks);
        let before = sorted(&shoe.shoe.cards);
        shoe.shuffle();
        assert_eq!(shoe.len(), 52 * decks);
        assert_eq!(sorted(&shoe.shoe.cards), before);
    }
}

#[test]
fn shuffle_of_a_dealt_deck_keeps_what_is_left() {
    let mut deck = Deck::<StandardRank>::new();
    let mut dealt = Vec::new();
    for _ in 0..10 {
        dealt.push(deck.deal().unwrap());
    }
    let before = sorted(&deck.cards.cards);
    deck.shuffle();
    assert_eq!(sorted(&deck.cards.cards), before);
    for card in dealt {
        assert!(!deck.cards.cards.contains(&card));
    }
}

#[test]
fn deal_takes_the_top_card_and_never_gives_it_again() {
    let mut deck = Deck::<StandardRank>::new();
    let mut seen: Vec<Card<StandardRank>> = Vec::new();
    let mut left = 52;
    assert_eq!(deck.deal(), Some(Card::new(Suit::Spades, StandardRank::Ace)));
    seen.push(Card::new(Suit::Spades, StandardRank::Ace));
    left -= 1;
    assert_eq!(deck.cards.len(), left);
    deck.shuffle();
    while let Some(card) = deck.deal() {
        left -= 1;
        assert_eq!(deck.cards.len(), left);
        assert!(!seen.contains(&card));
        seen.push(card);
    }
    assert_eq!(seen.len(), 52);
    assert_eq!(deck.deal(), None);
    assert_eq!(deck.cards.len(), 0);
    assert!(deck.cards.is_empty());
}

#[test]
fn an_empty_pile_deals_nothing() {
    let mut pile = CardCollection::<StandardRank>::new();
    assert!(pile.is_empty());
    assert_eq!(pile.deal(), None);
    pile.push(Card::new(Suit::Clubs, StandardRank::Ten));
    pile.push(Card::new(Suit::Hearts, StandardRank::Two));
    assert_eq!(pile.len(), 2);
    assert!(!pile.is_empty());
    assert_eq!(pile.deal(), Some(Card::new(Suit::Hearts, StandardRank::Two)));
    assert_eq!(pile.deal(), Some(Card::new(Suit::Clubs, StandardRank::Ten)));
    assert_eq!(pile.deal(), None);
    let other: CardCollection<StandardRank> = Default::default();
    assert_eq!(other.len(), 0);
    let deck: Deck<StandardRank> = Default::default();
    assert_eq!(deck.cards.len(), 52);
}

#[test]
fn cards_show_rank_and_suit() {
    assert_eq!(Card::new(Suit::Hearts, StandardRank::Ace).display(), "A♥");
    assert_eq!(Card::new(Suit::Diamonds, StandardRank::Ten).display(), "10♦");
    assert_eq!(Card::new(Suit::Clubs, StandardRank::Two).display(), "2♣");
    assert_eq!(Card::new(Suit::Spades, StandardRank::King).display(), "K♠");
    assert_eq!(Suit::Hearts.color(), "Red");
    assert_eq!(Suit::Diamonds.color(), "Red");
    assert_eq!(Suit::Clubs.color(), "Black");
    assert_eq!(Suit::Spades.color(), "Black");
    assert_eq!(Suit::all(), &[Suit::Hearts, Suit::Diamonds, Suit::Clubs, Suit::Spades]);
}

#[test]
fn standard_ranks_carry_both_scorings() {
    let blackjack = [2, 3, 4, 5, 6, 7, 8, 9, 10, 10, 10, 10, 11];
    let baccarat = [2, 3, 4, 5, 6, 7, 8, 9, 0, 0, 0, 0, 1];
    let labels = ["2", "3", "4", "5", "6", "7", "8", "9", "10", "J", "Q", "K", "A"];
    let all = StandardRank::all();
    assert_eq!(all.len(), 13);
    for (i, rank) in all.iter().enumerate() {
        assert_eq!(rank.blackjack_value(), blackjack[i]);
        assert_eq!(rank.baccarat_value(), baccarat[i]);
        assert_eq!(rank.display(), labels[i]);
        assert_eq!(rank.is_face(), (9..=11).contains(&i));
        assert_eq!(rank.is_ace(), i == 12);
        let card = Card::new(Suit::Clubs, *rank);
        assert_eq!(card.is_face_card(), rank.is_face());
        assert_eq!(card.is_ace(), rank.is_ace());
        assert_eq!(card.value(), blackjack[i]);
    }
}
