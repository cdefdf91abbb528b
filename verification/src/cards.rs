//! Playing cards, rank sets, and the decks and shoes that cards are dealt from.

use vstd::prelude::*;
use vstd::string::StringExecFns;
use crate::random::shuffle;

verus! {

/// The four suits.
#[derive(Clone, Copy, Debug, PartialEq, Eq, Hash, Structural)]
pub enum Suit {
    Hearts,
    Diamonds,
    Clubs,
    Spades,
}

impl Suit {
    /// The four suits, in the order in which a deck is laid out.
    pub open spec fn spec_all() -> Seq<Suit> {
        seq![Suit::Hearts, Suit::Diamonds, Suit::Clubs, Suit::Spades]
    }

    /// The glyph of a suit.
    pub open spec fn spec_symbol(self) -> char {
        match self {
            Suit::Hearts => '♥',
            Suit::Diamonds => '♦',
            Suit::Clubs => '♣',
            Suit::Spades => '♠',
        }
    }

    /// Hearts and diamonds are red, clubs and spades black.
    pub open spec fn is_red(self) -> bool {
        self == Suit::Hearts || self == Suit::Diamonds
    }

    /// The four suits, in the order in which a deck is laid out.
    pub fn all() -> (suits: &'static [Suit])
        ensures
            suits@ == Suit::spec_all(),
    {
        &[Suit::Hearts, Suit::Diamonds, Suit::Clubs, Suit::Spades]
    }

    /// The glyph of this suit.
    pub fn symbol(&self) -> (glyph: char)
        ensures
            glyph == self.spec_symbol(),
    {
        match self {
            Suit::Hearts => '♥',
            Suit::Diamonds => '♦',
            Suit::Clubs => '♣',
            Suit::Spades => '♠',
        }
    }

    /// The colour of this suit, `Red` or `Black`.
    pub fn color(&self) -> (name: &'static str)
        ensures
            name@ == (if self.is_red() {
                "Red"@
            } else {
                "Black"@
            }),
    {
        match self {
            Suit::Hearts | Suit::Diamonds => "Red",
            Suit::Clubs | Suit::Spades => "Black",
        }
    }
}

/// A set of card ranks. A game may bring its own, as an enum that implements this.
pub trait Rank: Copy + Clone + core::fmt::Debug + PartialEq + Eq + core::hash::Hash + 'static {
    /// Every rank of the set, lowest first.
    spec fn spec_all() -> Seq<Self>;

    /// The label printed on a card of this rank.
    spec fn spec_display(&self) -> Seq<char>;

    /// Whether this rank is a face card.
    spec fn spec_is_face(&self) -> bool;

    /// No rank is listed twice.
    proof fn lemma_all_distinct()
        ensures
            Self::spec_all().no_duplicates(),
    ;

    /// Every rank of the set, lowest first.
    fn all() -> (ranks: &'static [Self])
        ensures
            ranks@ == Self::spec_all(),
    ;

    /// The label printed on a card of this rank.
    fn display(&self) -> (label: &'static str)
        ensures
            label@ == self.spec_display(),
    ;

    /// Whether this rank is a face card.
    fn is_face(&self) -> (face: bool)
        ensures
            face == self.spec_is_face(),
    ;
}

/// What a rank set needs to be played at blackjack.
pub trait BlackjackRank: Rank {
    /// Points of the rank, an ace counted as 11.
    spec fn spec_blackjack_value(&self) -> u8;

    /// Whether the rank is the ace.
    spec fn spec_is_ace(&self) -> bool;

    /// Points of the rank, an ace counted as 11.
    fn blackjack_value(&self) -> (points: u8)
        ensures
            points == self.spec_blackjack_value(),
    ;

    /// Whether the rank is the ace.
    fn is_ace(&self) -> (ace: bool)
        ensures
            ace == self.spec_is_ace(),
    ;
}

/// What a rank set needs to be played at baccarat.
pub trait BaccaratRank: Rank {
    /// Points of the rank, from 0 to 9: an ace 1, tens and face cards 0.
    spec fn spec_baccarat_value(&self) -> u8;

    /// Points of the rank, from 0 to 9: an ace 1, tens and face cards 0.
    fn baccarat_value(&self) -> (points: u8)
        ensures
            points == self.spec_baccarat_value(),
    ;
}

/// A playing card: a suit and a rank, and nothing else.
#[derive(Clone, Copy, Debug, PartialEq, Eq, Hash)]
pub struct Card<R: Rank> {
    pub suit: Suit,
    pub rank: R,
}

impl<R: Rank> Card<R> {
    /// The text of a card: the label of its rank, then the glyph of its suit.
    pub open spec fn spec_display(self) -> Seq<char> {
        self.rank.spec_display().push(self.suit.spec_symbol())
    }

    pub fn new(suit: Suit, rank: R) -> (card: Self)
        ensures
            card == (Card { suit, rank }),
    {
        Card { suit, rank }
    }

    /// The text of this card: the label of its rank, then the glyph of its suit.
    pub fn display(&self) -> (text: String)
        ensures
            text@ == self.spec_display(),
    {
        let mut text = String::from_str(self.rank.display());
        text.push(self.suit.symbol());
        text
    }

    pub fn is_face_card(&self) -> (face: bool)
        ensures
            face == self.rank.spec_is_face(),
    {
        self.rank.is_face()
    }
}

impl<R: BlackjackRank> Card<R> {
    /// Points of the card at blackjack, an ace counted as 11.
    pub fn value(&self) -> (points: u8)
        ensures
            points == self.rank.spec_blackjack_value(),
    {
        self.rank.blackjack_value()
    }

    pub fn is_ace(&self) -> (ace: bool)
        ensures
            ace == self.rank.spec_is_ace(),
    {
        self.rank.is_ace()
    }
}

/// The cards of one suit, in the order of the rank set.
pub open spec fn suit_run<R: Rank>(suit: Suit) -> Seq<Card<R>> {
    R::spec_all().map_values(|rank: R| Card { suit, rank })
}

/// A full deck: every suit in turn, and within it every rank in turn.
pub open spec fn deck_of<R: Rank>() -> Seq<Card<R>> {
    suit_run::<R>(Suit::Hearts) + suit_run::<R>(Suit::Diamonds) + suit_run::<R>(Suit::Clubs)
        + suit_run::<R>(Suit::Spades)
}

/// `decks` full decks, one after the other.
pub open spec fn shoe_of<R: Rank>(decks: nat) -> Seq<Card<R>>
    decreases decks,
{
    if decks == 0 {
        Seq::empty()
    } else {
        shoe_of::<R>((decks - 1) as nat) + deck_of::<R>()
    }
}

/// A deck holds four cards of each rank.
pub proof fn lemma_deck_len<R: Rank>()
    ensures
        deck_of::<R>().len() == 4 * R::spec_all().len(),
{
}

/// A shoe holds as many cards as its decks together.
pub proof fn lemma_shoe_len<R: Rank>(decks: nat)
    ensures
        shoe_of::<R>(decks).len() == decks * 4 * R::spec_all().len(),
    decreases decks,
{
    let n = R::spec_all().len();
    if decks > 0 {
        lemma_shoe_len::<R>((decks - 1) as nat);
        assert(decks * 4 * n == (decks - 1) * 4 * n + 4 * n) by (nonlinear_arith);
    } else {
        assert(decks * 4 * n == 0) by (nonlinear_arith)
            requires
                decks == 0,
        ;
    }
}

/// No card occurs twice in a deck.
pub proof fn lemma_deck_distinct<R: Rank>()
    ensures
        deck_of::<R>().no_duplicates(),
{
    R::lemma_all_distinct();
    let n = R::spec_all().len() as int;
    let deck = deck_of::<R>();
    assert forall|i: int, j: int| 0 <= i < deck.len() && 0 <= j < deck.len() && i != j implies deck[i]
        != deck[j] by {
        let si = i / n;
        let sj = j / n;
        assert(deck[i].suit == Suit::spec_all()[si] && deck[i].rank == R::spec_all()[i % n]) by {
            lemma_deck_index::<R>(i);
        }
        assert(deck[j].suit == Suit::spec_all()[sj] && deck[j].rank == R::spec_all()[j % n]) by {
            lemma_deck_index::<R>(j);
        }
        if si == sj {
            assert(i % n != j % n) by (nonlinear_arith)
                requires
                    i / n == j / n,
                    i != j,
                    n > 0,
            ;
            assert(0 <= i % n < n && 0 <= j % n < n) by (nonlinear_arith)
                requires
                    n > 0,
            ;
        } else {
            assert(0 <= si < 4 && 0 <= sj < 4) by (nonlinear_arith)
                requires
                    0 <= i < 4 * n,
                    0 <= j < 4 * n,
                    si == i / n,
                    sj == j / n,
                    n > 0,
            ;
        }
    }
}

/// Card `i` of a deck has suit `i / n` and rank `i % n`, for `n` ranks.
pub proof fn lemma_deck_index<R: Rank>(i: int)
    requires
        0 <= i < deck_of::<R>().len(),
    ensures
        R::spec_all().len() > 0,
        0 <= i / (R::spec_all().len() as int) < 4,
        deck_of::<R>()[i] == (Card {
            suit: Suit::spec_all()[i / (R::spec_all().len() as int)],
            rank: R::spec_all()[i % (R::spec_all().len() as int)],
        }),
{
    let n = R::spec_all().len() as int;
    if i < n {
        assert(i / n == 0 && i % n == i) by (nonlinear_arith)
            requires
                0 <= i < n,
        ;
    } else if i < 2 * n {
        assert(i / n == 1 && i % n == i - n) by (nonlinear_arith)
            requires
                n <= i < 2 * n,
        ;
    } else if i < 3 * n {
        assert(i / n == 2 && i % n == i - 2 * n) by (nonlinear_arith)
            requires
                2 * n <= i < 3 * n,
        ;
    } else {
        assert(i / n == 3 && i % n == i - 3 * n) by (nonlinear_arith)
            requires
                3 * n <= i < 4 * n,
        ;
    }
}

/// Dealing takes the last card away and leaves the others as they were: the card is
/// there once less often than before, and where no card occurred twice it is gone.
pub proof fn lemma_dealt_card_leaves<R: Rank>(cards: Seq<Card<R>>)
    requires
        cards.len() > 0,
    ensures
        cards.drop_last().len() == cards.len() - 1,
        cards.drop_last().to_multiset().insert(cards.last()) == cards.to_multiset(),
        cards.no_duplicates() ==> cards.drop_last().no_duplicates() && !cards.drop_last().contains(
            cards.last(),
        ),
{
    broadcast use vstd::seq_lib::group_to_multiset_ensures;

    assert(cards.drop_last().push(cards.last()) =~= cards);
    if cards.no_duplicates() {
        let rest = cards.drop_last();
        if rest.contains(cards.last()) {
            let i = choose|i: int| 0 <= i < rest.len() && rest[i] == cards.last();
            assert(cards[i] == cards[cards.len() - 1]);
        }
    }
}

/// An ordered pile of cards. Cards are dealt from its end.
#[derive(Clone, Debug, PartialEq)]
pub struct CardCollection<R: Rank> {
    pub cards: Vec<Card<R>>,
}

impl<R: Rank> View for CardCollection<R> {
    type V = Seq<Card<R>>;

    open spec fn view(&self) -> Seq<Card<R>> {
        self.cards@
    }
}

impl<R: Rank> Default for CardCollection<R> {
    fn default() -> (pile: Self)
        ensures
            pile@ == Seq::<Card<R>>::empty(),
    {
        Self::new()
    }
}

impl<R: Rank> CardCollection<R> {
    /// An empty pile.
    pub fn new() -> (pile: Self)
        ensures
            pile@ == Seq::<Card<R>>::empty(),
    {
        CardCollection { cards: Vec::new() }
    }

    /// Puts the cards of the pile into a random order. No card is added or lost.
    pub fn shuffle(&mut self)
        ensures
            final(self)@.to_multiset() == old(self)@.to_multiset(),
            final(self)@.len() == old(self)@.len(),
    {
        shuffle(&mut self.cards);
        proof {
            old(self)@.to_multiset_ensures();
            self@.to_multiset_ensures();
        }
    }

    /// Takes the top card off the pile, if there is one.
    pub fn deal(&mut self) -> (dealt: Option<Card<R>>)
        ensures
            match dealt {
                Some(card) => old(self)@.len() > 0 && card == old(self)@.last() && final(self)@
                    == old(self)@.drop_last(),
                None => old(self)@.len() == 0 && final(self)@ == old(self)@,
            },
    {
        self.cards.pop()
    }

    /// Puts a card on top of the pile.
    pub fn push(&mut self, card: Card<R>)
        ensures
            final(self)@ == old(self)@.push(card),
    {
        self.cards.push(card);
    }

    pub fn len(&self) -> (n: usize)
        ensures
            n == self@.len(),
    {
        self.cards.len()
    }

    pub fn is_empty(&self) -> (empty: bool)
        ensures
            empty == (self@.len() == 0),
    {
        self.cards.len() == 0
    }

    /// Puts one full deck on top of the pile.
    fn push_deck(&mut self)
        ensures
            final(self)@ == old(self)@ + deck_of::<R>(),
    {
        let suits = Suit::all();
        let ranks = R::all();
        let mut i: usize = 0;
        while i < suits.len()
            invariant
                i <= 4,
                suits@ == Suit::spec_all(),
                ranks@ == R::spec_all(),
                self@ == old(self)@ + deck_prefix::<R>(i as int),
            decreases suits.len() - i,
        {
            let ghost base = self@;
            let suit = suits[i];
            let mut j: usize = 0;
            while j < ranks.len()
                invariant
                    j <= ranks.len(),
                    ranks@ == R::spec_all(),
                    self@ == base + suit_run::<R>(suit).take(j as int),
                decreases ranks.len() - j,
            {
                self.cards.push(Card::new(suit, ranks[j]));
                assert(suit_run::<R>(suit).take(j + 1) =~= suit_run::<R>(suit).take(j as int).push(
                    Card { suit, rank: ranks@[j as int] },
                ));
                j += 1;
            }
            assert(suit_run::<R>(suit).take(j as int) =~= suit_run::<R>(suit));
            assert(deck_prefix::<R>(i + 1) == deck_prefix::<R>(i as int) + suit_run::<R>(suit));
            i += 1;
        }
        assert(deck_prefix::<R>(4) =~= deck_of::<R>()) by {
            reveal_with_fuel(deck_prefix, 5);
        }
    }
}

/// The cards of the first `suits` suits of a deck.
spec fn deck_prefix<R: Rank>(suits: int) -> Seq<Card<R>>
    decreases suits,
{
    if suits <= 0 {
        Seq::empty()
    } else {
        deck_prefix::<R>(suits - 1) + suit_run::<R>(Suit::spec_all()[suits - 1])
    }
}

/// One deck of cards.
pub struct Deck<R: Rank> {
    pub cards: CardCollection<R>,
}

impl<R: Rank> Default for Deck<R> {
    fn default() -> (deck: Self)
        ensures
            deck.cards@ == deck_of::<R>(),
    {
        Self::new()
    }
}

impl<R: Rank> Deck<R> {
    /// A full deck in its first order: suit by suit, the ranks from lowest to highest.
    pub fn new() -> (deck: Self)
        ensures
            deck.cards@ == deck_of::<R>(),
    {
        let mut cards = CardCollection::new();
        cards.push_deck();
        Deck { cards }
    }

    /// Puts the cards that are left into a random order. No card is added or lost.
    pub fn shuffle(&mut self)
        ensures
            final(self).cards@.to_multiset() == old(self).cards@.to_multiset(),
            final(self).cards@.len() == old(self).cards@.len(),
    {
        self.cards.shuffle();
    }

    /// Takes the top card off the deck, if there is one.
    pub fn deal(&mut self) -> (dealt: Option<Card<R>>)
        ensures
            match dealt {
                Some(card) => old(self).cards@.len() > 0 && card == old(self).cards@.last()
                    && final(self).cards@ == old(self).cards@.drop_last(),
                None => old(self).cards@.len() == 0 && final(self).cards@ == old(self).cards@,
            },
    {
        self.cards.deal()
    }
}

/// Several decks in one pile, dealt from over many rounds.
pub struct Shoe<R: Rank> {
    pub shoe: CardCollection<R>,
}

impl<R: Rank> Shoe<R> {
    /// `num_decks` full decks, one after the other, each in its first order.
    pub fn new(num_decks: usize) -> (shoe: Self)
        ensures
            shoe.shoe@ == shoe_of::<R>(num_decks as nat),
    {
        let mut shoe = CardCollection::new();
        let mut d: usize = 0;
        while d < num_decks
            invariant
                d <= num_decks,
                shoe@ == shoe_of::<R>(d as nat),
            decreases num_decks - d,
        {
            shoe.push_deck();
            d += 1;
        }
        Shoe { shoe }
    }

    /// Puts the cards that are left into a random order. No card is added or lost.
    pub fn shuffle(&mut self)
        ensures
            final(self).shoe@.to_multiset() == old(self).shoe@.to_multiset(),
            final(self).shoe@.len() == old(self).shoe@.len(),
    {
        self.shoe.shuffle();
    }

    /// Takes the top card off the shoe, if there is one.
    pub fn deal(&mut self) -> (dealt: Option<Card<R>>)
        ensures
            match dealt {
                Some(card) => old(self).shoe@.len() > 0 && card == old(self).shoe@.last()
                    && final(self).shoe@ == old(self).shoe@.drop_last(),
                None => old(self).shoe@.len() == 0 && final(self).shoe@ == old(self).shoe@,
            },
    {
        self.shoe.deal()
    }

    /// Number of cards left.
    pub fn len(&self) -> (n: usize)
        ensures
            n == self.shoe@.len(),
    {
        self.shoe.len()
    }
}

/// The cards somebody holds.
pub struct Hand<R: Rank> {
    pub cards: Vec<Card<R>>,
}

/// The thirteen ranks of a standard deck, for callers that bring no rank set of their own.
#[derive(Clone, Copy, Debug, PartialEq, Eq, Hash, Structural)]
pub enum StandardRank {
    Two,
    Three,
    Four,
    Five,
    Six,
    Seven,
    Eight,
    Nine,
    Ten,
    Jack,
    Queen,
    King,
    Ace,
}

impl Rank for StandardRank {
    open spec fn spec_all() -> Seq<Self> {
        seq![
            StandardRank::Two,
            StandardRank::Three,
            StandardRank::Four,
            StandardRank::Five,
            StandardRank::Six,
            StandardRank::Seven,
            StandardRank::Eight,
            StandardRank::Nine,
            StandardRank::Ten,
            StandardRank::Jack,
            StandardRank::Queen,
            StandardRank::King,
            StandardRank::Ace,
        ]
    }

    open spec fn spec_display(&self) -> Seq<char> {
        match self {
            StandardRank::Two => "2"@,
            StandardRank::Three => "3"@,
            StandardRank::Four => "4"@,
            StandardRank::Five => "5"@,
            StandardRank::Six => "6"@,
            StandardRank::Seven => "7"@,
            StandardRank::Eight => "8"@,
            StandardRank::Nine => "9"@,
            StandardRank::Ten => "10"@,
            StandardRank::Jack => "J"@,
            StandardRank::Queen => "Q"@,
            StandardRank::King => "K"@,
            StandardRank::Ace => "A"@,
        }
    }

    open spec fn spec_is_face(&self) -> bool {
        *self == StandardRank::Jack || *self == StandardRank::Queen || *self == StandardRank::King
    }

    proof fn lemma_all_distinct() {
        let all = Self::spec_all();
        assert forall|i: int, j: int| 0 <= i < all.len() && 0 <= j < all.len() && i != j implies all[i]
            != all[j] by {
            assert(all.len() == 13);
        }
    }

    fn all() -> (ranks: &'static [Self]) {
        &[
            StandardRank::Two,
            StandardRank::Three,
            StandardRank::Four,
            StandardRank::Five,
            StandardRank::Six,
            StandardRank::Seven,
            StandardRank::Eight,
            StandardRank::Nine,
            StandardRank::Ten,
            StandardRank::Jack,
            StandardRank::Queen,
            StandardRank::King,
            StandardRank::Ace,
        ]
    }

    fn display(&self) -> (label: &'static str) {
        match self {
            StandardRank::Two => "2",
            StandardRank::Three => "3",
            StandardRank::Four => "4",
            StandardRank::Five => "5",
            StandardRank::Six => "6",
            StandardRank::Seven => "7",
            StandardRank::Eight => "8",
            StandardRank::Nine => "9",
            StandardRank::Ten => "10",
            StandardRank::Jack => "J",
            StandardRank::Queen => "Q",
            StandardRank::King => "K",
            StandardRank::Ace => "A",
        }
    }

    fn is_face(&self) -> (face: bool) {
        match self {
            StandardRank::Jack | StandardRank::Queen | StandardRank::King => true,
            _ => false,
        }
    }
}

impl BlackjackRank for StandardRank {
    open spec fn spec_blackjack_value(&self) -> u8 {
        match self {
            StandardRank::Two => 2,
            StandardRank::Three => 3,
            StandardRank::Four => 4,
            StandardRank::Five => 5,
            StandardRank::Six => 6,
            StandardRank::Seven => 7,
            StandardRank::Eight => 8,
            StandardRank::Nine => 9,
            StandardRank::Ten | StandardRank::Jack | StandardRank::Queen | StandardRank::King => 10,
            StandardRank::Ace => 11,
        }
    }

    open spec fn spec_is_ace(&self) -> bool {
        *self == StandardRank::Ace
    }

    fn blackjack_value(&self) -> (points: u8) {
        match self {
            StandardRank::Two => 2,
            StandardRank::Three => 3,
            StandardRank::Four => 4,
            StandardRank::Five => 5,
            StandardRank::Six => 6,
            StandardRank::Seven => 7,
            StandardRank::Eight => 8,
            StandardRank::Nine => 9,
            StandardRank::Ten | StandardRank::Jack | StandardRank::Queen | StandardRank::King => 10,
            StandardRank::Ace => 11,
        }
    }

    fn is_ace(&self) -> (ace: bool) {
        match self {
            StandardRank::Ace => true,
            _ => false,
        }
    }
}

impl BaccaratRank for StandardRank {
    open spec fn spec_baccarat_value(&self) -> u8 {
        match self {
            StandardRank::Two => 2,
            StandardRank::Three => 3,
            StandardRank::Four => 4,
            StandardRank::Five => 5,
            StandardRank::Six => 6,
            StandardRank::Seven => 7,
            StandardRank::Eight => 8,
            StandardRank::Nine => 9,
            StandardRank::Ten | StandardRank::Jack | StandardRank::Queen | StandardRank::King => 0,
            StandardRank::Ace => 1,
        }
    }

    fn baccarat_value(&self) -> (points: u8) {
        match self {
            StandardRank::Two => 2,
            StandardRank::Three => 3,
            StandardRank::Four => 4,
            StandardRank::Five => 5,
            StandardRank::Six => 6,
            StandardRank::Seven => 7,
            StandardRank::Eight => 8,
            StandardRank::Nine => 9,
            StandardRank::Ten | StandardRank::Jack | StandardRank::Queen | StandardRank::King => 0,
            StandardRank::Ace => 1,
        }
    }
}

/// A standard deck holds 52 cards, and a shoe of standard decks 52 for each deck.
pub proof fn lemma_standard_sizes(decks: nat)
    ensures
        deck_of::<StandardRank>().len() == 52,
        shoe_of::<StandardRank>(decks).len() == 52 * decks,
{
    lemma_deck_len::<StandardRank>();
    lemma_shoe_len::<StandardRank>(decks);
    assert(StandardRank::spec_all().len() == 13);
    assert(decks * 4 * 13 == 52 * decks) by (nonlinear_arith);
}

} // verus!
