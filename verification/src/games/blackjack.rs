//! Blackjack: hand values, the round, and its outcomes.

use vstd::prelude::*;
use crate::bet::ChipView;
use crate::cards::{shoe_of, BlackjackRank, Card, Rank, Shoe};
pub use crate::error::Error;
use crate::ledger::{chips_in, ChipCounts};
use crate::player::Player;

verus! {

/// The ranks of the blackjack shoe.
#[derive(Clone, Copy, Debug, PartialEq, Eq, Hash, Structural)]
pub enum BJRank {
    Two,
    Three,
    Four,
    Five,
    Six,
    Seven,
    Eight,
    Nine,
    Ten,
    Jack,
    Queen,
    King,
    Ace,
}

impl Rank for BJRank {
    open spec fn spec_all() -> Seq<Self> {
        seq![
            BJRank::Two,
            BJRank::Three,
            BJRank::Four,
            BJRank::Five,
            BJRank::Six,
            BJRank::Seven,
            BJRank::Eight,
            BJRank::Nine,
            BJRank::Ten,
            BJRank::Jack,
            BJRank::Queen,
            BJRank::King,
            BJRank::Ace,
        ]
    }

    open spec fn spec_display(&self) -> Seq<char> {
        match self {
            BJRank::Two => "2"@,
            BJRank::Three => "3"@,
            BJRank::Four => "4"@,
            BJRank::Five => "5"@,
            BJRank::Six => "6"@,
            BJRank::Seven => "7"@,
            BJRank::Eight => "8"@,
            BJRank::Nine => "9"@,
            BJRank::Ten => "10"@,
            BJRank::Jack => "J"@,
            BJRank::Queen => "Q"@,
            BJRank::King => "K"@,
            BJRank::Ace => "A"@,
        }
    }

    open spec fn spec_is_face(&self) -> bool {
        *self == BJRank::Jack || *self == BJRank::Queen || *self == BJRank::King
    }

    proof fn lemma_all_distinct() {
        let all = Self::spec_all();
        assert forall|i: int, j: int| 0 <= i < all.len() && 0 <= j < all.len() && i != j implies all[i]
            != all[j] by {
            assert(all.len() == 13);
        }
    }

    fn all() -> (ranks: &'static [Self]) {
        &[
            BJRank::Two,
            BJRank::Three,
            BJRank::Four,
            BJRank::Five,
            BJRank::Six,
            BJRank::Seven,
            BJRank::Eight,
            BJRank::Nine,
            BJRank::Ten,
            BJRank::Jack,
            BJRank::Queen,
            BJRank::King,
            BJRank::Ace,
        ]
    }

    fn display(&self) -> (label: &'static str) {
        match self {
            BJRank::Two => "2",
            BJRank::Three => "3",
            BJRank::Four => "4",
            BJRank::Five => "5",
            BJRank::Six => "6",
            BJRank::Seven => "7",
            BJRank::Eight => "8",
            BJRank::Nine => "9",
            BJRank::Ten => "10",
            BJRank::Jack => "J",
            BJRank::Queen => "Q",
            BJRank::King => "K",
            BJRank::Ace => "A",
        }
    }

    fn is_face(&self) -> (face: bool) {
        match self {
            BJRank::Jack | BJRank::Queen | BJRank::King => true,
            _ => false,
        }
    }
}

impl BlackjackRank for BJRank {
    open spec fn spec_blackjack_value(&self) -> u8 {
        match self {
            BJRank::Two => 2,
            BJRank::Three => 3,
            BJRank::Four => 4,
            BJRank::Five => 5,
            BJRank::Six => 6,
            BJRank::Seven => 7,
            BJRank::Eight => 8,
            BJRank::Nine => 9,
            BJRank::Ten | BJRank::Jack | BJRank::Queen | BJRank::King => 10,
            BJRank::Ace => 11,
        }
    }

    open spec fn spec_is_ace(&self) -> bool {
        *self == BJRank::Ace
    }

    fn blackjack_value(&self) -> (points: u8) {
        match self {
            BJRank::Two => 2,
            BJRank::Three => 3,
            BJRank::Four => 4,
            BJRank::Five => 5,
            BJRank::Six => 6,
            BJRank::Seven => 7,
            BJRank::Eight => 8,
            BJRank::Nine => 9,
            BJRank::Ten | BJRank::Jack | BJRank::Queen | BJRank::King => 10,
            BJRank::Ace => 11,
        }
    }

    fn is_ace(&self) -> (ace: bool) {
        match self {
            BJRank::Ace => true,
            _ => false,
        }
    }
}

/// The phases of a round, in their order. After `RoundOver` the table waits for bets
/// again.
#[derive(Clone, Copy, Debug, PartialEq, Eq, Structural)]
pub enum GameState {
    WaitingForBets,
    Dealing,
    PlayerTurn,
    DealerTurn,
    RoundOver,
}

impl GameState {
    /// The phase that follows this one.
    pub open spec fn spec_next(self) -> GameState {
        match self {
            GameState::WaitingForBets => GameState::Dealing,
            GameState::Dealing => GameState::PlayerTurn,
            GameState::PlayerTurn => GameState::DealerTurn,
            GameState::DealerTurn => GameState::RoundOver,
            GameState::RoundOver => GameState::WaitingForBets,
        }
    }

    /// The phase that follows this one.
    pub fn next(self) -> (phase: GameState)
        ensures
            phase == self.spec_next(),
    {
        match self {
            GameState::WaitingForBets => GameState::Dealing,
            GameState::Dealing => GameState::PlayerTurn,
            GameState::PlayerTurn => GameState::DealerTurn,
            GameState::DealerTurn => GameState::RoundOver,
            GameState::RoundOver => GameState::WaitingForBets,
        }
    }
}

/// How a round ended for one player.
#[derive(Clone, Copy, Debug, PartialEq, Eq, Structural)]
pub enum Outcome {
    PlayerBlackjack,
    DealerBlackjack,
    PlayerWin,
    DealerWin,
    Push,
    PlayerBust,
    DealerBust,
}

/// What a round came to for one player.
#[derive(Clone, Copy, Debug, PartialEq, Eq, Structural)]
pub struct RoundResult {
    pub player_index: usize,
    pub player_value: u8,
    pub dealer_value: u8,
    pub outcome: Outcome,
}

/// The points of the cards added up, each ace counted as 11.
pub open spec fn points_total(cards: Seq<Card<BJRank>>) -> nat
    decreases cards.len(),
{
    if cards.len() == 0 {
        0
    } else {
        points_total(cards.drop_last()) + cards.last().rank.spec_blackjack_value() as nat
    }
}

/// Number of aces among the cards.
pub open spec fn aces_in(cards: Seq<Card<BJRank>>) -> nat
    decreases cards.len(),
{
    if cards.len() == 0 {
        0
    } else {
        aces_in(cards.drop_last()) + if cards.last().rank.spec_is_ace() {
            1nat
        } else {
            0nat
        }
    }
}

/// A total brought down: while it is over 21 and an ace is left that counts 11, one
/// such ace is counted as 1 instead.
pub open spec fn soften(total: nat, aces: nat) -> nat
    decreases aces,
{
    if total > 21 && aces > 0 {
        soften((total - 10) as nat, (aces - 1) as nat)
    } else {
        total
    }
}

/// The value of a hand.
pub open spec fn hand_value(cards: Seq<Card<BJRank>>) -> nat {
    soften(points_total(cards), aces_in(cards))
}

/// A blackjack: two cards worth 21.
pub open spec fn is_blackjack(cards: Seq<Card<BJRank>>) -> bool {
    cards.len() == 2 && hand_value(cards) == 21
}

/// A bust: more than 21.
pub open spec fn is_bust(cards: Seq<Card<BJRank>>) -> bool {
    hand_value(cards) > 21
}

/// The points of the cards added up, each ace counted as 1.
pub open spec fn hard_total(cards: Seq<Card<BJRank>>) -> nat
    decreases cards.len(),
{
    if cards.len() == 0 {
        0
    } else {
        hard_total(cards.drop_last()) + if cards.last().rank.spec_is_ace() {
            1nat
        } else {
            cards.last().rank.spec_blackjack_value() as nat
        }
    }
}

/// With every ace at 1 each card counts from 1 to 10, and an ace at 11 counts 10 more.
pub proof fn lemma_hard_total(cards: Seq<Card<BJRank>>)
    ensures
        points_total(cards) == hard_total(cards) + 10 * aces_in(cards),
        aces_in(cards) <= cards.len() <= hard_total(cards) <= 10 * cards.len(),
    decreases cards.len(),
{
    if cards.len() > 0 {
        lemma_hard_total(cards.drop_last());
    }
}

proof fn lemma_soften(hard: nat, aces: nat)
    requires
        aces <= hard,
    ensures
        soften(hard + 10 * aces, aces) == (if aces > 0 && hard + 10 <= 21 {
            hard + 10
        } else {
            hard
        }),
    decreases aces,
{
    if aces > 0 && hard + 10 * aces > 21 {
        lemma_soften(hard, (aces - 1) as nat);
        assert((hard + 10 * aces - 10) as nat == hard + 10 * ((aces - 1) as nat));
    }
}

/// The value of a hand is its best total: with an ace in it, 10 more than with every
/// ace at 1, where that does not go over 21; else the total with every ace at 1.
pub proof fn lemma_hand_value_is_best_total(cards: Seq<Card<BJRank>>)
    ensures
        hand_value(cards) == (if aces_in(cards) > 0 && hard_total(cards) + 10 <= 21 {
            hard_total(cards) + 10
        } else {
            hard_total(cards)
        }),
        cards.len() <= hand_value(cards) <= 10 * cards.len() + 10,
{
    lemma_hard_total(cards);
    lemma_soften(hard_total(cards), aces_in(cards));
}

/// One more card raises the value of a hand by 20 at most, and leaves it at 1 at least.
pub proof fn lemma_value_after_card(cards: Seq<Card<BJRank>>, card: Card<BJRank>)
    ensures
        1 <= hand_value(cards.push(card)) <= hand_value(cards) + 20,
{
    lemma_hand_value_is_best_total(cards);
    lemma_hand_value_is_best_total(cards.push(card));
    assert(cards.push(card).drop_last() =~= cards);
}

/// The outcome for a player, from whether player and dealer hold a blackjack and from
/// the values of their hands. In this order: two blackjacks push; a blackjack wins
/// for its holder; a player over 21 is bust; then a dealer over 21 is bust; then the
/// higher value wins, and equal values push.
pub open spec fn outcome_of(
    player_blackjack: bool,
    dealer_blackjack: bool,
    player_value: nat,
    dealer_value: nat,
) -> Outcome {
    if player_blackjack && dealer_blackjack {
        Outcome::Push
    } else if player_blackjack {
        Outcome::PlayerBlackjack
    } else if dealer_blackjack {
        Outcome::DealerBlackjack
    } else if player_value > 21 {
        Outcome::PlayerBust
    } else if dealer_value > 21 {
        Outcome::DealerBust
    } else if player_value > dealer_value {
        Outcome::PlayerWin
    } else if player_value < dealer_value {
        Outcome::DealerWin
    } else {
        Outcome::Push
    }
}

impl RoundResult {
    /// Whether the outcome fits the two values: a blackjack is worth 21, a bust more
    /// than 21, a win goes to the higher value with nobody bust, a push has equal
    /// values.
    pub open spec fn consistent(self) -> bool {
        match self.outcome {
            Outcome::PlayerBlackjack => self.player_value == 21,
            Outcome::DealerBlackjack => self.dealer_value == 21,
            Outcome::PlayerBust => self.player_value > 21,
            Outcome::DealerBust => self.player_value <= 21 && self.dealer_value > 21,
            Outcome::PlayerWin => self.dealer_value < self.player_value <= 21,
            Outcome::DealerWin => self.player_value < self.dealer_value <= 21,
            Outcome::Push => self.player_value == self.dealer_value <= 21,
        }
    }
}

/// Card number `k` that is dealt from `shoe`, counted from 0, cards leaving the shoe from
/// its end: there is none once the shoe has run out.
pub open spec fn dealt_card(shoe: Seq<Card<BJRank>>, k: int) -> Option<Card<BJRank>> {
    if 0 <= k < shoe.len() {
        Some(shoe[shoe.len() - 1 - k])
    } else {
        None
    }
}

/// The card as a sequence of one, or of none.
pub open spec fn cards_of(card: Option<Card<BJRank>>) -> Seq<Card<BJRank>> {
    match card {
        Some(card) => seq![card],
        None => Seq::empty(),
    }
}

/// What is left of `shoe` after `k` cards were asked of it.
pub open spec fn shoe_after(shoe: Seq<Card<BJRank>>, k: int) -> Seq<Card<BJRank>> {
    if k >= shoe.len() {
        Seq::empty()
    } else {
        shoe.take(shoe.len() - k)
    }
}

/// The two cards dealt to player `i` of `players`: every player gets a first card, then
/// the dealer the hole card, then every player a second card, then the dealer the
/// up-card.
pub open spec fn dealt_hand(shoe: Seq<Card<BJRank>>, players: int, i: int) -> Seq<Card<BJRank>> {
    cards_of(dealt_card(shoe, i)) + cards_of(dealt_card(shoe, players + 1 + i))
}

/// The two cards dealt to the dealer, the up-card first.
pub open spec fn dealt_dealer(shoe: Seq<Card<BJRank>>, players: int) -> Seq<Card<BJRank>> {
    cards_of(dealt_card(shoe, 2 * players + 1)) + cards_of(dealt_card(shoe, players))
}

/// A hand played out: it takes cards from the end of the shoe while it is worth less
/// than 17 and the shoe holds a card. Gives the hand and what is left of the shoe.
pub open spec fn draw_to_17(hand: Seq<Card<BJRank>>, shoe: Seq<Card<BJRank>>) -> (
    Seq<Card<BJRank>>,
    Seq<Card<BJRank>>,
)
    decreases shoe.len(),
{
    if hand_value(hand) >= 17 || shoe.len() == 0 {
        (hand, shoe)
    } else {
        draw_to_17(hand.push(shoe.last()), shoe.drop_last())
    }
}

/// What is left of `shoe` once the cards are dealt and the first `i` players have played
/// out their hands, one after the other.
pub open spec fn shoe_after_players(shoe: Seq<Card<BJRank>>, players: int, i: int) -> Seq<
    Card<BJRank>,
>
    decreases i,
{
    if i <= 0 {
        shoe_after(shoe, 2 * players + 2)
    } else {
        draw_to_17(dealt_hand(shoe, players, i - 1), shoe_after_players(shoe, players, i - 1)).1
    }
}

/// The hand of player `i` once played out.
pub open spec fn played_hand(shoe: Seq<Card<BJRank>>, players: int, i: int) -> Seq<Card<BJRank>> {
    draw_to_17(dealt_hand(shoe, players, i), shoe_after_players(shoe, players, i)).0
}

/// The hand of the dealer once played out, after all the players.
pub open spec fn played_dealer(shoe: Seq<Card<BJRank>>, players: int) -> Seq<Card<BJRank>> {
    draw_to_17(dealt_dealer(shoe, players), shoe_after_players(shoe, players, players)).0
}

/// What is left of `shoe` after the round.
pub open spec fn shoe_after_round(shoe: Seq<Card<BJRank>>, players: int) -> Seq<Card<BJRank>> {
    draw_to_17(dealt_dealer(shoe, players), shoe_after_players(shoe, players, players)).1
}

/// What the round dealt from `shoe` comes to for player `i` of `players`.
pub open spec fn round_result(shoe: Seq<Card<BJRank>>, players: int, i: int) -> RoundResult {
    let player_value = hand_value(played_hand(shoe, players, i));
    let dealer_value = hand_value(played_dealer(shoe, players));
    RoundResult {
        player_index: i as usize,
        player_value: player_value as u8,
        dealer_value: dealer_value as u8,
        outcome: outcome_of(
            is_blackjack(played_hand(shoe, players, i)),
            is_blackjack(dealt_dealer(shoe, players)),
            player_value,
            dealer_value,
        ),
    }
}

/// The results of round number `round`, counted from 0, among the results of rounds at
/// a table of `seats` players.
pub open spec fn results_of(all: Seq<RoundResult>, seats: int, round: int) -> Seq<RoundResult> {
    all.subrange(round * seats, (round + 1) * seats)
}

/// Whether `results` are what a round at a table of `seats` players came to, dealt from
/// some shoe.
pub open spec fn is_round(results: Seq<RoundResult>, seats: int) -> bool {
    exists|shoe: Seq<Card<BJRank>>| results == #[trigger] round_results(shoe, seats)
}

/// What the round dealt from `shoe` comes to for each of the players, in their order.
pub open spec fn round_results(shoe: Seq<Card<BJRank>>, players: int) -> Seq<RoundResult> {
    Seq::new(players as nat, |i: int| round_result(shoe, players, i))
}

/// A hand that is played out is worth 17 or more, unless the shoe ran out; it keeps
/// the cards it had, and the shoe keeps the cards that were not drawn; and the hand is
/// worth no more than 36 if it started at no more.
pub proof fn lemma_draw_to_17(hand: Seq<Card<BJRank>>, shoe: Seq<Card<BJRank>>)
    ensures
        ({
            let (played, rest) = draw_to_17(hand, shoe);
            &&& hand_value(played) >= 17 || rest.len() == 0
            &&& hand.len() <= played.len()
            &&& rest.len() <= shoe.len()
            &&& played.len() + rest.len() == hand.len() + shoe.len()
            &&& played.take(hand.len() as int) == hand
            &&& rest == shoe.take(rest.len() as int)
            &&& (played == hand && rest == shoe) || played.len() > hand.len()
            &&& hand_value(hand) <= 36 ==> hand_value(played) <= 36
        }),
    decreases shoe.len(),
{
    if hand_value(hand) >= 17 || shoe.len() == 0 {
        assert(hand.take(hand.len() as int) =~= hand);
        assert(shoe.take(shoe.len() as int) =~= shoe);
    } else {
        let next = hand.push(shoe.last());
        let fewer = shoe.drop_last();
        lemma_draw_to_17(next, fewer);
        lemma_value_after_card(hand, shoe.last());
        let (played, rest) = draw_to_17(hand, shoe);
        assert((played, rest) == draw_to_17(next, fewer));
        assert(played.take(hand.len() as int) =~= played.take(next.len() as int).take(
            hand.len() as int,
        ));
        assert(next.take(hand.len() as int) =~= hand);
        assert(fewer.take(rest.len() as int) =~= shoe.take(rest.len() as int));
    }
}

/// Once the shoe has run out while the cards were dealt, nobody draws any more.
proof fn lemma_empty_shoe_stays(shoe: Seq<Card<BJRank>>, players: int, i: int)
    requires
        shoe_after(shoe, 2 * players + 2).len() == 0,
    ensures
        shoe_after_players(shoe, players, i).len() == 0,
    decreases i,
{
    if i > 0 {
        lemma_empty_shoe_stays(shoe, players, i - 1);
    }
}

/// A blackjack takes no card, and neither does a hand that is bust.
pub proof fn lemma_blackjack_stands(hand: Seq<Card<BJRank>>, shoe: Seq<Card<BJRank>>)
    requires
        is_blackjack(hand) || is_bust(hand),
    ensures
        draw_to_17(hand, shoe) == (hand, shoe),
{
}

/// The cards dealt to a hand are two at most, and worth 30 at most.
pub proof fn lemma_dealt_hands(shoe: Seq<Card<BJRank>>, players: int, i: int)
    ensures
        dealt_hand(shoe, players, i).len() <= 2,
        hand_value(dealt_hand(shoe, players, i)) <= 30,
        dealt_dealer(shoe, players).len() <= 2,
        hand_value(dealt_dealer(shoe, players)) <= 30,
{
    lemma_hand_value_is_best_total(dealt_hand(shoe, players, i));
    lemma_hand_value_is_best_total(dealt_dealer(shoe, players));
}

/// No hand of a round is worth more than 36, so every value fits the result; the
/// dealer holds a blackjack at the end of the round exactly if the two cards dealt to
/// the dealer were one; and the outcome fits the values.
pub proof fn lemma_round_values(shoe: Seq<Card<BJRank>>, players: int, i: int)
    requires
        0 <= players,
    ensures
        hand_value(played_hand(shoe, players, i)) <= 36,
        hand_value(played_dealer(shoe, players)) <= 36,
        is_blackjack(played_dealer(shoe, players)) == is_blackjack(dealt_dealer(shoe, players)),
        round_result(shoe, players, i).consistent(),
{
    lemma_dealt_hands(shoe, players, i);
    lemma_draw_to_17(dealt_hand(shoe, players, i), shoe_after_players(shoe, players, i));
    lemma_draw_to_17(dealt_dealer(shoe, players), shoe_after_players(shoe, players, players));
    let dealt = dealt_dealer(shoe, players);
    if dealt.len() < 2 {
        assert(dealt_card(shoe, 2 * players + 1) is None);
        lemma_empty_shoe_stays(shoe, players, players);
    }
}

/// Whether `after` is the seat `before` made ready for a round and holding `cards`: a
/// seat without a hand has got one, with nothing staked; otherwise the hands and what
/// is staked on them are as before; and the first hand holds `cards`.
pub open spec fn seat_holds(before: PlayerSeat, after: PlayerSeat, cards: Seq<Card<BJRank>>) -> bool {
    &&& after.player == before.player
    &&& after.hands@.len() >= 1
    &&& after.hands@[0].cards@ == cards
    &&& if before.hands@.len() == 0 {
        after.hands@.len() == 1 && after.hands@[0].bet@ == Map::<ChipView, nat>::empty()
    } else {
        &&& after.hands@.len() == before.hands@.len()
        &&& after.hands@[0].bet == before.hands@[0].bet
        &&& forall|k: int| 1 <= k < before.hands@.len() ==> after.hands@[k] == before.hands@[k]
    }
}

/// Whether `after` is the seat `before` but for the cards of its first hand.
pub open spec fn same_but_cards(before: PlayerSeat, after: PlayerSeat) -> bool {
    &&& after.player == before.player
    &&& after.hands@.len() == before.hands@.len()
    &&& after.hands@.len() >= 1 ==> after.hands@[0].bet == before.hands@[0].bet
    &&& forall|k: int| 1 <= k < before.hands@.len() ==> after.hands@[k] == before.hands@[k]
}

/// One step of dealing: where the shoe has come down to `left` after `k` cards were
/// asked of it, the next card asked is its last, if it has one.
proof fn lemma_deal_step(shoe: Seq<Card<BJRank>>, k: int, left: Seq<Card<BJRank>>)
    requires
        0 <= k,
        left == shoe_after(shoe, k),
    ensures
        left.len() > 0 ==> dealt_card(shoe, k) == Some(left.last()) && left.drop_last()
            == shoe_after(shoe, k + 1),
        left.len() == 0 ==> dealt_card(shoe, k) is None && shoe_after(shoe, k + 1) == left,
{
    if left.len() > 0 {
        assert(left.drop_last() =~= shoe_after(shoe, k + 1));
    } else {
        assert(shoe_after(shoe, k + 1) =~= left);
    }
}

/// A hand at blackjack.
pub struct Hand {
    pub cards: Vec<Card<BJRank>>,
    /// The chips staked on the hand.
    pub bet: ChipCounts,
}

impl Hand {
    /// The value of the hand, where it fits in a `u8`.
    pub fn value(&self) -> (value: u8)
        requires
            hand_value(self.cards@) <= u8::MAX,
        ensures
            value == hand_value(self.cards@),
    {
        BlackjackGame::score_cards(self.cards.as_slice())
    }

    /// Whether the hand is a blackjack: two cards worth 21.
    pub fn is_blackjack(&self) -> (blackjack: bool)
        requires
            hand_value(self.cards@) <= u8::MAX,
        ensures
            blackjack == is_blackjack(self.cards@),
    {
        self.cards.len() == 2 && self.value() == 21
    }

    /// Whether the hand is bust: worth more than 21.
    pub fn is_bust(&self) -> (bust: bool)
        requires
            hand_value(self.cards@) <= u8::MAX,
        ensures
            bust == is_bust(self.cards@),
    {
        self.value() > 21
    }
}

/// A seat at the table: a player and their hands.
pub struct PlayerSeat {
    pub player: Player,
    /// The hands of the player; the round is played on the first.
    pub hands: Vec<Hand>,
}

impl PlayerSeat {
    /// Seats a player, with no hand yet.
    pub fn new(player: Player) -> (seat: Self)
        ensures
            seat.player == player,
            seat.hands@.len() == 0,
    {
        Self { player, hands: Vec::new() }
    }

    pub fn get_player_name(&self) -> (name: &str)
        ensures
            name@ == self.player.name@,
    {
        self.player.name.as_str()
    }
}

/// The dealer: the hole card while it lies face down, and the open hand.
pub struct Dealer {
    pub face_down_card: Option<Card<BJRank>>,
    pub hand: Vec<Card<BJRank>>,
}

/// A blackjack table.
pub struct BlackjackGame {
    pub dealer: Dealer,
    pub players: Vec<PlayerSeat>,
    pub shoe: Shoe<BJRank>,
    /// Fewest chips that may be staked on a hand.
    pub min_bet: u32,
    /// Most chips that may be staked on a hand.
    pub max_bet: u32,
    /// Number of decks in a fresh shoe.
    pub num_decks: usize,
}

impl BlackjackGame {
    /// The value of the cards as a blackjack hand, where it fits in a `u8`.
    pub fn score_cards(cards: &[Card<BJRank>]) -> (value: u8)
        requires
            hand_value(cards@) <= u8::MAX,
        ensures
            value == hand_value(cards@),
    {
        let mut total: u128 = 0;
        let mut aces: usize = 0;
        let mut i: usize = 0;
        while i < cards.len()
            invariant
                i <= cards@.len(),
                total == points_total(cards@.take(i as int)),
                aces == aces_in(cards@.take(i as int)),
                total <= 11 * i,
                aces <= i,
            decreases cards@.len() - i,
        {
            proof {
                assert(cards@.take(i + 1).drop_last() =~= cards@.take(i as int));
            }
            total = total + cards[i].value() as u128;
            if cards[i].is_ace() {
                aces = aces + 1;
            }
            i += 1;
        }
        proof {
            assert(cards@.take(i as int) =~= cards@);
        }
        while total > 21 && aces > 0
            invariant
                soften(total as nat, aces as nat) == hand_value(cards@),
            decreases aces,
        {
            total = total - 10;
            aces = aces - 1;
        }
        total as u8
    }

    /// Whether `after` is a table with the limits, the decks and the number of seats of
    /// this one.
    pub open spec fn same_table(self, after: Self) -> bool {
        &&& after.min_bet == self.min_bet
        &&& after.max_bet == self.max_bet
        &&& after.num_decks == self.num_decks
        &&& after.players@.len() == self.players@.len()
    }

    /// Whether `after` is this table once the cards of a round are dealt from its shoe.
    pub open spec fn dealt(self, after: Self) -> bool {
        let shoe = self.shoe.shoe@;
        let seats = self.players@.len() as int;
        &&& self.same_table(after)
        &&& forall|j: int|
            0 <= j < seats ==> seat_holds(
                self.players@[j],
                #[trigger] after.players@[j],
                dealt_hand(shoe, seats, j),
            )
        &&& after.dealer.face_down_card == dealt_card(shoe, seats)
        &&& after.dealer.hand@ == cards_of(dealt_card(shoe, 2 * seats + 1))
        &&& after.shoe.shoe@ == shoe_after(shoe, 2 * seats + 2)
    }

    /// Whether `after` is this table once the round dealt from `shoe` is played, with
    /// `results` what it came to: the shoe holds what the round left, the dealer's hand
    /// lies open as played, and the players' hands are cleared for the next round.
    pub open spec fn round_played(
        self,
        shoe: Seq<Card<BJRank>>,
        after: Self,
        results: Seq<RoundResult>,
    ) -> bool {
        let seats = self.players@.len() as int;
        &&& self.same_table(after)
        &&& results == round_results(shoe, seats)
        &&& after.shoe.shoe@ == shoe_after_round(shoe, seats)
        &&& after.dealer.hand@ == played_dealer(shoe, seats)
        &&& after.dealer.face_down_card is None
        &&& forall|j: int|
            0 <= j < seats ==> seat_holds(
                self.players@[j],
                #[trigger] after.players@[j],
                Seq::empty(),
            )
    }

    /// Whether `after` is this table once `rounds` rounds are played, with `all` what
    /// they came to, round by round: each round starts from the shoe that the round
    /// before it left, or from a fresh one where that has run low.
    pub open spec fn rounds_played(self, rounds: nat, after: Self, all: Seq<RoundResult>) -> bool
        decreases rounds,
    {
        if rounds == 0 {
            after == self && all.len() == 0
        } else {
            let earlier = (rounds - 1) * self.players@.len();
            exists|before_last: Self, shoe: Seq<Card<BJRank>>|
                {
                    &&& self.rounds_played((rounds - 1) as nat, before_last, all.take(earlier))
                    &&& before_last.starts_from(shoe)
                    &&& #[trigger] before_last.round_played(shoe, after, all.skip(earlier))
                }
        }
    }

    /// Whether a round at this table may start from `shoe`: from the table's own shoe
    /// where that still holds 52 cards, else from a fresh shoe in some order.
    pub open spec fn starts_from(self, shoe: Seq<Card<BJRank>>) -> bool {
        if self.shoe.shoe@.len() >= 52 {
            shoe == self.shoe.shoe@
        } else {
            shoe.to_multiset() == shoe_of::<BJRank>(self.num_decks as nat).to_multiset()
        }
    }

    /// A table for the given players, with a fresh shoe of `num_decks` decks in its first
    /// order, and with the limits for the number of chips staked on a hand.
    pub fn new(players: Vec<Player>, num_decks: usize, min_bet: u32, max_bet: u32) -> (game: Self)
        ensures
            game.players@.len() == players@.len(),
            forall|i: int|
                0 <= i < players@.len() ==> (#[trigger] game.players@[i]).player == players@[i]
                    && game.players@[i].hands@.len() == 0,
            game.shoe.shoe@ == shoe_of::<BJRank>(num_decks as nat),
            game.dealer.face_down_card is None,
            game.dealer.hand@.len() == 0,
            game.min_bet == min_bet,
            game.max_bet == max_bet,
            game.num_decks == num_decks,
    {
        let shoe = Shoe::<BJRank>::new(num_decks);
        let mut seats: Vec<PlayerSeat> = Vec::new();
        let mut rest = players;
        let ghost all = rest@;
        while rest.len() > 0
            invariant
                seats@.len() + rest@.len() == all.len(),
                rest@ == all.skip(seats@.len() as int),
                forall|i: int|
                    0 <= i < seats@.len() ==> (#[trigger] seats@[i]).player == all[i]
                        && seats@[i].hands@.len() == 0,
            decreases rest@.len(),
        {
            let player = rest.remove(0);
            seats.push(PlayerSeat::new(player));
            assert(rest@ =~= all.skip(seats@.len() as int));
        }
        Self {
            dealer: Dealer { face_down_card: None, hand: Vec::new() },
            players: seats,
            shoe,
            min_bet,
            max_bet,
            num_decks,
        }
    }

    /// Puts the cards that are left in the shoe into a random order.
    pub fn shuffle_shoe(&mut self)
        ensures
            final(self).shoe.shoe@.to_multiset() == old(self).shoe.shoe@.to_multiset(),
            final(self).shoe.shoe@.len() == old(self).shoe.shoe@.len(),
            final(self).players == old(self).players,
            final(self).dealer == old(self).dealer,
            old(self).same_table(*final(self)),
    {
        self.shoe.shuffle();
    }

    /// Number of cards left in the shoe.
    pub fn cards_remaining(&self) -> (n: usize)
        ensures
            n == self.shoe.shoe@.len(),
    {
        self.shoe.shoe.len()
    }

    /// Gives the player at `player_index` a new hand with `bet` staked on it. Refused
    /// where nobody sits at that index, and where `bet` holds fewer chips than the
    /// table's minimum or more than its maximum.
    pub fn place_initial_bet(&mut self, player_index: usize, bet: ChipCounts) -> (placed: Result<
        (),
        Error,
    >)
        ensures
            placed == (if player_index >= old(self).players@.len() {
                Err::<(), Error>(Error::InvalidPlayer)
            } else if chips_in(bet@) < old(self).min_bet || chips_in(bet@) > old(self).max_bet {
                Err::<(), Error>(Error::InvalidBet)
            } else {
                Ok::<(), Error>(())
            }),
            placed is Err ==> *final(self) == *old(self),
            placed is Ok ==> {
                let before = old(self).players@[player_index as int];
                let after = final(self).players@[player_index as int];
                &&& old(self).same_table(*final(self))
                &&& final(self).dealer == old(self).dealer
                &&& final(self).shoe == old(self).shoe
                &&& forall|j: int|
                    0 <= j < old(self).players@.len() && j != player_index
                        ==> final(self).players@[j] == old(self).players@[j]
                &&& after.player == before.player
                &&& after.hands@.len() == before.hands@.len() + 1
                &&& after.hands@.take(before.hands@.len() as int) == before.hands@
                &&& after.hands@.last().cards@.len() == 0
                &&& after.hands@.last().bet == bet
            },
    {
        if player_index >= self.players.len() {
            return Err(Error::InvalidPlayer);
        }
        let chips = bet.chip_total();
        if chips < self.min_bet as u128 || chips > self.max_bet as u128 {
            return Err(Error::InvalidBet);
        }
        self.players[player_index].hands.push(Hand { cards: Vec::new(), bet });
        proof {
            let before = old(self).players@[player_index as int];
            let after = self.players@[player_index as int];
            assert(after.hands@.take(before.hands@.len() as int) =~= before.hands@);
        }
        Ok(())
    }

    /// Makes every seat ready for a round: a seat without a hand gets one, with nothing
    /// staked, and the first hand of every other seat is cleared of its cards.
    fn ready_hands(&mut self)
        ensures
            old(self).same_table(*final(self)),
            final(self).dealer == old(self).dealer,
            final(self).shoe == old(self).shoe,
            forall|j: int|
                0 <= j < old(self).players@.len() ==> seat_holds(
                    old(self).players@[j],
                    #[trigger] final(self).players@[j],
                    Seq::empty(),
                ),
    {
        let mut i: usize = 0;
        while i < self.players.len()
            invariant
                i <= self.players@.len(),
                old(self).same_table(*self),
                self.dealer == old(self).dealer,
                self.shoe == old(self).shoe,
                forall|j: int|
                    0 <= j < i ==> seat_holds(
                        old(self).players@[j],
                        #[trigger] self.players@[j],
                        Seq::empty(),
                    ),
                forall|j: int|
                    i <= j < self.players@.len() ==> #[trigger] self.players@[j] == old(
                        self,
                    ).players@[j],
            decreases self.players@.len() - i,
        {
            if self.players[i].hands.len() == 0 {
                self.players[i].hands.push(Hand { cards: Vec::new(), bet: ChipCounts::new() });
            } else {
                self.players[i].hands[0].cards.clear();
            }
            i += 1;
        }
    }

    /// Deals the cards of a round: one to every player, the hole card to the dealer, a
    /// second to every player, and the up-card to the dealer. Once the shoe has run out
    /// no more cards are dealt.
    pub fn deal_initial_cards(&mut self)
        ensures
            old(self).dealt(*final(self)),
    {
        let ghost shoe = self.shoe.shoe@;
        let ghost seats = self.players@.len() as int;
        self.ready_hands();
        self.dealer.hand.clear();
        self.dealer.face_down_card = None;

        let mut i: usize = 0;
        while i < self.players.len()
            invariant
                i <= self.players@.len(),
                seats == self.players@.len(),
                old(self).same_table(*self),
                shoe == old(self).shoe.shoe@,
                self.shoe.shoe@ == shoe_after(shoe, i as int),
                self.dealer.hand@.len() == 0,
                self.dealer.face_down_card is None,
                forall|j: int|
                    0 <= j < i ==> seat_holds(
                        old(self).players@[j],
                        #[trigger] self.players@[j],
                        cards_of(dealt_card(shoe, j)),
                    ),
                forall|j: int|
                    i <= j < seats ==> seat_holds(
                        old(self).players@[j],
                        #[trigger] self.players@[j],
                        Seq::empty(),
                    ),
            decreases self.players@.len() - i,
        {
            proof {
                lemma_deal_step(shoe, i as int, self.shoe.shoe@);
            }
            if let Some(card) = self.shoe.deal() {
                self.players[i].hands[0].cards.push(card);
                assert(self.players@[i as int].hands@[0].cards@ =~= cards_of(
                    dealt_card(shoe, i as int),
                ));
            }
            i += 1;
        }

        proof {
            lemma_deal_step(shoe, seats, self.shoe.shoe@);
        }
        self.dealer.face_down_card = self.shoe.deal();

        let mut i: usize = 0;
        while i < self.players.len()
            invariant
                i <= self.players@.len(),
                seats == self.players@.len(),
                old(self).same_table(*self),
                shoe == old(self).shoe.shoe@,
                self.shoe.shoe@ == shoe_after(shoe, seats + 1 + i),
                self.dealer.hand@.len() == 0,
                self.dealer.face_down_card == dealt_card(shoe, seats),
                forall|j: int|
                    0 <= j < i ==> seat_holds(
                        old(self).players@[j],
                        #[trigger] self.players@[j],
                        dealt_hand(shoe, seats, j),
                    ),
                forall|j: int|
                    i <= j < seats ==> seat_holds(
                        old(self).players@[j],
                        #[trigger] self.players@[j],
                        cards_of(dealt_card(shoe, j)),
                    ),
            decreases self.players@.len() - i,
        {
            proof {
                lemma_deal_step(shoe, seats + 1 + i, self.shoe.shoe@);
            }
            if let Some(card) = self.shoe.deal() {
                self.players[i].hands[0].cards.push(card);
            }
            assert(self.players@[i as int].hands@[0].cards@ =~= dealt_hand(shoe, seats, i as int));
            i += 1;
        }

        proof {
            lemma_deal_step(shoe, 2 * seats + 1, self.shoe.shoe@);
        }
        if let Some(card) = self.shoe.deal() {
            self.dealer.hand.push(card);
        }
        assert(self.dealer.hand@ =~= cards_of(dealt_card(shoe, 2 * seats + 1)));
    }

    /// Plays out the first hand of the player at seat `i`: unless it is a blackjack, it
    /// takes cards while it is worth less than 17 and the shoe holds a card.
    fn player_turn(&mut self, i: usize)
        requires
            i < old(self).players@.len(),
            old(self).players@[i as int].hands@.len() >= 1,
            hand_value(old(self).players@[i as int].hands@[0].cards@) <= 36,
        ensures
            old(self).same_table(*final(self)),
            final(self).dealer == old(self).dealer,
            (final(self).players@[i as int].hands@[0].cards@, final(self).shoe.shoe@)
                == draw_to_17(
                old(self).players@[i as int].hands@[0].cards@,
                old(self).shoe.shoe@,
            ),
            same_but_cards(old(self).players@[i as int], final(self).players@[i as int]),
            forall|j: int|
                0 <= j < old(self).players@.len() && j != i ==> final(self).players@[j] == old(
                    self,
                ).players@[j],
    {
        if !self.players[i].hands[0].is_blackjack() {
            while self.players[i].hands[0].value() < 17 && self.shoe.len() > 0
                invariant
                    i < self.players@.len(),
                    self.players@[i as int].hands@.len() >= 1,
                    hand_value(self.players@[i as int].hands@[0].cards@) <= 36,
                    old(self).same_table(*self),
                    self.dealer == old(self).dealer,
                    draw_to_17(self.players@[i as int].hands@[0].cards@, self.shoe.shoe@)
                        == draw_to_17(
                        old(self).players@[i as int].hands@[0].cards@,
                        old(self).shoe.shoe@,
                    ),
                    same_but_cards(old(self).players@[i as int], self.players@[i as int]),
                    forall|j: int|
                        0 <= j < self.players@.len() && j != i ==> self.players@[j] == old(
                            self,
                        ).players@[j],
                decreases self.shoe.shoe@.len(),
            {
                proof {
                    lemma_value_after_card(
                        self.players@[i as int].hands@[0].cards@,
                        self.shoe.shoe@.last(),
                    );
                }
                let card = self.shoe.deal().unwrap();
                self.players[i].hands[0].cards.push(card);
            }
        }
    }

    /// Plays out the dealer's hand: it takes cards while it is worth less than 17 and
    /// the shoe holds a card.
    fn dealer_turn(&mut self)
        requires
            hand_value(old(self).dealer.hand@) <= 36,
        ensures
            old(self).same_table(*final(self)),
            final(self).players == old(self).players,
            final(self).dealer.face_down_card == old(self).dealer.face_down_card,
            (final(self).dealer.hand@, final(self).shoe.shoe@) == draw_to_17(
                old(self).dealer.hand@,
                old(self).shoe.shoe@,
            ),
    {
        while Self::score_cards(self.dealer.hand.as_slice()) < 17 && self.shoe.len() > 0
            invariant
                hand_value(self.dealer.hand@) <= 36,
                old(self).same_table(*self),
                self.players == old(self).players,
                self.dealer.face_down_card == old(self).dealer.face_down_card,
                draw_to_17(self.dealer.hand@, self.shoe.shoe@) == draw_to_17(
                    old(self).dealer.hand@,
                    old(self).shoe.shoe@,
                ),
            decreases self.shoe.shoe@.len(),
        {
            proof {
                lemma_value_after_card(self.dealer.hand@, self.shoe.shoe@.last());
            }
            let card = self.shoe.deal().unwrap();
            self.dealer.hand.push(card);
        }
    }

    /// The outcome for a player, from whether player and dealer hold a blackjack and
    /// from the values of their hands.
    pub fn outcome(
        player_blackjack: bool,
        dealer_blackjack: bool,
        player_value: u8,
        dealer_value: u8,
    ) -> (outcome: Outcome)
        ensures
            outcome == outcome_of(
                player_blackjack,
                dealer_blackjack,
                player_value as nat,
                dealer_value as nat,
            ),
    {
        if player_blackjack && dealer_blackjack {
            Outcome::Push
        } else if player_blackjack {
            Outcome::PlayerBlackjack
        } else if dealer_blackjack {
            Outcome::DealerBlackjack
        } else if player_value > 21 {
            Outcome::PlayerBust
        } else if dealer_value > 21 {
            Outcome::DealerBust
        } else if player_value > dealer_value {
            Outcome::PlayerWin
        } else if player_value < dealer_value {
            Outcome::DealerWin
        } else {
            Outcome::Push
        }
    }

    /// What the round has come to for each player, once all hands are played out.
    fn settle(&self, dealer_blackjack: bool) -> (results: Vec<RoundResult>)
        requires
            hand_value(self.dealer.hand@) <= 36,
            forall|j: int|
                0 <= j < self.players@.len() ==> (#[trigger] self.players@[j]).hands@.len() >= 1
                    && hand_value(self.players@[j].hands@[0].cards@) <= 36,
        ensures
            results@.len() == self.players@.len(),
            forall|j: int|
                0 <= j < self.players@.len() ==> #[trigger] results@[j] == (RoundResult {
                    player_index: j as usize,
                    player_value: hand_value(self.players@[j].hands@[0].cards@) as u8,
                    dealer_value: hand_value(self.dealer.hand@) as u8,
                    outcome: outcome_of(
                        is_blackjack(self.players@[j].hands@[0].cards@),
                        dealer_blackjack,
                        hand_value(self.players@[j].hands@[0].cards@),
                        hand_value(self.dealer.hand@),
                    ),
                }),
    {
        let dealer_value = Self::score_cards(self.dealer.hand.as_slice());
        let mut results: Vec<RoundResult> = Vec::with_capacity(self.players.len());
        let mut idx: usize = 0;
        while idx < self.players.len()
            invariant
                idx <= self.players@.len(),
                results@.len() == idx,
                dealer_value == hand_value(self.dealer.hand@),
                forall|j: int|
                    0 <= j < self.players@.len() ==> (#[trigger] self.players@[j]).hands@.len()
                        >= 1 && hand_value(self.players@[j].hands@[0].cards@) <= 36,
                forall|j: int|
                    0 <= j < idx ==> #[trigger] results@[j] == (RoundResult {
                        player_index: j as usize,
                        player_value: hand_value(self.players@[j].hands@[0].cards@) as u8,
                        dealer_value: hand_value(self.dealer.hand@) as u8,
                        outcome: outcome_of(
                            is_blackjack(self.players@[j].hands@[0].cards@),
                            dealer_blackjack,
                            hand_value(self.players@[j].hands@[0].cards@),
                            hand_value(self.dealer.hand@),
                        ),
                    }),
            decreases self.players@.len() - idx,
        {
            let hand = &self.players[idx].hands[0];
            let player_value = hand.value();
            let player_blackjack = hand.is_blackjack();
            let outcome = Self::outcome(
                player_blackjack,
                dealer_blackjack,
                player_value,
                dealer_value,
            );
            results.push(RoundResult { player_index: idx, player_value, dealer_value, outcome });
            idx += 1;
        }
        results
    }

    /// Clears the first hand of every seat of its cards; what is staked stays.
    fn clear_hands(&mut self)
        ensures
            old(self).same_table(*final(self)),
            final(self).dealer == old(self).dealer,
            final(self).shoe == old(self).shoe,
            forall|j: int|
                0 <= j < old(self).players@.len() ==> same_but_cards(
                    old(self).players@[j],
                    #[trigger] final(self).players@[j],
                ) && (final(self).players@[j].hands@.len() >= 1
                    ==> final(self).players@[j].hands@[0].cards@.len() == 0),
    {
        let mut i: usize = 0;
        while i < self.players.len()
            invariant
                i <= self.players@.len(),
                old(self).same_table(*self),
                self.dealer == old(self).dealer,
                self.shoe == old(self).shoe,
                forall|j: int|
                    0 <= j < i ==> same_but_cards(
                        old(self).players@[j],
                        #[trigger] self.players@[j],
                    ) && (self.players@[j].hands@.len() >= 1
                        ==> self.players@[j].hands@[0].cards@.len() == 0),
                forall|j: int|
                    i <= j < self.players@.len() ==> #[trigger] self.players@[j] == old(
                        self,
                    ).players@[j],
            decreases self.players@.len() - i,
        {
            if self.players[i].hands.len() > 0 {
                self.players[i].hands[0].cards.clear();
            }
            i += 1;
        }
    }

    /// Plays one round from the shoe as it lies: deals, lets every player and then the
    /// dealer play out their hands, and says what the round came to for each player.
    pub fn play_round(&mut self) -> (results: Vec<RoundResult>)
        ensures
            old(self).round_played(old(self).shoe.shoe@, *final(self), results@),
    {
        let ghost shoe = self.shoe.shoe@;
        let ghost seats = self.players@.len() as int;
        self.deal_initial_cards();

        let mut dealer_cards: Vec<Card<BJRank>> = Vec::new();
        let mut k: usize = 0;
        while k < self.dealer.hand.len()
            invariant
                k <= self.dealer.hand@.len(),
                dealer_cards@ == self.dealer.hand@.take(k as int),
            decreases self.dealer.hand@.len() - k,
        {
            dealer_cards.push(self.dealer.hand[k]);
            assert(dealer_cards@ =~= self.dealer.hand@.take(k + 1));
            k += 1;
        }
        if let Some(hole) = self.dealer.face_down_card {
            dealer_cards.push(hole);
        }
        proof {
            assert(dealer_cards@ =~= dealt_dealer(shoe, seats));
            lemma_dealt_hands(shoe, seats, 0);
        }
        let dealer_has_blackjack = dealer_cards.len() == 2 && Self::score_cards(
            dealer_cards.as_slice(),
        ) == 21;

        let mut i: usize = 0;
        while i < self.players.len()
            invariant
                i <= self.players@.len(),
                seats == self.players@.len(),
                shoe == old(self).shoe.shoe@,
                old(self).same_table(*self),
                self.shoe.shoe@ == shoe_after_players(shoe, seats, i as int),
                self.dealer.face_down_card == dealt_card(shoe, seats),
                self.dealer.hand@ == cards_of(dealt_card(shoe, 2 * seats + 1)),
                forall|j: int|
                    0 <= j < i ==> seat_holds(
                        old(self).players@[j],
                        #[trigger] self.players@[j],
                        played_hand(shoe, seats, j),
                    ),
                forall|j: int|
                    i <= j < seats ==> seat_holds(
                        old(self).players@[j],
                        #[trigger] self.players@[j],
                        dealt_hand(shoe, seats, j),
                    ),
            decreases self.players@.len() - i,
        {
            proof {
                lemma_dealt_hands(shoe, seats, i as int);
            }
            self.player_turn(i);
            i += 1;
        }

        if let Some(hole) = self.dealer.face_down_card.take() {
            self.dealer.hand.push(hole);
        }
        proof {
            assert(self.dealer.hand@ =~= dealt_dealer(shoe, seats));
        }
        if !dealer_has_blackjack {
            self.dealer_turn();
        }
        proof {
            assert(dealer_has_blackjack == is_blackjack(dealt_dealer(shoe, seats)));
            assert(self.dealer.hand@ == played_dealer(shoe, seats));
            assert(self.shoe.shoe@ == shoe_after_round(shoe, seats));
            assert forall|j: int| 0 <= j < seats implies hand_value(
                (#[trigger] self.players@[j]).hands@[0].cards@,
            ) <= 36 by {
                lemma_round_values(shoe, seats, j);
            }
            lemma_round_values(shoe, seats, 0);
        }
        let results = self.settle(dealer_has_blackjack);
        let ghost played = *self;
        self.clear_hands();
        proof {
            assert forall|j: int| 0 <= j < seats implies results@[j] == round_result(
                shoe,
                seats,
                j,
            ) by {
                assert(seat_holds(
                    old(self).players@[j],
                    played.players@[j],
                    played_hand(shoe, seats, j),
                ));
            }
            assert(results@ =~= round_results(shoe, seats));
            assert forall|j: int| 0 <= j < seats implies seat_holds(
                old(self).players@[j],
                #[trigger] self.players@[j],
                Seq::empty(),
            ) by {
                assert(seat_holds(
                    old(self).players@[j],
                    played.players@[j],
                    played_hand(shoe, seats, j),
                ));
                assert(same_but_cards(played.players@[j], self.players@[j]));
                assert(self.players@[j].hands@[0].cards@ =~= Seq::empty());
            }
        }
        results
    }

    /// Makes sure that the shoe holds `min_remaining` cards: where it holds fewer, it is
    /// replaced by a fresh shoe, shuffled.
    pub fn ensure_shoe_capacity(&mut self, min_remaining: usize)
        ensures
            old(self).same_table(*final(self)),
            final(self).players == old(self).players,
            final(self).dealer == old(self).dealer,
            old(self).shoe.shoe@.len() >= min_remaining ==> final(self).shoe == old(self).shoe,
            old(self).shoe.shoe@.len() < min_remaining ==> final(self).shoe.shoe@.to_multiset()
                == shoe_of::<BJRank>(old(self).num_decks as nat).to_multiset(),
    {
        if self.cards_remaining() < min_remaining {
            self.shoe = Shoe::<BJRank>::new(self.num_decks);
            self.shoe.shuffle();
        }
    }

    /// Plays one round: from the shoe as it lies where that holds 52 cards or more, else
    /// from a fresh shoe, shuffled.
    pub fn play(&mut self) -> (results: Vec<RoundResult>)
        ensures
            exists|shoe: Seq<Card<BJRank>>| #[trigger]
                old(self).starts_from(shoe) && old(self).round_played(
                    shoe,
                    *final(self),
                    results@,
                ),
    {
        self.ensure_shoe_capacity(52);
        let ghost shoe = self.shoe.shoe@;
        let ghost ready = *self;
        let results = self.play_round();
        proof {
            assert(old(self).starts_from(shoe));
            assert(ready.round_played(shoe, *self, results@));
            assert(old(self).round_played(shoe, *self, results@));
        }
        results
    }

    /// Plays `rounds` rounds and gives what they came to, round by round and within a
    /// round player by player: the results of each round are those of a round dealt
    /// from some shoe.
    pub fn play_n(&mut self, rounds: usize) -> (all: Vec<RoundResult>)
        ensures
            all@.len() == rounds * old(self).players@.len(),
            forall|round: int|
                0 <= round < rounds ==> is_round(
                    #[trigger] results_of(all@, old(self).players@.len() as int, round),
                    old(self).players@.len() as int,
                ),
            forall|round: int, j: int|
                0 <= round < rounds && 0 <= j < old(self).players@.len() ==> {
                    let result = #[trigger] all@[round * old(self).players@.len() + j];
                    result.player_index == j && result.consistent()
                },
            old(self).same_table(*final(self)),
            rounds > 0 ==> forall|j: int|
                0 <= j < old(self).players@.len() ==> seat_holds(
                    old(self).players@[j],
                    #[trigger] final(self).players@[j],
                    Seq::empty(),
                ),
            old(self).rounds_played(rounds as nat, *final(self), all@),
    {
        let ghost seats = self.players@.len() as int;
        assert(seats <= usize::MAX) by {
            assert(self.players.len() == seats);
        }
        let mut all: Vec<RoundResult> = Vec::new();
        let mut round: usize = 0;
        while round < rounds
            invariant
                round <= rounds,
                seats == old(self).players@.len(),
                seats <= usize::MAX,
                old(self).same_table(*self),
                all@.len() == round * seats,
                forall|r: int|
                    0 <= r < round ==> is_round(#[trigger] results_of(all@, seats, r), seats),
                forall|r: int, j: int|
                    0 <= r < round && 0 <= j < seats ==> {
                        let result = #[trigger] all@[r * seats + j];
                        result.player_index == j && result.consistent()
                    },
                round > 0 ==> forall|j: int|
                    0 <= j < seats ==> seat_holds(
                        old(self).players@[j],
                        #[trigger] self.players@[j],
                        Seq::empty(),
                    ),
                old(self).rounds_played(round as nat, *self, all@),
            decreases rounds - round,
        {
            let ghost before = *self;
            let ghost so_far = all@;
            let mut results = self.play();
            proof {
                let shoe = choose|shoe: Seq<Card<BJRank>>| #[trigger]
                    before.starts_from(shoe) && before.round_played(shoe, *self, results@);
                assert(results@ == round_results(shoe, seats));
                assert forall|j: int| 0 <= j < seats implies (#[trigger] results@[j]).player_index
                    == j && results@[j].consistent() by {
                    lemma_round_values(shoe, seats, j);
                    assert(results@[j] == round_result(shoe, seats, j));
                }
                assert((round + 1) * seats == round * seats + seats) by (nonlinear_arith);
            }
            let ghost fresh = results@;
            all.append(&mut results);
            proof {
                let shoe = choose|shoe: Seq<Card<BJRank>>| #[trigger]
                    before.starts_from(shoe) && before.round_played(shoe, *self, fresh);
                let earlier = ((round + 1) as nat - 1) * old(self).players@.len();
                assert(earlier == round * seats) by (nonlinear_arith)
                    requires
                        earlier == ((round + 1) as nat - 1) * seats,
                ;
                assert(all@.take(earlier) =~= so_far);
                assert(all@.skip(earlier) =~= fresh);
                assert(before.round_played(shoe, *self, all@.skip(earlier)));
                assert(old(self).rounds_played((round + 1) as nat, *self, all@));
            }
            proof {
                assert forall|r: int| 0 <= r < round + 1 implies is_round(
                    #[trigger] results_of(all@, seats, r),
                    seats,
                ) by {
                    if r < round {
                        assert((r + 1) * seats <= round * seats) by (nonlinear_arith)
                            requires
                                0 <= r < round,
                                0 <= seats,
                        ;
                        assert(0 <= r * seats <= (r + 1) * seats) by (nonlinear_arith)
                            requires
                                0 <= r,
                                0 <= seats,
                        ;
                        assert(results_of(all@, seats, r) =~= results_of(so_far, seats, r));
                    } else {
                        let shoe = choose|shoe: Seq<Card<BJRank>>| #[trigger]
                            before.starts_from(shoe) && before.round_played(shoe, *self, fresh);
                        assert(results_of(all@, seats, r) =~= fresh);
                        assert(fresh == round_results(shoe, seats));
                    }
                }
            }
            proof {
                assert forall|r: int, j: int| 0 <= r < round + 1 && 0 <= j < seats implies ({
                    let result = #[trigger] all@[r * seats + j];
                    result.player_index == j && result.consistent()
                }) by {
                    if r < round {
                        assert(r * seats + j < round * seats) by (nonlinear_arith)
                            requires
                                0 <= r < round,
                                0 <= j < seats,
                        ;
                        assert(all@[r * seats + j] == so_far[r * seats + j]);
                    } else {
                        assert(all@[round * seats + j] == fresh[j]);
                    }
                }
            }
            round += 1;
        }
        all
    }
}

} // verus!
