//! Baccarat: the coup, the third-card rules, and the bead plate.

use vstd::prelude::*;
use crate::bet::Bet;
use crate::cards::{shoe_of, BaccaratRank, Card, Rank, Shoe};
use crate::error::Error;
use crate::player::Player;

verus! {

/// The ranks of the baccarat shoe.
#[derive(Clone, Copy, Debug, PartialEq, Eq, Hash, Structural)]
pub enum BacRank {
    Two,
    Three,
    Four,
    Five,
    Six,
    Seven,
    Eight,
    Nine,
    Ten,
    Jack,
    Queen,
    King,
    Ace,
}

impl Rank for BacRank {
    open spec fn spec_all() -> Seq<Self> {
        seq![
            BacRank::Two,
            BacRank::Three,
            BacRank::Four,
            BacRank::Five,
            BacRank::Six,
            BacRank::Seven,
            BacRank::Eight,
            BacRank::Nine,
            BacRank::Ten,
            BacRank::Jack,
            BacRank::Queen,
            BacRank::King,
            BacRank::Ace,
        ]
    }

    open spec fn spec_display(&self) -> Seq<char> {
        match self {
            BacRank::Two => "2"@,
            BacRank::Three => "3"@,
            BacRank::Four => "4"@,
            BacRank::Five => "5"@,
            BacRank::Six => "6"@,
            BacRank::Seven => "7"@,
            BacRank::Eight => "8"@,
            BacRank::Nine => "9"@,
            BacRank::Ten => "10"@,
            BacRank::Jack => "J"@,
            BacRank::Queen => "Q"@,
            BacRank::King => "K"@,
            BacRank::Ace => "A"@,
        }
    }

    open spec fn spec_is_face(&self) -> bool {
        *self == BacRank::Jack || *self == BacRank::Queen || *self == BacRank::King
    }

    proof fn lemma_all_distinct() {
        let all = Self::spec_all();
        assert forall|i: int, j: int| 0 <= i < all.len() && 0 <= j < all.len() && i != j implies all[i]
            != all[j] by {
            assert(all.len() == 13);
        }
    }

    fn all() -> (ranks: &'static [Self]) {
        &[
            BacRank::Two,
            BacRank::Three,
            BacRank::Four,
            BacRank::Five,
            BacRank::Six,
            BacRank::Seven,
            BacRank::Eight,
            BacRank::Nine,
            BacRank::Ten,
            BacRank::Jack,
            BacRank::Queen,
            BacRank::King,
            BacRank::Ace,
        ]
    }

    fn display(&self) -> (label: &'static str) {
        match self {
            BacRank::Two => "2",
            BacRank::Three => "3",
            BacRank::Four => "4",
            BacRank::Five => "5",
            BacRank::Six => "6",
            BacRank::Seven => "7",
            BacRank::Eight => "8",
            BacRank::Nine => "9",
            BacRank::Ten => "10",
            BacRank::Jack => "J",
            BacRank::Queen => "Q",
            BacRank::King => "K",
            BacRank::Ace => "A",
        }
    }

    fn is_face(&self) -> (face: bool) {
        match self {
            BacRank::Jack | BacRank::Queen | BacRank::King => true,
            _ => false,
        }
    }
}

impl BaccaratRank for BacRank {
    open spec fn spec_baccarat_value(&self) -> u8 {
        match self {
            BacRank::Two => 2,
            BacRank::Three => 3,
            BacRank::Four => 4,
            BacRank::Five => 5,
            BacRank::Six => 6,
            BacRank::Seven => 7,
            BacRank::Eight => 8,
            BacRank::Nine => 9,
            BacRank::Ten | BacRank::Jack | BacRank::Queen | BacRank::King => 0,
            BacRank::Ace => 1,
        }
    }

    fn baccarat_value(&self) -> (points: u8) {
        match self {
            BacRank::Two => 2,
            BacRank::Three => 3,
            BacRank::Four => 4,
            BacRank::Five => 5,
            BacRank::Six => 6,
            BacRank::Seven => 7,
            BacRank::Eight => 8,
            BacRank::Nine => 9,
            BacRank::Ten | BacRank::Jack | BacRank::Queen | BacRank::King => 0,
            BacRank::Ace => 1,
        }
    }
}

/// What a player can bet on.
pub enum BaccaratBet {
    Player,
    Banker,
    Tie,
    PlayerPair,
    BankerPair,
}

/// Who won a coup.
#[derive(Clone, Copy, Debug, PartialEq, Eq, Structural)]
pub enum Winner {
    Player,
    Banker,
    Tie,
}

/// The outcome of one coup.
#[derive(Clone, Copy, Debug, PartialEq, Eq, Structural)]
pub struct CoupResult {
    pub winner: Winner,
    /// Whether the player's first two cards were of one rank.
    pub player_pair: bool,
    /// Whether the banker's first two cards were of one rank.
    pub banker_pair: bool,
}

impl CoupResult {
    /// The letter that stands for the winner on the bead plate.
    pub open spec fn spec_label(&self) -> char {
        match self.winner {
            Winner::Player => 'P',
            Winner::Banker => 'B',
            Winner::Tie => 'T',
        }
    }

    /// The letter that stands for the winner on the bead plate.
    pub fn label(&self) -> (letter: char)
        ensures
            letter == self.spec_label(),
    {
        match self.winner {
            Winner::Player => 'P',
            Winner::Banker => 'B',
            Winner::Tie => 'T',
        }
    }
}

/// The points of the cards, added up.
pub open spec fn points_sum(cards: Seq<Card<BacRank>>) -> nat
    decreases cards.len(),
{
    if cards.len() == 0 {
        0
    } else {
        points_sum(cards.drop_last()) + cards.last().rank.spec_baccarat_value() as nat
    }
}

/// The value of a hand: the last digit of its points.
pub open spec fn hand_value(cards: Seq<Card<BacRank>>) -> nat {
    points_sum(cards) % 10
}

/// A pair: the first two cards are of one rank. Later cards do not count.
pub open spec fn is_pair(cards: Seq<Card<BacRank>>) -> bool {
    cards.len() >= 2 && cards[0].rank == cards[1].rank
}

/// A natural: one of the two hands is worth 8 or 9 as dealt.
pub open spec fn is_natural(player_value: nat, banker_value: nat) -> bool {
    player_value == 8 || player_value == 9 || banker_value == 8 || banker_value == 9
}

/// Whether the player takes a third card: on 5 or less.
pub open spec fn player_draw_rule(player_value: nat) -> bool {
    player_value <= 5
}

/// Whether the banker takes a third card. Where the player stood, on 5 or less. Where
/// the player drew a card worth `v`: on 0 to 2 always, on 3 unless `v` is 8, on 4 if `v`
/// is from 2 to 7, on 5 if `v` is from 4 to 7, on 6 if `v` is 6 or 7, on 7 never.
pub open spec fn banker_draw_rule(banker_value: nat, player_third: Option<u8>) -> bool {
    match player_third {
        None => banker_value <= 5,
        Some(v) => {
            ||| banker_value <= 2
            ||| banker_value == 3 && v != 8
            ||| banker_value == 4 && 2 <= v <= 7
            ||| banker_value == 5 && 4 <= v <= 7
            ||| banker_value == 6 && (v == 6 || v == 7)
        },
    }
}

/// The winner: the hand of the higher value, or a tie.
pub open spec fn winner_of(player_value: nat, banker_value: nat) -> Winner {
    if player_value > banker_value {
        Winner::Player
    } else if player_value < banker_value {
        Winner::Banker
    } else {
        Winner::Tie
    }
}

/// The cards of a coup once it is played out.
pub struct Coup {
    pub player: Seq<Card<BacRank>>,
    pub banker: Seq<Card<BacRank>>,
    /// What is left of the shoe.
    pub rest: Seq<Card<BacRank>>,
}

impl Coup {
    /// The outcome that goes into the history.
    pub open spec fn result(self) -> CoupResult {
        CoupResult {
            winner: winner_of(hand_value(self.player), hand_value(self.banker)),
            player_pair: is_pair(self.player),
            banker_pair: is_pair(self.banker),
        }
    }
}

/// The coup that is dealt from `shoe`, cards leaving it from its end: two cards each to
/// player and banker in turn, the player first; then, unless there is a natural, the
/// third cards that the rules ask for, the player's before the banker's.
pub open spec fn deal_coup(shoe: Seq<Card<BacRank>>) -> Coup
    recommends
        shoe.len() >= 6,
{
    let n = shoe.len() as int;
    let player = seq![shoe[n - 1], shoe[n - 3]];
    let banker = seq![shoe[n - 2], shoe[n - 4]];
    if is_natural(hand_value(player), hand_value(banker)) {
        Coup { player, banker, rest: shoe.take(n - 4) }
    } else if player_draw_rule(hand_value(player)) {
        let third = shoe[n - 5];
        if banker_draw_rule(hand_value(banker), Some(third.rank.spec_baccarat_value())) {
            Coup {
                player: player.push(third),
                banker: banker.push(shoe[n - 6]),
                rest: shoe.take(n - 6),
            }
        } else {
            Coup { player: player.push(third), banker, rest: shoe.take(n - 5) }
        }
    } else if banker_draw_rule(hand_value(banker), None) {
        Coup { player, banker: banker.push(shoe[n - 5]), rest: shoe.take(n - 5) }
    } else {
        Coup { player, banker, rest: shoe.take(n - 4) }
    }
}

/// On 7 the banker never draws, whatever the player drew.
pub proof fn lemma_banker_stands_on_seven(player_third: Option<u8>)
    ensures
        !banker_draw_rule(7, player_third),
{
}

/// A third card does not change whether a hand is a pair.
pub proof fn lemma_pair_ignores_third_card(cards: Seq<Card<BacRank>>, third: Card<BacRank>)
    requires
        cards.len() >= 2,
    ensures
        is_pair(cards.push(third)) == is_pair(cards),
        is_pair(cards) == (cards[0].rank == cards[1].rank),
{
}

/// A coup takes four to six cards from the shoe; the hands hold two or three cards
/// each, and the pair flags are those of the first two cards of each hand.
pub proof fn lemma_coup_shape(shoe: Seq<Card<BacRank>>)
    requires
        shoe.len() >= 6,
    ensures
        ({
            let coup = deal_coup(shoe);
            let n = shoe.len() as int;
            &&& 2 <= coup.player.len() <= 3
            &&& 2 <= coup.banker.len() <= 3
            &&& coup.rest.len() + coup.player.len() + coup.banker.len() == n
            &&& coup.rest == shoe.take(coup.rest.len() as int)
            &&& coup.result().player_pair == (shoe[n - 1].rank == shoe[n - 3].rank)
            &&& coup.result().banker_pair == (shoe[n - 2].rank == shoe[n - 4].rank)
            &&& hand_value(coup.player) < 10
            &&& hand_value(coup.banker) < 10
        }),
{
}

/// Number of rows of a bead plate asked for with `rows` rows: at least one.
pub open spec fn plate_rows(rows: usize) -> int {
    if rows == 0 {
        1
    } else {
        rows as int
    }
}

/// Number of entries on a bead plate of the last `n` out of `recorded` outcomes.
pub open spec fn plate_entries(recorded: int, n: usize) -> int {
    if n <= recorded {
        n as int
    } else {
        recorded
    }
}

/// Number of columns that `entries` entries fill at `rows` to a column.
pub open spec fn plate_cols(entries: int, rows: int) -> int {
    if entries % rows == 0 {
        entries / rows
    } else {
        entries / rows + 1
    }
}

/// The bead plate of the last `n` outcomes of `history` on `rows` rows: the outcomes
/// run down the first column, then down the second, and so on; the cells that are
/// left over in the last column are empty.
pub open spec fn bead_plate(history: Seq<CoupResult>, rows: usize, n: usize) -> Seq<
    Seq<Option<CoupResult>>,
> {
    let height = plate_rows(rows);
    let entries = plate_entries(history.len() as int, n);
    let first = history.len() - entries;
    Seq::new(
        height as nat,
        |row: int|
            Seq::new(
                plate_cols(entries, height) as nat,
                |col: int|
                    if col * height + row < entries {
                        Some(history[first + col * height + row])
                    } else {
                        None
                    },
            ),
    )
}

/// The cells of a grid, row by row.
pub open spec fn plate_of(grid: Seq<Vec<Option<CoupResult>>>) -> Seq<Seq<Option<CoupResult>>> {
    Seq::new(grid.len(), |row: int| grid[row]@)
}

/// The character of a cell: the winner's letter, or a dot for an empty cell.
pub open spec fn cell_char(cell: Option<CoupResult>) -> char {
    match cell {
        Some(result) => result.spec_label(),
        None => '.',
    }
}

/// A row of the plate as text: the characters of its cells, with a space between
/// neighbours.
pub open spec fn row_text(row: Seq<Option<CoupResult>>) -> Seq<char>
    decreases row.len(),
{
    if row.len() == 0 {
        Seq::empty()
    } else if row.len() == 1 {
        seq![cell_char(row[0])]
    } else {
        row_text(row.drop_last()).push(' ').push(cell_char(row.last()))
    }
}

/// A plate as text: its rows, with a line break between neighbours.
pub open spec fn plate_text(plate: Seq<Seq<Option<CoupResult>>>) -> Seq<char>
    decreases plate.len(),
{
    if plate.len() == 0 {
        Seq::empty()
    } else if plate.len() == 1 {
        row_text(plate[0])
    } else {
        plate_text(plate.drop_last()).push('\n') + row_text(plate.last())
    }
}

/// The outcomes fit the plate: the columns before the last are full, and the last
/// column holds at least one outcome.
pub proof fn lemma_plate_cols(entries: int, rows: int)
    requires
        0 <= entries,
        0 < rows,
    ensures
        0 <= plate_cols(entries, rows),
        (plate_cols(entries, rows) - 1) * rows < entries || entries == 0,
        entries <= plate_cols(entries, rows) * rows,
        entries == 0 ==> plate_cols(entries, rows) == 0,
{
    vstd::arithmetic::div_mod::lemma_fundamental_div_mod(entries, rows);
    vstd::arithmetic::div_mod::lemma_mod_bound(entries, rows);
    vstd::arithmetic::div_mod::lemma_div_pos_is_pos(entries, rows);
    let q = entries / rows;
    assert((q + 1) * rows == q * rows + rows) by (nonlinear_arith);
    assert((q - 1) * rows == q * rows - rows) by (nonlinear_arith);
    assert(rows * q == q * rows) by (nonlinear_arith);
    if entries == 0 {
        vstd::arithmetic::div_mod::lemma_small_mod(0, rows as nat);
        vstd::arithmetic::div_mod::lemma_basic_div(0, rows);
    }
}

/// A baccarat hand.
pub struct Hand {
    pub cards: Vec<Card<BacRank>>,
}

impl Hand {
    /// An empty hand.
    pub fn new() -> (hand: Self)
        ensures
            hand.cards@ == Seq::<Card<BacRank>>::empty(),
    {
        Self { cards: Vec::new() }
    }

    /// The value of the hand: the last digit of the sum of its cards' points.
    pub fn value(&self) -> (value: u8)
        ensures
            value == hand_value(self.cards@),
    {
        let mut total: u8 = 0;
        let mut i: usize = 0;
        while i < self.cards.len()
            invariant
                i <= self.cards@.len(),
                total < 10,
                total == points_sum(self.cards@.take(i as int)) % 10,
            decreases self.cards@.len() - i,
        {
            let points = self.cards[i].rank.baccarat_value();
            proof {
                assert(self.cards@.take(i + 1).drop_last() =~= self.cards@.take(i as int));
            }
            total = (total + points) % 10;
            i += 1;
        }
        proof {
            assert(self.cards@.take(i as int) =~= self.cards@);
        }
        total
    }
}

/// A seat at the table: a player and what they have bet.
pub struct PlayerSeat {
    pub player: Player,
    /// The bets placed, at most one for each thing to bet on.
    pub player_bet: Vec<(BaccaratBet, Bet)>,
}

impl PlayerSeat {
    /// Whether the seat holds at most one bet for each thing to bet on.
    pub open spec fn one_bet_each(&self) -> bool {
        forall|i: int, j: int|
            0 <= i < j < self.player_bet@.len() ==> self.player_bet@[i].0 != self.player_bet@[j].0
    }

    /// Seats a player, with no bets placed.
    pub fn new(player: Player) -> (seat: Self)
        ensures
            seat.player == player,
            seat.player_bet@.len() == 0,
            seat.one_bet_each(),
    {
        Self { player, player_bet: Vec::new() }
    }

    pub fn get_player_name(&self) -> (name: &str)
        ensures
            name@ == self.player.name@,
    {
        self.player.name.as_str()
    }
}

/// Whether `shuffled` holds the cards of `cards`, each as often, in some order.
pub open spec fn is_shuffle_of(shuffled: Seq<Card<BacRank>>, cards: Seq<Card<BacRank>>) -> bool {
    shuffled.to_multiset() == cards.to_multiset()
}

/// A baccarat table.
pub struct BaccaratGame {
    pub players: Vec<PlayerSeat>,
    pub shoe: Shoe<BacRank>,
    pub player_hand: Hand,
    pub banker_hand: Hand,
    /// The outcomes of the coups played, oldest first.
    pub history: Vec<CoupResult>,
}

impl BaccaratGame {
    /// Whether `after` is the table `self` once the coup dealt from `shoe` is played:
    /// the hands lie as dealt, the shoe holds the rest, and `result`, the coup's
    /// outcome, is the newest entry of the history.
    pub open spec fn played(self, shoe: Seq<Card<BacRank>>, after: Self, result: CoupResult) -> bool {
        let coup = deal_coup(shoe);
        &&& after.player_hand.cards@ == coup.player
        &&& after.banker_hand.cards@ == coup.banker
        &&& after.shoe.shoe@ == coup.rest
        &&& result == coup.result()
        &&& after.history@ == self.history@.push(result)
        &&& after.players == self.players
    }

    /// Whether `after` is this table once `rounds` coups are played, each from the shoe
    /// that the coup before it left, newly shuffled.
    pub open spec fn coups_played(self, rounds: nat, after: Self) -> bool
        decreases rounds,
    {
        if rounds == 0 {
            after == self
        } else {
            exists|before_last: Self, shuffled: Seq<Card<BacRank>>|
                {
                    &&& self.coups_played((rounds - 1) as nat, before_last)
                    &&& before_last.shoe.shoe@.len() >= 6
                    &&& is_shuffle_of(shuffled, before_last.shoe.shoe@)
                    &&& #[trigger] before_last.played(shuffled, after, after.history@.last())
                }
        }
    }

    /// Whether the newest entry of the history is the outcome of the hands as they lie.
    pub open spec fn shows_last_coup(self) -> bool {
        &&& self.history@.len() > 0
        &&& 2 <= self.player_hand.cards@.len() <= 3
        &&& 2 <= self.banker_hand.cards@.len() <= 3
        &&& self.history@.last() == (Coup {
            player: self.player_hand.cards@,
            banker: self.banker_hand.cards@,
            rest: self.shoe.shoe@,
        }).result()
    }

    /// A table for the given players, with a fresh shoe of six decks and no history.
    pub fn new(players: Vec<Player>) -> (game: Self)
        ensures
            game.players@.len() == players@.len(),
            forall|i: int|
                0 <= i < players@.len() ==> (#[trigger] game.players@[i]).player == players@[i]
                    && game.players@[i].player_bet@.len() == 0,
            game.shoe.shoe@ == shoe_of::<BacRank>(6),
            game.player_hand.cards@.len() == 0,
            game.banker_hand.cards@.len() == 0,
            game.history@.len() == 0,
    {
        let mut seats: Vec<PlayerSeat> = Vec::new();
        let mut rest = players;
        let ghost all = rest@;
        while rest.len() > 0
            invariant
                seats@.len() + rest@.len() == all.len(),
                rest@ == all.skip(seats@.len() as int),
                forall|i: int|
                    0 <= i < seats@.len() ==> (#[trigger] seats@[i]).player == all[i]
                        && seats@[i].player_bet@.len() == 0,
            decreases rest@.len(),
        {
            let player = rest.remove(0);
            seats.push(PlayerSeat::new(player));
            assert(rest@ =~= all.skip(seats@.len() as int));
        }
        BaccaratGame {
            players: seats,
            shoe: Shoe::<BacRank>::new(6),
            player_hand: Hand::new(),
            banker_hand: Hand::new(),
            history: Vec::new(),
        }
    }

    /// Whether the banker takes a third card, on a hand worth `banker_value`, after the
    /// player stood (`None`) or drew a card worth the given points.
    pub fn banker_draws(banker_value: u8, player_third: Option<u8>) -> (draws: bool)
        ensures
            draws == banker_draw_rule(banker_value as nat, player_third),
    {
        match player_third {
            None => banker_value <= 5,
            Some(v) => match banker_value {
                0 | 1 | 2 => true,
                3 => v != 8,
                4 => 2 <= v && v <= 7,
                5 => 4 <= v && v <= 7,
                6 => v == 6 || v == 7,
                _ => false,
            },
        }
    }

    /// Plays one coup from the shoe as it lies, records the outcome and returns it.
    /// The shoe has to hold six cards, as many as a coup may take.
    pub fn play_unshuffled(&mut self) -> (result: CoupResult)
        requires
            old(self).shoe.shoe@.len() >= 6,
        ensures
            old(self).played(old(self).shoe.shoe@, *final(self), result),
    {
        let ghost shoe = self.shoe.shoe@;
        self.player_hand.cards.clear();
        self.banker_hand.cards.clear();

        let mut dealt: usize = 0;
        while dealt < 2
            invariant
                dealt <= 2,
                shoe.len() >= 6,
                self.shoe.shoe@ == shoe.take(shoe.len() - 2 * dealt),
                self.player_hand.cards@ == Seq::new(dealt as nat, |i: int| shoe[shoe.len() - 1 - 2 * i]),
                self.banker_hand.cards@ == Seq::new(dealt as nat, |i: int| shoe[shoe.len() - 2 - 2 * i]),
                self.history == old(self).history,
                self.players == old(self).players,
            decreases 2 - dealt,
        {
            let card = self.shoe.deal().unwrap();
            self.player_hand.cards.push(card);
            let card = self.shoe.deal().unwrap();
            self.banker_hand.cards.push(card);
            dealt += 1;
            assert(self.shoe.shoe@ =~= shoe.take(shoe.len() - 2 * dealt));
            assert(self.player_hand.cards@ =~= Seq::new(
                dealt as nat,
                |i: int| shoe[shoe.len() - 1 - 2 * i],
            ));
            assert(self.banker_hand.cards@ =~= Seq::new(
                dealt as nat,
                |i: int| shoe[shoe.len() - 2 - 2 * i],
            ));
        }
        let ghost n = shoe.len() as int;
        assert(self.player_hand.cards@ =~= seq![shoe[n - 1], shoe[n - 3]]);
        assert(self.banker_hand.cards@ =~= seq![shoe[n - 2], shoe[n - 4]]);

        let player_pair = self.player_hand.cards[0].rank == self.player_hand.cards[1].rank;
        let banker_pair = self.banker_hand.cards[0].rank == self.banker_hand.cards[1].rank;

        let player_value = self.player_hand.value();
        let banker_value = self.banker_hand.value();

        if !(player_value == 8 || player_value == 9 || banker_value == 8 || banker_value == 9) {
            let mut player_third: Option<u8> = None;
            if player_value <= 5 {
                let card = self.shoe.deal().unwrap();
                player_third = Some(card.rank.baccarat_value());
                self.player_hand.cards.push(card);
            }
            if Self::banker_draws(banker_value, player_third) {
                let card = self.shoe.deal().unwrap();
                self.banker_hand.cards.push(card);
            }
        }
        proof {
            let coup = deal_coup(shoe);
            assert(self.shoe.shoe@ =~= coup.rest);
            assert(self.player_hand.cards@ =~= coup.player);
            assert(self.banker_hand.cards@ =~= coup.banker);
        }

        let final_player = self.player_hand.value();
        let final_banker = self.banker_hand.value();
        let winner = if final_player > final_banker {
            Winner::Player
        } else if final_player < final_banker {
            Winner::Banker
        } else {
            Winner::Tie
        };
        let result = CoupResult { winner, player_pair, banker_pair };
        self.history.push(result);
        result
    }

    /// Shuffles the shoe, plays one coup, records the outcome and returns it. The shoe
    /// has to hold six cards, as many as a coup may take: nothing refills it.
    pub fn play(&mut self) -> (result: CoupResult)
        requires
            old(self).shoe.shoe@.len() >= 6,
        ensures
            exists|shuffled: Seq<Card<BacRank>>| #[trigger]
                is_shuffle_of(shuffled, old(self).shoe.shoe@) && old(self).played(
                    shuffled,
                    *final(self),
                    result,
                ),
    {
        self.shoe.shuffle();
        let ghost shuffled = self.shoe.shoe@;
        let result = self.play_unshuffled();
        assert(is_shuffle_of(shuffled, old(self).shoe.shoe@));
        result
    }

    /// Plays one coup as `play` does, where the shoe holds the six cards that a coup
    /// may take; refuses and changes nothing where it holds fewer.
    pub fn try_play(&mut self) -> (played: Result<CoupResult, Error>)
        ensures
            match played {
                Ok(result) => old(self).shoe.shoe@.len() >= 6 && exists|
                    shuffled: Seq<Card<BacRank>>,
                | #[trigger]
                    is_shuffle_of(shuffled, old(self).shoe.shoe@) && old(self).played(
                        shuffled,
                        *final(self),
                        result,
                    ),
                Err(error) => old(self).shoe.shoe@.len() < 6 && error == Error::Empty
                    && *final(self) == *old(self),
            },
    {
        if self.shoe.len() < 6 {
            return Err(Error::Empty);
        }
        Ok(self.play())
    }

    /// Plays `rounds` coups, each from the newly shuffled shoe, and records them. The
    /// shoe has to hold six cards for each of them.
    pub fn play_n(&mut self, rounds: usize)
        requires
            old(self).shoe.shoe@.len() >= 6 * rounds,
        ensures
            final(self).history@.len() == old(self).history@.len() + rounds,
            final(self).history@.take(old(self).history@.len() as int) == old(self).history@,
            final(self).players == old(self).players,
            old(self).shoe.shoe@.len() - 6 * rounds <= final(self).shoe.shoe@.len()
                <= old(self).shoe.shoe@.len() - 4 * rounds,
            rounds > 0 ==> final(self).shows_last_coup(),
            old(self).coups_played(rounds as nat, *final(self)),
    {
        let mut round: usize = 0;
        while round < rounds
            invariant
                round <= rounds,
                self.history@.len() == old(self).history@.len() + round,
                self.history@.take(old(self).history@.len() as int) == old(self).history@,
                self.players == old(self).players,
                old(self).shoe.shoe@.len() - 6 * round <= self.shoe.shoe@.len()
                    <= old(self).shoe.shoe@.len() - 4 * round,
                old(self).shoe.shoe@.len() >= 6 * rounds,
                round > 0 ==> self.shows_last_coup(),
                old(self).coups_played(round as nat, *self),
            decreases rounds - round,
        {
            let ghost before = *self;
            let _ = self.play();
            proof {
                let shuffled = choose|shuffled: Seq<Card<BacRank>>| #[trigger]
                    is_shuffle_of(shuffled, before.shoe.shoe@) && before.played(
                        shuffled,
                        *self,
                        self.history@.last(),
                    );
                shuffled.to_multiset_ensures();
                before.shoe.shoe@.to_multiset_ensures();
                lemma_coup_shape(shuffled);
                assert(before.played(shuffled, *self, self.history@.last()));
                assert(old(self).coups_played((round + 1) as nat, *self));
                assert(self.history@.take(old(self).history@.len() as int)
                    =~= before.history@.take(old(self).history@.len() as int));
            }
            round += 1;
        }
    }

    /// The bead plate of the last `n` outcomes on `rows` rows (one row where `rows` is
    /// zero): the outcomes run down the columns, the columns from left to right.
    pub fn bead_plate_grid(&self, rows: usize, n: usize) -> (grid: Vec<Vec<Option<CoupResult>>>)
        ensures
            plate_of(grid@) == bead_plate(self.history@, rows, n),
    {
        let height = if rows == 0 {
            1
        } else {
            rows
        };
        let recorded = self.history.len();
        let entries = if n <= recorded {
            n
        } else {
            recorded
        };
        let first = recorded - entries;
        proof {
            lemma_plate_cols(entries as int, height as int);
            if entries % height != 0 {
                assert(entries > 0 && height > 1) by {
                    vstd::arithmetic::div_mod::lemma_small_mod(0, height as nat);
                    assert(entries as int % 1 == 0);
                }
                vstd::arithmetic::div_mod::lemma_div_is_strictly_smaller(
                    entries as int,
                    height as int,
                );
            }
        }
        let cols = if entries % height == 0 {
            entries / height
        } else {
            entries / height + 1
        };
        let ghost plate = bead_plate(self.history@, rows, n);
        let mut grid: Vec<Vec<Option<CoupResult>>> = Vec::new();
        let mut row: usize = 0;
        while row < height
            invariant
                row <= height,
                height == plate_rows(rows),
                entries == plate_entries(self.history@.len() as int, n),
                first == self.history@.len() - entries,
                cols == plate_cols(entries as int, height as int),
                (cols - 1) * height < entries || entries == 0,
                entries == 0 ==> cols == 0,
                plate == bead_plate(self.history@, rows, n),
                self.history@.len() <= usize::MAX,
                plate_of(grid@) == plate.take(row as int),
            decreases height - row,
        {
            let mut cells: Vec<Option<CoupResult>> = Vec::new();
            let mut col: usize = 0;
            while col < cols
                invariant
                    col <= cols,
                    row < height,
                    height == plate_rows(rows),
                    entries == plate_entries(self.history@.len() as int, n),
                    first == self.history@.len() - entries,
                    cols == plate_cols(entries as int, height as int),
                    (cols - 1) * height < entries || entries == 0,
                    entries == 0 ==> cols == 0,
                    plate == bead_plate(self.history@, rows, n),
                    self.history@.len() <= usize::MAX,
                    cells@ == plate[row as int].take(col as int),
                decreases cols - col,
            {
                proof {
                    assert(col * height <= (cols - 1) * height) by (nonlinear_arith)
                        requires
                            col <= cols - 1,
                            height > 0,
                    ;
                    assert(col * height < entries);
                }
                let base = col * height;
                let cell = if row < entries - base {
                    Some(self.history[first + base + row])
                } else {
                    None
                };
                cells.push(cell);
                assert(cells@ =~= plate[row as int].take(col + 1));
                col += 1;
            }
            assert(cells@ =~= plate[row as int]);
            let ghost above = grid@;
            grid.push(cells);
            assert(plate_of(grid@) =~= plate.take(row + 1)) by {
                assert(plate.len() == height);
                assert(plate_of(above).len() == row);
                assert forall|i: int| 0 <= i < row implies plate_of(grid@)[i] == plate[i] by {
                    assert(plate_of(above)[i] == plate.take(row as int)[i]);
                }
            }
            row += 1;
        }
        assert(plate.take(row as int) =~= plate);
        grid
    }

    /// The bead plate as text: `P`, `B` or `T` for each outcome, a dot for an empty
    /// cell, a space between the cells of a row and a line break between the rows.
    pub fn bead_plate_string(&self, rows: usize, n: usize) -> (text: String)
        ensures
            text@ == plate_text(bead_plate(self.history@, rows, n)),
    {
        let grid = self.bead_plate_grid(rows, n);
        let ghost plate = plate_of(grid@);
        let mut out = String::new();
        let mut row: usize = 0;
        while row < grid.len()
            invariant
                row <= grid@.len(),
                plate == plate_of(grid@),
                out@ == plate_text(plate.take(row as int)),
            decreases grid@.len() - row,
        {
            if row > 0 {
                out.push('\n');
            }
            let ghost start = out@;
            let ghost cells = plate[row as int];
            let mut col: usize = 0;
            while col < grid[row].len()
                invariant
                    row < grid@.len(),
                    cells == grid@[row as int]@,
                    col <= cells.len(),
                    out@ == start + row_text(cells.take(col as int)),
                decreases cells.len() - col,
            {
                if col > 0 {
                    out.push(' ');
                }
                let ch = match grid[row][col] {
                    Some(result) => result.label(),
                    None => '.',
                };
                out.push(ch);
                proof {
                    let shown = cells.take(col + 1);
                    assert(shown.drop_last() =~= cells.take(col as int));
                    assert(shown.last() == cells[col as int]);
                    assert(out@ =~= start + row_text(shown));
                }
                col += 1;
            }
            proof {
                assert(cells.take(col as int) =~= cells);
                let shown = plate.take(row + 1);
                assert(shown.drop_last() =~= plate.take(row as int));
                assert(shown.last() == cells);
                if row > 0 {
                    assert(out@ =~= plate_text(plate.take(row as int)).push('\n') + row_text(cells));
                } else {
                    assert(out@ =~= row_text(cells));
                }
            }
            row += 1;
        }
        proof {
            assert(plate.take(row as int) =~= plate);
        }
        out
    }

    /// The outcomes of the coups played, oldest first.
    pub fn history(&self) -> (history: &Vec<CoupResult>)
        ensures
            history@ == self.history@,
    {
        &self.history
    }
}

} // verus!
