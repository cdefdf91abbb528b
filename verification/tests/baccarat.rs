use casino::cards::{Card, Suit};
use casino::error::Error;
use casino::games::baccarat::BacRank::{
    Ace, Eight, Five, Four, Jack, King, Nine, Queen, Seven, Six, Ten, Three, Two,
};
use casino::games::baccarat::{BacRank, BaccaratGame, CoupResult, Hand, Winner};
use casino::player::Player;

fn table() -> BaccaratGame {
    BaccaratGame::new(vec![Player::new("Player 1"), Player::new("Player 2")])
}

fn card(rank: BacRank) -> Card<BacRank> {
    Card::new(Suit::Hearts, rank)
}

/// A table whose shoe deals the given cards, the first of them first.
fn stacked(top_first: &[Card<BacRank>]) -> BaccaratGame {
    let mut game = table();
    game.shoe.shoe.cards = top_first.iter().rev().cloned().collect();
    game
}

fn ranks(hand: &Hand) -> Vec<BacRank> {
    hand.cards.iter().map(|c| c.rank).collect()
}

#[test]
fn test_hand_value() {
    let hand = Hand::new();
    assert_eq!(hand.value(), 0);
}

#[test]
fn test_hand_value_ace() {
    let mut hand = Hand::new();
    hand.cards.push(Card::new(Suit::Hearts, BacRank::Ace));
    assert_eq!(hand.value(), 1);
}

#[test]
fn test_hand_value_ace_pair() {
    let mut hand = Hand::new();
    hand.cards.push(Card::new(Suit::Hearts, BacRank::Ace));
    hand.cards.push(Card::new(Suit::Diamonds, BacRank::Ace));
    assert_eq!(hand.value(), 2);
}

#[test]
fn test_baccarat_game_play() {
    let player1 = Player::new("Player 1");
    let player2 = Player::new("Player 2");
    let mut game = BaccaratGame::new(vec![player1, player2]);
    let result = game.play();
    assert!(matches!(result.winner, Winner::Player | Winner::Banker | Winner::Tie));
}

#[test]
fn test_baccarat_game_play_n() {
    let player1 = Player::new("Player 1");
    let player2 = Player::new("Player 2");
    let mut game = BaccaratGame::new(vec![player1, player2]);
    game.play_n(50);
    assert_eq!(game.history.len(), 50);
    assert!(matches!(game.history[0].winner, Winner::Player | Winner::Banker | Winner::Tie));
    println!("{}", game.bead_plate_string(5, 50));
}

#[test]
fn king_and_ace_are_worth_one() {
    let mut hand = Hand::new();
    hand.cards.push(card(BacRank::King));
    hand.cards.push(card(BacRank::Ace));
    assert_eq!(hand.value(), 1);
}

#[test]
fn hand_values_are_last_digits() {
    let value = |ranks: &[BacRank]| Hand { cards: ranks.iter().map(|r| card(*r)).collect() }.value();
    assert_eq!(value(&[Nine, Nine]), 8);
    assert_eq!(value(&[Seven, Six]), 3);
    assert_eq!(value(&[Ten, Jack, Queen]), 0);
    assert_eq!(value(&[Five, Five]), 0);
    assert_eq!(value(&[Two, Ace, Six]), 9);
    assert_eq!(value(&[Nine; 40]), 0);
    assert_eq!(value(&[Nine; 41]), 9);
}

#[test]
fn banker_on_four_draws_to_a_seven() {
    assert!(BaccaratGame::banker_draws(4, Some(7)));
}

#[test]
fn banker_on_seven_never_draws() {
    assert!(!BaccaratGame::banker_draws(7, None));
    for v in 0..=9 {
        assert!(!BaccaratGame::banker_draws(7, Some(v)));
    }
}

#[test]
fn the_banker_follows_the_third_card_table() {
    for banker in 0..=7u8 {
        assert_eq!(BaccaratGame::banker_draws(banker, None), banker <= 5);
        for v in 0..=9u8 {
            let expected = match banker {
                0..=2 => true,
                3 => v != 8,
                4 => (2..=7).contains(&v),
                5 => (4..=7).contains(&v),
                6 => v == 6 || v == 7,
                _ => false,
            };
            assert_eq!(BaccaratGame::banker_draws(banker, Some(v)), expected, "{} {}", banker, v);
        }
    }
}

#[test]
fn the_first_coup_from_a_fresh_shoe() {
    let mut game = table();
    assert_eq!(game.shoe.len(), 312);
    let result = game.play_unshuffled();
    assert_eq!(result, CoupResult { winner: Winner::Banker, player_pair: false, banker_pair: false });
    assert_eq!(ranks(&game.player_hand), vec![Ace, Queen, Ten]);
    assert_eq!(ranks(&game.banker_hand), vec![King, Jack, Nine]);
    assert_eq!(game.player_hand.value(), 1);
    assert_eq!(game.banker_hand.value(), 9);
    assert_eq!(game.shoe.len(), 306);
    assert_eq!(game.history(), &vec![result]);
    assert_eq!(game.players.len(), 2);
    assert_eq!(game.players[0].get_player_name(), "Player 1");
    assert!(game.players[1].player_bet.is_empty());
}

#[test]
fn a_natural_ends_the_coup() {
    let mut game = stacked(&[card(Four), card(Two), card(Five), card(Three), card(Ace), card(King)]);
    let result = game.play_unshuffled();
    assert_eq!(result, CoupResult { winner: Winner::Player, player_pair: false, banker_pair: false });
    assert_eq!(ranks(&game.player_hand), vec![Four, Five]);
    assert_eq!(ranks(&game.banker_hand), vec![Two, Three]);
    assert_eq!(game.shoe.len(), 2);

    // a banker's natural stops the player as well
    let mut game = stacked(&[card(Two), card(Four), card(Three), card(Four), card(Ace), card(King)]);
    let result = game.play_unshuffled();
    assert_eq!(result.winner, Winner::Banker);
    assert!(!result.player_pair);
    assert!(result.banker_pair);
    assert_eq!(game.player_hand.cards.len(), 2);
    assert_eq!(game.shoe.len(), 2);
}

#[test]
fn pairs_go_by_the_first_two_cards() {
    let eight_h = Card::new(Suit::Hearts, Eight);
    let eight_d = Card::new(Suit::Diamonds, Eight);
    let mut game = stacked(&[eight_h, card(Three), eight_d, card(Three), card(Nine), card(Nine)]);
    let result = game.play_unshuffled();
    assert_eq!(result, CoupResult { winner: Winner::Tie, player_pair: true, banker_pair: true });
    assert_eq!(game.shoe.len(), 2);

    // the player's third card does not undo the pair, nor make one
    let mut game = stacked(&[card(Two), card(King), card(Two), card(Five), card(Two), card(Nine)]);
    let result = game.play_unshuffled();
    assert_eq!(ranks(&game.player_hand), vec![Two, Two, Two]);
    assert_eq!(ranks(&game.banker_hand), vec![King, Five]);
    assert_eq!(result, CoupResult { winner: Winner::Player, player_pair: true, banker_pair: false });
    assert_eq!(game.shoe.len(), 1);

    let mut game = stacked(&[card(Two), card(King), card(Three), card(Five), card(Three), card(Nine)]);
    let result = game.play_unshuffled();
    assert_eq!(ranks(&game.player_hand), vec![Two, Three, Three]);
    assert!(!result.player_pair);
    assert!(!result.banker_pair);
}

#[test]
fn the_banker_draws_after_a_standing_player() {
    // player stands on 6, banker on 5 draws
    let mut game = stacked(&[card(Six), card(Ace), card(King), card(Four), card(Three), card(Seven)]);
    let result = game.play_unshuffled();
    assert_eq!(ranks(&game.player_hand), vec![Six, King]);
    assert_eq!(ranks(&game.banker_hand), vec![Ace, Four, Three]);
    assert_eq!(result.winner, Winner::Banker);
    assert_eq!(game.shoe.len(), 1);
    // player stands on 7, banker stands on 6
    let mut game = stacked(&[card(Seven), card(Six), card(King), card(King), card(Three), card(Seven)]);
    let result = game.play_unshuffled();
    assert_eq!(game.banker_hand.cards.len(), 2);
    assert_eq!(result.winner, Winner::Player);
    assert_eq!(game.shoe.len(), 2);
}

#[test]
fn a_coup_is_refused_on_fewer_than_six_cards() {
    let mut game = stacked(&[card(Four), card(Two), card(Five), card(Three), card(Ace)]);
    game.history.push(CoupResult { winner: Winner::Tie, player_pair: false, banker_pair: false });
    assert_eq!(game.try_play(), Err(Error::Empty));
    assert_eq!(game.shoe.len(), 5);
    assert_eq!(game.history.len(), 1);

    let mut game = table();
    let mut coups = 0;
    while let Ok(result) = game.try_play() {
        coups += 1;
        assert_eq!(game.history.len(), coups);
        assert_eq!(*game.history.last().unwrap(), result);
        let dealt = game.player_hand.cards.len() + game.banker_hand.cards.len();
        assert!((4..=6).contains(&dealt));
        let (p, b) = (game.player_hand.value(), game.banker_hand.value());
        let winner = if p > b { Winner::Player } else if p < b { Winner::Banker } else { Winner::Tie };
        assert_eq!(result.winner, winner);
        assert_eq!(result.player_pair, game.player_hand.cards[0].rank == game.player_hand.cards[1].rank);
        assert_eq!(result.banker_pair, game.banker_hand.cards[0].rank == game.banker_hand.cards[1].rank);
    }
    assert!(coups >= 52 && coups <= 77, "{}", coups);
    assert!(game.shoe.len() < 6);
}

#[test]
fn a_shuffled_coup_takes_its_cards_from_the_shoe() {
    let mut game = table();
    let mut before: Vec<String> = game.shoe.shoe.cards.iter().map(|c| c.display()).collect();
    game.play();
    let mut after: Vec<String> = game.shoe.shoe.cards.iter().map(|c| c.display()).collect();
    after.extend(game.player_hand.cards.iter().map(|c| c.display()));
    after.extend(game.banker_hand.cards.iter().map(|c| c.display()));
    before.sort();
    after.sort();
    assert_eq!(before, after);
}

fn outcome(winner: Winner) -> CoupResult {
    CoupResult { winner, player_pair: false, banker_pair: false }
}

#[test]
fn labels_are_single_letters() {
    assert_eq!(outcome(Winner::Player).label(), 'P');
    assert_eq!(outcome(Winner::Banker).label(), 'B');
    assert_eq!(outcome(Winner::Tie).label(), 'T');
}

#[test]
fn the_bead_plate_runs_down_the_columns() {
    let mut game = table();
    let (player, banker, tie) = (Winner::Player, Winner::Banker, Winner::Tie);
    for winner in [player, player, banker, tie, player, banker, banker] {
        game.history.push(outcome(winner));
    }
    let grid = game.bead_plate_grid(3, 5);
    assert_eq!(
        grid,
        vec![
            vec![Some(outcome(banker)), Some(outcome(banker))],
            vec![Some(outcome(tie)), Some(outcome(banker))],
            vec![Some(outcome(player)), None],
        ]
    );
    assert_eq!(game.bead_plate_string(3, 5), "B B\nT B\nP .");
    assert_eq!(game.bead_plate_string(3, 7), "P T B\nP P .\nB B .");
    assert_eq!(game.bead_plate_string(3, 100), "P T B\nP P .\nB B .");
    assert_eq!(game.bead_plate_string(7, 7), "P\nP\nB\nT\nP\nB\nB");
    assert_eq!(game.bead_plate_string(1, 4), "T P B B");
    assert_eq!(game.bead_plate_string(0, 4), "T P B B");
    assert_eq!(game.bead_plate_string(2, 3), "P B\nB .");
    assert_eq!(game.bead_plate_string(9, 2), "B\nB\n.\n.\n.\n.\n.\n.\n.");
    assert_eq!(game.bead_plate_string(2, 0), "\n");
    assert_eq!(game.bead_plate_string(1, 0), "");
    assert_eq!(game.bead_plate_grid(2, 0), vec![vec![], vec![]]);
    assert_eq!(table().bead_plate_string(3, 10), "\n\n");
}
