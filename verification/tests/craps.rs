use casino::games::craps::{CrapsGame, CrapsType, GameState};
use casino::player::Player;

fn table(game_type: CrapsType, players: usize) -> CrapsGame {
    let players = (0..players).map(|i| Player::new(&format!("player {}", i))).collect();
    CrapsGame::new(game_type, players)
}

#[test]
fn come_out_seven_is_a_natural_win() {
    let mut game = table(CrapsType::StandardCraps, 2);
    assert_eq!(game.game_state, GameState::ComeOut);
    game.standard_craps_come_out(7);
    assert_eq!(game.game_state, GameState::NaturalWin);
    let mut game = table(CrapsType::StandardCraps, 2);
    game.standard_craps_come_out(11);
    assert_eq!(game.game_state, GameState::NaturalWin);
}

#[test]
fn come_out_four_sets_the_point() {
    let mut game = table(CrapsType::StandardCraps, 2);
    game.standard_craps_come_out(4);
    assert_eq!(game.game_state, GameState::PointSet(4));
    for total in [4u8, 5, 6, 8, 9, 10] {
        let mut game = table(CrapsType::EasyCraps, 1);
        game.resolve_come_out(total);
        assert_eq!(game.game_state, GameState::PointSet(total));
    }
}

#[test]
fn crapless_three_sets_the_point() {
    let mut game = table(CrapsType::CraplessCraps, 2);
    game.crapless_craps_come_out(3);
    assert_eq!(game.game_state, GameState::PointSet(3));
    for total in [2u8, 3, 4, 5, 6, 8, 9, 10, 12] {
        let mut game = table(CrapsType::CraplessCraps, 1);
        game.resolve_come_out(total);
        assert_eq!(game.game_state, GameState::PointSet(total));
    }
    let mut game = table(CrapsType::CraplessCraps, 1);
    game.resolve_come_out(7);
    assert_eq!(game.game_state, GameState::NaturalWin);
    let mut game = table(CrapsType::CraplessCraps, 1);
    game.crapless_craps_come_out(11);
    assert_eq!(game.game_state, GameState::NaturalWin);
}

#[test]
fn standard_two_three_twelve_are_craps() {
    for total in [2u8, 3, 12] {
        let mut game = table(CrapsType::StandardCraps, 1);
        game.resolve_come_out(total);
        assert_eq!(game.game_state, GameState::Craps);
    }
}

#[test]
fn totals_that_two_dice_cannot_show_change_nothing() {
    for total in [0u8, 1, 13, 200] {
        let mut game = table(CrapsType::StandardCraps, 1);
        game.standard_craps_come_out(total);
        assert_eq!(game.game_state, GameState::ComeOut);
        game.crapless_craps_come_out(total);
        assert_eq!(game.game_state, GameState::ComeOut);
    }
}

#[test]
fn the_point_wins_and_seven_loses() {
    let mut game = table(CrapsType::StandardCraps, 1);
    game.standard_craps_come_out(6);
    game.point_roll(5);
    assert_eq!(game.game_state, GameState::PointSet(6));
    game.point_roll(11);
    assert_eq!(game.game_state, GameState::PointSet(6));
    game.point_roll(6);
    assert_eq!(game.game_state, GameState::PointWin);
    game.point_roll(7);
    assert_eq!(game.game_state, GameState::PointWin);

    let mut game = table(CrapsType::StandardCraps, 1);
    game.standard_craps_come_out(8);
    game.point_roll(7);
    assert_eq!(game.game_state, GameState::Lose);

    let mut game = table(CrapsType::StandardCraps, 1);
    game.point_roll(7);
    assert_eq!(game.game_state, GameState::ComeOut);
}

#[test]
fn hard_ways_are_doubles_of_four_six_eight_ten() {
    let game = table(CrapsType::StandardCraps, 1);
    assert!(game.is_hardway(2, 2, 4));
    assert!(game.is_hardway(3, 3, 6));
    assert!(game.is_hardway(4, 4, 8));
    assert!(game.is_hardway(5, 5, 10));
    assert!(!game.is_hardway(1, 1, 2));
    assert!(!game.is_hardway(6, 6, 12));
    assert!(!game.is_hardway(1, 3, 4));
    assert!(!game.is_hardway(2, 4, 6));
    assert!(!game.is_hardway(3, 5, 8));
}

#[test]
fn the_shooter_goes_round_the_table() {
    let mut game = table(CrapsType::StandardCraps, 3);
    assert_eq!(game.shooter, 0);
    game.advance_shooter();
    assert_eq!(game.shooter, 1);
    game.advance_shooter();
    assert_eq!(game.shooter, 2);
    game.advance_shooter();
    assert_eq!(game.shooter, 0);

    game.standard_craps_come_out(7);
    game.reset_game();
    assert_eq!(game.game_state, GameState::ComeOut);
    assert_eq!(game.shooter, 1);

    let mut alone = table(CrapsType::StandardCraps, 1);
    alone.advance_shooter();
    assert_eq!(alone.shooter, 0);

    let mut far = table(CrapsType::StandardCraps, 4);
    far.shooter = usize::MAX;
    far.advance_shooter();
    assert_eq!(far.shooter, 0);
    far.shooter = 10;
    far.advance_shooter();
    assert_eq!(far.shooter, 3);
}

#[test]
fn a_come_out_roll_moves_the_game_by_its_total() {
    let mut totals = [false; 13];
    for _ in 0..500 {
        let mut game = table(CrapsType::StandardCraps, 2);
        let roll = game.come_out_roll();
        assert!(roll.d1 >= 1 && roll.d1 <= 6);
        assert!(roll.d2 >= 1 && roll.d2 <= 6);
        assert_eq!(roll.total, roll.d1 + roll.d2);
        assert_eq!(roll.hard_way, game.is_hardway(roll.d1, roll.d2, roll.total));
        totals[roll.total as usize] = true;
        let expected = match roll.total {
            7 | 11 => GameState::NaturalWin,
            2 | 3 | 12 => GameState::Craps,
            t => GameState::PointSet(t),
        };
        assert_eq!(game.game_state, expected);
        assert_eq!(game.shooter, 0);
        assert_eq!(game.players.len(), 2);

        let mut game = table(CrapsType::CraplessCraps, 2);
        let roll = game.come_out_roll();
        let expected = match roll.total {
            7 | 11 => GameState::NaturalWin,
            t => GameState::PointSet(t),
        };
        assert_eq!(game.game_state, expected);
    }
    assert!(totals.iter().filter(|t| **t).count() > 3);
}
