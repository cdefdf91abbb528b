use casino::bet::Chip;
use casino::ledger::ChipCounts;
use casino::player::Player;

fn sample_tokens() -> (Chip, Chip, Chip, Chip) {
    let quarter = Chip { name: "quarter".to_string(), display: "25Â¢".to_string(), value_cents: 25 };
    let ones_chip = Chip { name: "one dollar".to_string(), display: "$1".to_string(), value_cents: 100 };
    let fives_chip = Chip { name: "five dollar".to_string(), display: "$5".to_string(), value_cents: 500 };
    let tens_chip = Chip { name: "ten dollar".to_string(), display: "$10".to_string(), value_cents: 1000 };
    (quarter, ones_chip, fives_chip, tens_chip)
}

#[test]
fn test_player_wallet() {
    let mut player = Player::new("Alice");
    let (quarter, _ones_chip, _fives_chip, _tens_chip) = sample_tokens();
    assert_eq!(player.total_cents(), 0);
    assert_eq!(player.total_cents() as f64 / 100.0, 0.0);
    player.deposit(quarter.clone(), 4);
    assert_eq!(player.token_count(&quarter), 4);
    assert_eq!(player.total_cents(), 100);
}

#[test]
fn test_deposit_multiple() {
    let mut player = Player::new("Bob");
    let (quarter, ones_chip, fives_chip, _tens_chip) = sample_tokens();
    let mut map = ChipCounts::new();
    map.add(quarter.clone(), 4);
    map.add(ones_chip.clone(), 2);
    map.add(fives_chip.clone(), 1);
    player.deposit_multiple(map);
    assert_eq!(player.total_cents(), 4 * 25 + 2 * 100 + 1 * 500);
}

#[test]
fn test_withdraw() {
    let mut player = Player::new("Charlie");
    let (quarter, ones_chip, _fives_chip, _tens_chip) = sample_tokens();
    player.deposit(quarter.clone(), 4);
    player.deposit(ones_chip.clone(), 2);
    assert_eq!(player.total_cents(), 4 * 25 + 2 * 100);
    assert!(player.withdraw(&quarter, 2).is_ok());
    assert_eq!(player.token_count(&quarter), 2);
    assert_eq!(player.total_cents(), 2 * 25 + 2 * 100);
    assert!(player.withdraw(&ones_chip, 3).is_err());
    assert_eq!(player.token_count(&ones_chip), 2);
}
