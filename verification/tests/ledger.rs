use casino::bet::{Bet, Chip};
use casino::error::Error;
use casino::ledger::ChipCounts;
use casino::player::Player;

fn chip(name: &str, display: &str, value_cents: u64) -> Chip {
    Chip { name: name.to_string(), display: display.to_string(), value_cents }
}

fn quarter() -> Chip {
    chip("quarter", "25c", 25)
}

fn dollar() -> Chip {
    chip("one dollar", "$1", 100)
}

#[test]
fn four_quarters_less_two_leave_fifty_cents() {
    let mut player = Player::new("Dana");
    player.deposit(quarter(), 4);
    assert_eq!(player.total_cents(), 100);
    assert_eq!(player.withdraw(&quarter(), 2), Ok(()));
    assert_eq!(player.total_cents(), 50);
    assert_eq!(player.token_count(&quarter()), 2);
}

#[test]
fn withdrawing_more_than_held_changes_nothing() {
    let mut player = Player::new("Eli");
    player.deposit(quarter(), 4);
    player.deposit(dollar(), 1);
    assert_eq!(player.withdraw(&quarter(), 5), Err(Error::InsufficientFunds));
    assert_eq!(player.withdraw(&chip("five dollar", "$5", 500), 1), Err(Error::InsufficientFunds));
    assert_eq!(player.token_count(&quarter()), 4);
    assert_eq!(player.token_count(&dollar()), 1);
    assert_eq!(player.total_cents(), 200);
}

#[test]
fn withdrawing_all_of_a_chip_leaves_no_entry() {
    let mut counts = ChipCounts::new();
    counts.add(quarter(), 3);
    counts.add(dollar(), 2);
    assert_eq!(counts.chip_total(), 5);
    assert_eq!(counts.remove(&quarter(), 3), Ok(()));
    assert_eq!(counts.count(&quarter()), 0);
    assert_eq!(counts.chip_total(), 2);
    assert_eq!(counts.total_cents(), 200);
    assert_eq!(counts.remove(&quarter(), 1), Err(Error::InsufficientFunds));
    assert_eq!(counts.remove(&quarter(), 0), Ok(()));
    assert_eq!(counts.remove(&dollar(), 2), Ok(()));
    assert_eq!(counts.chip_total(), 0);
    assert_eq!(counts.total_cents(), 0);
}

#[test]
fn depositing_nothing_leaves_no_entry() {
    let mut counts = ChipCounts::new();
    counts.add(quarter(), 0);
    assert_eq!(counts.count(&quarter()), 0);
    assert_eq!(counts.chip_total(), 0);
    assert_eq!(counts.remove(&quarter(), 0), Ok(()));
    assert_eq!(counts.remove(&quarter(), 1), Err(Error::InsufficientFunds));
}

#[test]
fn deposits_add_up_in_any_order() {
    let mut one = Player::new("first");
    one.deposit(quarter(), 4);
    one.deposit(dollar(), 2);
    one.deposit(quarter(), 1);
    let mut two = Player::new("second");
    two.deposit(dollar(), 2);
    two.deposit(quarter(), 1);
    two.deposit(quarter(), 4);
    for c in [quarter(), dollar()] {
        assert_eq!(one.token_count(&c), two.token_count(&c));
    }
    assert_eq!(one.token_count(&quarter()), 5);
    assert_eq!(one.total_cents(), 325);
    assert_eq!(two.total_cents(), 325);
}

#[test]
fn chips_are_told_apart_by_name_display_and_value() {
    let mut counts = ChipCounts::new();
    counts.add(chip("a", "x", 1), 1);
    counts.add(chip("a", "y", 1), 2);
    counts.add(chip("b", "x", 1), 3);
    counts.add(chip("a", "x", 2), 4);
    assert_eq!(counts.count(&chip("a", "x", 1)), 1);
    assert_eq!(counts.count(&chip("a", "y", 1)), 2);
    assert_eq!(counts.count(&chip("b", "x", 1)), 3);
    assert_eq!(counts.count(&chip("a", "x", 2)), 4);
    assert_eq!(counts.total_cents(), 1 + 2 + 3 + 8);
    assert!(chip("a", "x", 1) == chip("a", "x", 1));
    assert!(chip("a", "x", 1) != chip("a", "x", 2));
    assert!(chip("a", "x", 1).clone() == chip("a", "x", 1));
}

#[test]
fn totals_stop_at_the_ceiling() {
    let mut counts = ChipCounts::new();
    counts.add(chip("huge", "H", u64::MAX), 2);
    assert_eq!(counts.total_cents(), u64::MAX);
    counts.add(quarter(), 1);
    assert_eq!(counts.total_cents(), u64::MAX);

    let mut near = ChipCounts::new();
    near.add(chip("big", "B", u64::MAX - 10), 1);
    assert_eq!(near.total_cents(), u64::MAX - 10);
    near.add(chip("one", "1", 1), 10);
    assert_eq!(near.total_cents(), u64::MAX);
    near.add(chip("one", "1", 1), 1);
    assert_eq!(near.total_cents(), u64::MAX);

    let mut many = ChipCounts::new();
    many.add(chip("half", "h", 1 << 40), u32::MAX);
    assert_eq!(many.total_cents(), u64::MAX);
    assert_eq!(many.chip_total(), u32::MAX as u128);
}

#[test]
fn bets_are_placed_and_taken_back() {
    let mut bet = Bet::new();
    assert_eq!(bet.total_cents(), 0);
    bet.place_chip(quarter(), 4);
    bet.place_chip(dollar(), 1);
    bet.place_chip(quarter(), 2);
    assert_eq!(bet.total_cents(), 250);
    assert_eq!(bet.remove_chip(&quarter(), 7), Err(Error::InsufficientFunds));
    assert_eq!(bet.total_cents(), 250);
    assert_eq!(bet.remove_chip(&quarter(), 6), Ok(()));
    assert_eq!(bet.chips.count(&quarter()), 0);
    assert_eq!(bet.total_cents(), 100);

    let mut more = ChipCounts::new();
    more.add(dollar(), 2);
    more.add(quarter(), 1);
    bet.place_multiple(more);
    assert_eq!(bet.chips.count(&dollar()), 3);
    assert_eq!(bet.chips.count(&quarter()), 1);
    assert_eq!(bet.total_cents(), 325);
    assert_eq!(Bet::default().total_cents(), 0);
}

#[test]
fn a_copied_ledger_holds_the_same() {
    let mut counts = ChipCounts::new();
    counts.add(quarter(), 3);
    counts.add(dollar(), 2);
    let mut copy = counts.clone();
    assert_eq!(copy.count(&quarter()), 3);
    assert_eq!(copy.count(&dollar()), 2);
    assert_eq!(copy.total_cents(), counts.total_cents());
    copy.add(quarter(), 1);
    assert_eq!(counts.count(&quarter()), 3);
    assert_eq!(copy.count(&quarter()), 4);
}

#[test]
fn counts_that_would_leave_their_range_do_not_fit() {
    let mut held = ChipCounts::new();
    held.add(quarter(), u32::MAX - 1);
    let mut little = ChipCounts::new();
    little.add(quarter(), 1);
    little.add(dollar(), 5);
    assert!(held.can_take(&little));
    let mut much = ChipCounts::new();
    much.add(dollar(), 1);
    much.add(quarter(), 2);
    assert!(!held.can_take(&much));
    assert!(held.can_take(&ChipCounts::new()));
    held.add_all(little);
    assert_eq!(held.count(&quarter()), u32::MAX);
    assert_eq!(held.count(&dollar()), 5);
    assert_eq!(held.chip_total(), u32::MAX as u128 + 5);
}
