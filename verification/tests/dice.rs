use casino::dice::Die;

#[test]
fn test_die_creation() {
    assert!(Die::new(6).is_some());
    assert!(Die::new(20).is_some());
    assert!(Die::new(7).is_none());
}

#[test]
fn test_die_sides() {
    let die = Die::new(10).unwrap();
    assert_eq!(die.sides(), 10);

    let die = Die::new(4).unwrap();
    assert_eq!(die.sides(), 4);
}

#[test]
fn test_die_roll() {
    let die = Die::new(6).unwrap();
    for _ in 0..100 {
        let roll = die.roll();
        assert!(roll >= 1 && roll <= 6);
    }

    let die = Die::new(20).unwrap();
    for _ in 0..100 {
        let roll = die.roll();
        assert!(roll >= 1 && roll <= 20);
    }
}

#[test]
fn every_die_is_made_from_its_sides() {
    for sides in 0..=255u8 {
        match Die::new(sides) {
            Some(die) => {
                assert_eq!(die.sides(), sides);
                assert!(matches!(sides, 4 | 6 | 8 | 10 | 12 | 20 | 100));
            }
            None => assert!(!matches!(sides, 4 | 6 | 8 | 10 | 12 | 20 | 100)),
        }
    }
}

#[test]
fn a_rolled_die_shows_every_face() {
    let die = Die::D4;
    let mut seen = [false; 5];
    for _ in 0..2000 {
        let face = die.roll();
        assert!(face >= 1 && face <= 4);
        seen[face as usize] = true;
    }
    assert!(seen[1] && seen[2] && seen[3] && seen[4]);
}
