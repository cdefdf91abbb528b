use casino::roulette::{RouletteColor, RouletteNumber, RouletteWheel, WheelType};

#[test]
fn test_roulette_number_creation() {
    assert_eq!(
        RouletteNumber::new(0),
        Some(RouletteNumber {
            number: 0,
            color: RouletteColor::Green
        })
    );
    assert_eq!(
        RouletteNumber::new(37),
        Some(RouletteNumber {
            number: 37,
            color: RouletteColor::Green
        })
    );
    assert_eq!(
        RouletteNumber::new(38),
        Some(RouletteNumber {
            number: 38,
            color: RouletteColor::Green
        })
    );
    assert_eq!(
        RouletteNumber::new(1),
        Some(RouletteNumber {
            number: 1,
            color: RouletteColor::Red
        })
    );
    assert_eq!(
        RouletteNumber::new(2),
        Some(RouletteNumber {
            number: 2,
            color: RouletteColor::Black
        })
    );
    assert_eq!(RouletteNumber::new(39), None);
}

#[test]
fn test_wheel_numbers() {
    let american_wheel = WheelType::American;
    assert_eq!(american_wheel.numbers().len(), 38);

    let european_wheel = WheelType::European;
    assert_eq!(european_wheel.numbers().len(), 37);

    let triple_zero_wheel = WheelType::TripleZero;
    assert_eq!(triple_zero_wheel.numbers().len(), 39);
}

#[test]
fn test_wheel_spin_american() {
    let wheel = RouletteWheel::new(WheelType::American);
    for _ in 0..100 {
        let result = wheel.spin();
        assert!(result.number <= 38);
    }
}

#[test]
fn test_wheel_spin_european() {
    let wheel = RouletteWheel::new(WheelType::European);
    for _ in 0..100 {
        let result = wheel.spin();
        assert!(result.number <= 36);
    }
}

#[test]
fn test_wheel_spin_triple_zero() {
    let wheel = RouletteWheel::new(WheelType::TripleZero);
    for _ in 0..100 {
        let result = wheel.spin();
        assert!(result.number <= 38);
    }
}

#[test]
fn red_and_black_pockets_are_eighteen_each() {
    let reds = [1, 3, 5, 7, 9, 12, 14, 16, 18, 19, 21, 23, 25, 27, 30, 32, 34, 36];
    let mut red = 0;
    let mut black = 0;
    for number in 1..=36u16 {
        let pocket = RouletteNumber::new(number).unwrap();
        assert_eq!(pocket.number, number);
        if reds.contains(&number) {
            assert_eq!(pocket.color, RouletteColor::Red);
            red += 1;
        } else {
            assert_eq!(pocket.color, RouletteColor::Black);
            black += 1;
        }
    }
    assert_eq!((red, black), (18, 18));
    assert_eq!(RouletteNumber::new(40), None);
    assert_eq!(RouletteNumber::new(u16::MAX), None);
}

#[test]
fn wheels_list_their_pockets_in_order() {
    let pockets = WheelType::TripleZero.numbers();
    for (i, pocket) in pockets.iter().enumerate() {
        assert_eq!(pocket.number as usize, i);
        assert_eq!(Some(*pocket), RouletteNumber::new(i as u16));
    }
    assert_eq!(WheelType::European.numbers().last().unwrap().number, 36);
    assert_eq!(WheelType::American.numbers().last().unwrap().number, 37);
}

#[test]
fn a_spin_lands_in_a_pocket_of_the_wheel() {
    let wheel = RouletteWheel::new(WheelType::European);
    let pockets = wheel.wheel.numbers();
    let mut seen = [false; 37];
    for _ in 0..5000 {
        let drawn = wheel.spin();
        assert!(pockets.contains(&drawn));
        seen[drawn.number as usize] = true;
    }
    assert!(seen.iter().filter(|s| **s).count() > 1);
}

#[test]
fn colours_and_wheels_are_listed() {
    assert_eq!(
        RouletteColor::all(),
        &[RouletteColor::Red, RouletteColor::Black, RouletteColor::Green]
    );
    assert_eq!(RouletteColor::Red.as_str(), "Red");
    assert_eq!(RouletteColor::Black.as_str(), "Black");
    assert_eq!(RouletteColor::Green.as_str(), "Green");
    assert_eq!(WheelType::all().len(), 3);
    assert!(matches!(WheelType::all()[0], WheelType::American));
    assert!(matches!(WheelType::all()[1], WheelType::European));
    assert!(matches!(WheelType::all()[2], WheelType::TripleZero));
}
