use rollr::dices::{parse_dice_arg, parse_dice_token, DiceRoll, TypeOfDice};

fn parse(token: &str) -> DiceRoll {
    parse_dice_arg(&vec!["".to_string(), token.to_string()])
}

#[test]
fn test_throw() {
    let dices: DiceRoll = parse_dice_arg(&vec!["".to_string(), "".to_string()]);
    assert_eq!(dices.count, 1);
    assert_eq!(dices.dice_type, TypeOfDice::D6);

    let dices: DiceRoll = parse_dice_arg(&vec!["".to_string(), "1".to_string()]);
    assert_eq!(dices.count, 1);
    assert_eq!(dices.dice_type, TypeOfDice::D6);

    let dices: DiceRoll = parse_dice_arg(&vec!["".to_string(), "d".to_string()]);
    assert_eq!(dices.count, 1);
    assert_eq!(dices.dice_type, TypeOfDice::D6);

    let dices: DiceRoll = parse_dice_arg(&vec!["".to_string(), "1D".to_string()]);
    assert_eq!(dices.count, 1);
    assert_eq!(dices.dice_type, TypeOfDice::D6);

    let dices: DiceRoll = parse_dice_arg(&vec!["".to_string(), "2D99".to_string()]);
    assert_eq!(dices.count, 2);
    assert_eq!(dices.dice_type, TypeOfDice::D6);

    let dices: DiceRoll = parse_dice_arg(&vec!["".to_string(), "fezfe".to_string()]);
    assert_eq!(dices.count, 1);
    assert_eq!(dices.dice_type, TypeOfDice::D6);

    let dices: DiceRoll = parse_dice_arg(&vec!["".to_string(), "D8".to_string()]);
    assert_eq!(dices.count, 1);
    assert_eq!(dices.dice_type, TypeOfDice::D8);

    let dices: DiceRoll = parse_dice_arg(&vec!["".to_string(), "2D6".to_string()]);
    assert_eq!(dices.count, 2);
    assert_eq!(dices.dice_type, TypeOfDice::D6);

    let dices: DiceRoll = parse_dice_arg(&vec!["".to_string(), "3D20".to_string()]);
    assert_eq!(dices.count, 3);
    assert_eq!(dices.dice_type, TypeOfDice::D20);
}

#[test]
fn parses_count_and_kind() {
    let r = parse("2D20");
    assert_eq!(r.count, 2);
    assert_eq!(r.dice_type, TypeOfDice::D20);
    assert_eq!(r.dice_type.value(), 20);
    let r = parse("D8");
    assert_eq!(r.count, 1);
    assert_eq!(r.dice_type, TypeOfDice::D8);
}

#[test]
fn falls_back_to_one_six_sided_die() {
    for token in ["", "1", "d", "1D", "fezfe", "2D", "D", "2x20", " 2D20", "2D20 ", "2DD20", "-2D6", "2D-6", "+2D6"] {
        let r = parse(token);
        assert_eq!(r.count, 1, "token {:?}", token);
        assert_eq!(r.dice_type, TypeOfDice::D6, "token {:?}", token);
    }
}

#[test]
fn no_argument_gives_default() {
    let r = parse_dice_arg(&vec!["rollr".to_string()]);
    assert_eq!(r.count, 1);
    assert_eq!(r.dice_type, TypeOfDice::D6);
    let r = parse_dice_arg(&vec![]);
    assert_eq!(r.count, 1);
    assert_eq!(r.dice_type, TypeOfDice::D6);
}

#[test]
fn unsupported_sides_keep_count() {
    let r = parse("2D99");
    assert_eq!(r.count, 2);
    assert_eq!(r.dice_type, TypeOfDice::D6);
    let r = parse("5D0");
    assert_eq!(r.count, 5);
    assert_eq!(r.dice_type, TypeOfDice::D6);
    let r = parse("4D99999999999");
    assert_eq!(r.count, 4);
    assert_eq!(r.dice_type, TypeOfDice::D6);
}

#[test]
fn separator_case_does_not_matter() {
    let lower = parse("2d20");
    let upper = parse("2D20");
    assert_eq!(lower.count, upper.count);
    assert_eq!(lower.dice_type, upper.dice_type);
    assert_eq!(lower.count, 2);
    assert_eq!(lower.dice_type, TypeOfDice::D20);
}

#[test]
fn parsing_twice_gives_same_request() {
    for token in ["3d12", "2D99", "junk", "D100"] {
        let a = parse(token);
        let b = parse(token);
        assert_eq!(a.count, b.count);
        assert_eq!(a.dice_type, b.dice_type);
    }
}

#[test]
fn zero_or_oversized_count_becomes_one() {
    let r = parse("0D6");
    assert_eq!(r.count, 1);
    assert_eq!(r.dice_type, TypeOfDice::D6);
    let r = parse("65536D20");
    assert_eq!(r.count, 1);
    assert_eq!(r.dice_type, TypeOfDice::D20);
    let r = parse("65535D4");
    assert_eq!(r.count, 65535);
    assert_eq!(r.dice_type, TypeOfDice::D4);
}

#[test]
fn leading_zeros_are_read() {
    let r = parse_dice_token("007d0100");
    assert_eq!(r.count, 7);
    assert_eq!(r.dice_type, TypeOfDice::D100);
}

#[test]
fn from_u16_accepts_supported_sides_only() {
    let supported = [3u16, 4, 5, 6, 7, 8, 10, 12, 14, 16, 20, 24, 30, 50, 60, 100];
    for n in 0u16..=200 {
        match TypeOfDice::from_u16(n) {
            Some(d) => {
                assert!(supported.contains(&n));
                assert_eq!(d.value(), n);
            }
            None => assert!(!supported.contains(&n)),
        }
    }
    assert_eq!(TypeOfDice::from_u16(12), Some(TypeOfDice::D12));
    assert_eq!(TypeOfDice::from_u16(65535), None);
}

#[test]
fn non_ascii_digits_match_but_fall_back() {
    // Arabic-Indic two before the separator: a dice expression whose count
    // does not parse, so one die of the named kind.
    let r = parse("\u{662}D20");
    assert_eq!(r.count, 1);
    assert_eq!(r.dice_type, TypeOfDice::D20);
    // Arabic-Indic twenty as side count: the count is kept, the kind defaults.
    let r = parse("2D\u{662}\u{660}");
    assert_eq!(r.count, 2);
    assert_eq!(r.dice_type, TypeOfDice::D6);
    // Devanagari digits mixed with ASCII ones.
    let r = parse_dice_token("3\u{967}d8");
    assert_eq!(r.count, 1);
    assert_eq!(r.dice_type, TypeOfDice::D8);
}

#[test]
fn non_ascii_letters_are_not_digits() {
    let r = parse("\u{e9}D20");
    assert_eq!(r.count, 1);
    assert_eq!(r.dice_type, TypeOfDice::D6);
    let r = parse("3D2\u{b2}");
    assert_eq!(r.count, 1);
    assert_eq!(r.dice_type, TypeOfDice::D6);
}
