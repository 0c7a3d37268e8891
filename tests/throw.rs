use rollr::throw::{flip_coin, throw_dices};

#[test]
fn test_throw_dices() {
    let results = throw_dices(2, 6);
    assert_eq!(results.len(), 2);
    for result in results {
        assert!(result >= 1 && result <= 6);
    }
}

#[test]
fn test_flip_coin() {
    let result = flip_coin();
    assert!(result == true || result == false);
}

#[test]
fn rolls_stay_in_range() {
    for sides in [1u16, 3, 20, 100, 65535] {
        let results = throw_dices(500, sides);
        assert_eq!(results.len(), 500);
        assert!(results.iter().all(|&v| v >= 1 && v <= sides));
    }
}

#[test]
fn no_dice_give_no_results() {
    assert!(throw_dices(0, 6).is_empty());
}

#[test]
fn one_sided_die_always_shows_one() {
    assert_eq!(throw_dices(4, 1), vec![1, 1, 1, 1]);
}

#[test]
fn rolls_are_not_all_the_lowest_face() {
    let results = throw_dices(1000, 6);
    assert!(results.iter().any(|&v| v != 1));
    assert!(results.iter().any(|&v| v == 6));
}

#[test]
fn coin_shows_both_sides() {
    let flips: Vec<bool> = (0..1000).map(|_| flip_coin()).collect();
    assert!(flips.iter().any(|&b| b));
    assert!(flips.iter().any(|&b| !b));
}
