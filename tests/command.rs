use rollr::command::is_flip_request;

#[test]
fn flip_words_in_any_case() {
    for arg in ["f", "F", "flip", "FLIP", "Flip", "flipcoin", "FlipCoin", "FLIPCOIN"] {
        assert!(is_flip_request(arg), "{:?}", arg);
    }
}

#[test]
fn other_arguments_are_rolls() {
    for arg in ["", "fl", "flips", "coin", "2D20", "d", " f", "flipcoin!", "ｆ"] {
        assert!(!is_flip_request(arg), "{:?}", arg);
    }
}
