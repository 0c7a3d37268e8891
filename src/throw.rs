//! Random draws: rolling dice and flipping a coin.

use rand::Rng;
use vstd::prelude::*;

verus! {

/// rand's handle on the thread's generator, carried through opaque.
#[verifier::external_type_specification]
#[verifier::external_body]
pub struct ExThreadRng(rand::rngs::ThreadRng);

/// Relies on rand::rng: a handle on the thread's own generator, seeded by the
/// system.
pub assume_specification[ rand::rng ]() -> rand::rngs::ThreadRng;

/// Relies on rand::random: a `bool` drawn from the thread's generator. Nothing
/// is promised of which value comes.
#[verifier::external_body]
fn random_bool() -> bool {
    rand::random::<bool>()
}

/// Relies on rand::Rng::random_range: a value drawn uniformly from the
/// inclusive range `low..=high`, which panics only when the range is empty.
#[verifier::external_body]
fn draw_in_range(rng: &mut rand::rngs::ThreadRng, low: u16, high: u16) -> (r: u16)
    requires
        low <= high,
    ensures
        low <= r <= high,
{
    rng.random_range(low..=high)
}

/// Rolls `count` dice of `dice_sides` sides: one result per die, in the order
/// drawn, each between 1 and `dice_sides`.
pub fn throw_dices(count: u16, dice_sides: u16) -> (r: Vec<u16>)
    requires
        dice_sides >= 1,
    ensures
        r@.len() == count,
        forall|i: int| 0 <= i < r@.len() ==> 1 <= #[trigger] r@[i] <= dice_sides,
{
    let mut rng = rand::rng();
    let mut results: Vec<u16> = Vec::new();
    let mut i: u16 = 0;
    while i < count
        invariant
            i <= count,
            dice_sides >= 1,
            results@.len() == i,
            forall|j: int| 0 <= j < results@.len() ==> 1 <= #[trigger] results@[j] <= dice_sides,
        decreases count - i,
    {
        let v = draw_in_range(&mut rng, 1, dice_sides);
        results.push(v);
        i = i + 1;
    }
    results
}

/// Flips a coin: `true` for heads, `false` for tails.
pub fn flip_coin() -> bool {
    random_bool()
}

} // verus!
