use vstd::prelude::*;

verus! {

/// What a producer does in one round: the value it sends, how long it
/// pauses afterwards and whether it stops after the pause.
#[derive(Clone, Copy, Debug, PartialEq, Eq, Structural)]
pub struct Turn {
    pub value: usize,
    pub pause_millis: u64,
    pub stop: bool,
}

/// The round that three draws stand for: the first is the value, the
/// second gives the pause in steps of ten milliseconds, and the producer
/// stops where the third is a multiple of ten.
pub open spec fn turn_spec(value: usize, pause_roll: u8, stop_roll: u8) -> Turn {
    Turn { value, pause_millis: (pause_roll * 10) as u64, stop: stop_roll % 10 == 0 }
}

/// The round that three draws stand for.
pub fn plan_turn(value: usize, pause_roll: u8, stop_roll: u8) -> (t: Turn)
    ensures
        t == turn_spec(value, pause_roll, stop_roll),
{
    let pause: u64 = pause_roll as u64;
    Turn { value, pause_millis: pause * 10, stop: stop_roll % 10 == 0 }
}

/// A value for a producer to send.
///
/// Trusted: the body is `rand::random::<usize>()`, which draws from the
/// calling thread's generator. Nothing is claimed of the number. The call
/// panics where the operating system cannot seed the generator.
#[verifier::external_body]
fn random_value() -> (value: usize) {
    rand::random::<usize>()
}

/// A byte for a producer to decide by.
///
/// Trusted: the body is `rand::random::<u8>()`, which draws from the
/// calling thread's generator. Nothing is claimed of the number. The call
/// panics where the operating system cannot seed the generator.
#[verifier::external_body]
fn random_byte() -> (byte: u8) {
    rand::random::<u8>()
}

/// Draws the next round of a producer. Whatever is drawn, the pause is a
/// multiple of ten milliseconds and at most 2550 of them.
pub fn draw_turn() -> (t: Turn)
    ensures
        exists|value: usize, pause_roll: u8, stop_roll: u8|
            t == turn_spec(value, pause_roll, stop_roll),
        t.pause_millis % 10 == 0,
        t.pause_millis <= 2550,
{
    let value = random_value();
    let pause_roll = random_byte();
    let stop_roll = random_byte();
    let t = plan_turn(value, pause_roll, stop_roll);
    assert(t == turn_spec(value, pause_roll, stop_roll));
    t
}

} // verus!
