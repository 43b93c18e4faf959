use concurrency::producer::{draw_turn, plan_turn, Turn};

#[test]
fn a_turn_follows_from_its_draws() {
    assert_eq!(
        plan_turn(7, 0, 0),
        Turn { value: 7, pause_millis: 0, stop: true }
    );
    assert_eq!(
        plan_turn(9, 255, 255),
        Turn { value: 9, pause_millis: 2550, stop: false }
    );
    assert_eq!(
        plan_turn(usize::MAX, 13, 250),
        Turn { value: usize::MAX, pause_millis: 130, stop: true }
    );
    assert_eq!(
        plan_turn(0, 1, 9),
        Turn { value: 0, pause_millis: 10, stop: false }
    );
}

#[test]
fn one_draw_in_ten_stops_the_producer() {
    let stops = (0..=255u8).filter(|roll| plan_turn(0, 0, *roll).stop).count();
    assert_eq!(stops, 26);
}

#[test]
fn drawn_turns_pause_in_steps_of_ten() {
    let mut values = Vec::new();
    for _ in 0..200 {
        let t = draw_turn();
        assert_eq!(t.pause_millis % 10, 0);
        assert!(t.pause_millis <= 2550);
        values.push(t.value);
    }
    values.sort();
    values.dedup();
    assert!(values.len() > 1);
}
