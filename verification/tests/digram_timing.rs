use layout_optimizer::digram_timing::DigramTimingHint;
use layout_optimizer::digram_timing::adjust_average_duration;
use layout_optimizer::keyboard::KeyCode;

const POS_A: (usize, usize) = (1, 0);
const POS_B: (usize, usize) = (2, 4);
const POS_C: (usize, usize) = (2, 2);

fn all_positions() -> Vec<(usize, usize)> {
    let mut v = Vec::new();
    for row in 0..3 {
        for col in 0..10 {
            v.push((row, col));
        }
    }
    v
}

fn all_keys() -> Vec<KeyCode> {
    let mut v = Vec::new();
    for i in 0..30 {
        v.push(KeyCode::from_index(i));
    }
    v
}

#[test]
fn slow_keystrokes_leave_statistics_unchanged() {
    // Gaps of a second or more never count a digram.
    let mut engine = DigramTimingHint::new();
    engine.receive_key_press(KeyCode::A, 0);
    engine.receive_key_press(KeyCode::B, 1000);
    engine.receive_key_press(KeyCode::C, 2500);
    engine.receive_key_press(KeyCode::D, 77_000);
    for key in all_keys() {
        assert_eq!(engine.frequency_of(key), 0);
    }
    for pos in all_positions() {
        assert_eq!(engine.average_time_to(pos), None);
        assert_eq!(engine.average_time_from(pos), None);
    }
}

#[test]
fn fast_keystrokes_count_each_occurrence() {
    // In a burst with gaps under a second, a key that is not the opening
    // keystroke is counted once per occurrence.
    let mut engine = DigramTimingHint::new();
    engine.receive_key_press(KeyCode::B, 0);
    engine.receive_key_press(KeyCode::A, 100);
    engine.receive_key_press(KeyCode::A, 200);
    engine.receive_key_press(KeyCode::A, 300);
    assert_eq!(engine.frequency_of(KeyCode::A), 3);
    // The opening keystroke itself had no predecessor and is not counted.
    assert_eq!(engine.frequency_of(KeyCode::B), 0);
}

#[test]
fn first_sample_is_the_average_exactly() {
    let mut engine = DigramTimingHint::new();
    engine.receive_key_press(KeyCode::A, 0);
    engine.receive_key_press(KeyCode::B, 137);
    assert_eq!(engine.average_time_to(POS_B), Some(137));
    assert_eq!(engine.average_time_from(POS_A), Some(137));
}

#[test]
fn identical_samples_keep_the_average_exact() {
    let mut engine = DigramTimingHint::new();
    let mut t: u64 = 0;
    for _ in 0..10 {
        engine.receive_key_press(KeyCode::A, t);
        engine.receive_key_press(KeyCode::B, t + 250);
        t += 500;
    }
    assert_eq!(engine.average_time_to(POS_B), Some(250));
    assert_eq!(engine.average_time_from(POS_A), Some(250));
    assert_eq!(engine.average_time_to(POS_A), Some(250));
    assert_eq!(engine.average_time_from(POS_B), Some(250));
}

#[test]
fn average_update_follows_the_running_formula() {
    assert_eq!(adjust_average_duration(100, 200, 2), 150);
    assert_eq!(adjust_average_duration(200, 100, 2), 150);
    assert_eq!(adjust_average_duration(200, 100, 4), 175);
    assert_eq!(adjust_average_duration(500, 500, 7), 500);
    assert_eq!(adjust_average_duration(0, 999, 1), 999);
    // One sample: the average becomes the sample itself.
    assert_eq!(adjust_average_duration(100, 40, 1), 40);
}

#[test]
fn mixed_samples_update_in_order() {
    // Samples 100 then 200 into the same position: 100, then 100 + 100/2.
    let mut engine = DigramTimingHint::new();
    engine.receive_key_press(KeyCode::A, 0);
    engine.receive_key_press(KeyCode::B, 100);
    engine.receive_key_press(KeyCode::A, 300);
    engine.receive_key_press(KeyCode::B, 500);
    assert_eq!(engine.average_time_to(POS_B), Some(150));
}

#[test]
fn end_to_end_burst_records_both_directions() {
    // Feed (A, 0), (B, 200), (A, 400), (B, 600): every gap is 200 ms.
    let mut engine = DigramTimingHint::new();
    engine.receive_key_press(KeyCode::A, 0);
    engine.receive_key_press(KeyCode::B, 200);
    engine.receive_key_press(KeyCode::A, 400);
    engine.receive_key_press(KeyCode::B, 600);
    // A opened the session, so it is counted once; B twice.
    assert_eq!(engine.frequency_of(KeyCode::A), 1);
    assert_eq!(engine.frequency_of(KeyCode::B), 2);
    for key in all_keys() {
        if key != KeyCode::A && key != KeyCode::B {
            assert_eq!(engine.frequency_of(key), 0);
        }
    }
    // Both directions carry data for the positions of A and B, and for no
    // other position.
    assert_eq!(engine.average_time_to(POS_A), Some(200));
    assert_eq!(engine.average_time_to(POS_B), Some(200));
    assert_eq!(engine.average_time_from(POS_A), Some(200));
    assert_eq!(engine.average_time_from(POS_B), Some(200));
    for pos in all_positions() {
        if pos != POS_A && pos != POS_B {
            assert_eq!(engine.average_time_to(pos), None);
            assert_eq!(engine.average_time_from(pos), None);
        }
    }
}

#[test]
fn discarded_digram_still_moves_the_previous_key() {
    // Feed (A, 0), (B, 2000): the 2-second gap discards the digram, but B
    // still becomes the "previous" key for the next digram check.
    let mut engine = DigramTimingHint::new();
    engine.receive_key_press(KeyCode::A, 0);
    engine.receive_key_press(KeyCode::B, 2000);
    for key in all_keys() {
        assert_eq!(engine.frequency_of(key), 0);
    }
    for pos in all_positions() {
        assert_eq!(engine.average_time_to(pos), None);
        assert_eq!(engine.average_time_from(pos), None);
    }
    // The next keystroke forms a digram with B, not with A.
    engine.receive_key_press(KeyCode::C, 2500);
    assert_eq!(engine.frequency_of(KeyCode::C), 1);
    assert_eq!(engine.average_time_to(POS_C), Some(500));
    assert_eq!(engine.average_time_from(POS_B), Some(500));
    assert_eq!(engine.average_time_from(POS_A), None);
}

#[test]
fn ranks_are_positive_and_follow_the_formula() {
    let mut engine = DigramTimingHint::new();
    engine.receive_key_press(KeyCode::A, 0);
    engine.receive_key_press(KeyCode::B, 200);
    // B: frequency 1, average 200 ms into B's position, 200 ms out of A's.
    // rank = frequency * 1000 / average_ms for each direction with data.
    let at_b = engine.rank_keys_for_position(POS_B);
    assert_eq!(at_b.len(), 1);
    assert_eq!(at_b[0].0, KeyCode::B);
    assert_eq!(at_b[0].1, 5);
    let at_a = engine.rank_keys_for_position(POS_A);
    assert_eq!(at_a.len(), 1);
    assert_eq!(at_a[0].0, KeyCode::B);
    assert_eq!(at_a[0].1, 5);
    // A position with no data in either direction ranks nothing.
    let elsewhere = engine.rank_keys_for_position((0, 0));
    assert!(elsewhere.is_empty());
    for (_, rank) in at_b.iter().chain(at_a.iter()) {
        assert!(*rank > 0);
    }
}

#[test]
fn ranks_combine_both_directions() {
    // A digram A -> A gives A's position data in both directions.
    let mut engine = DigramTimingHint::new();
    engine.receive_key_press(KeyCode::A, 0);
    engine.receive_key_press(KeyCode::A, 100);
    let at_a = engine.rank_keys_for_position(POS_A);
    assert_eq!(at_a.len(), 1);
    assert_eq!(at_a[0].0, KeyCode::A);
    // 1 * 1000 / 100 in each direction.
    assert_eq!(at_a[0].1, 20);
}

#[test]
fn ranks_list_keys_in_ascending_key_order() {
    let mut engine = DigramTimingHint::new();
    // Give several keys data flowing out of A's position.
    engine.receive_key_press(KeyCode::A, 0);
    engine.receive_key_press(KeyCode::Z, 100);
    engine.receive_key_press(KeyCode::A, 300);
    engine.receive_key_press(KeyCode::Q, 400);
    engine.receive_key_press(KeyCode::A, 600);
    engine.receive_key_press(KeyCode::M, 700);
    let at_a = engine.rank_keys_for_position(POS_A);
    let keys: Vec<KeyCode> = at_a.iter().map(|e| e.0).collect();
    assert_eq!(keys, vec![KeyCode::Q, KeyCode::A, KeyCode::Z, KeyCode::M]);
    for (_, rank) in &at_a {
        assert!(*rank > 0);
    }
}

#[test]
fn zero_gap_digrams_are_counted() {
    // Two keystrokes with the same timestamp form a zero-length digram.
    let mut engine = DigramTimingHint::new();
    engine.receive_key_press(KeyCode::A, 500);
    engine.receive_key_press(KeyCode::B, 500);
    assert_eq!(engine.frequency_of(KeyCode::B), 1);
    assert_eq!(engine.average_time_to(POS_B), Some(0));
    // An average of zero is scored like one millisecond.
    let at_b = engine.rank_keys_for_position(POS_B);
    assert_eq!(at_b.len(), 1);
    assert_eq!(at_b[0].1, 1000);
}
