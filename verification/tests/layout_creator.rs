use layout_optimizer::digram_timing::DigramTimingHint;
use layout_optimizer::keyboard::KeyCode;
use layout_optimizer::keyboard::KeyboardLayout;
use layout_optimizer::layout_creator::InsufficientDataError;
use layout_optimizer::layout_creator::LayoutCreator;

/// A hint source that has only ever seen the digram `first` -> `second`,
/// with a 100 ms gap.
fn hint_for_digram(first: KeyCode, second: KeyCode) -> DigramTimingHint {
    let mut h = DigramTimingHint::new();
    h.receive_key_press(first, 0);
    h.receive_key_press(second, 100);
    h
}

#[test]
fn no_data_fails_with_insufficient_data() {
    let creator = LayoutCreator::new(vec![DigramTimingHint::new()]);
    assert!(matches!(creator.create_layout(), Err(InsufficientDataError)));
}

#[test]
fn no_sources_fails_with_insufficient_data() {
    let creator = LayoutCreator::new(Vec::new());
    assert!(matches!(creator.create_layout(), Err(InsufficientDataError)));
}

#[test]
fn too_little_data_fails_rather_than_padding() {
    // One digram ranks only one key; 29 positions would stay unfilled, so
    // the attempt must fail instead of leaving default keys in place.
    let creator = LayoutCreator::new(vec![hint_for_digram(KeyCode::A, KeyCode::B)]);
    assert!(matches!(creator.create_layout(), Err(InsufficientDataError)));
}

#[test]
fn aggregation_sums_ranks_across_sources() {
    // Two identical sources double every rank.
    let one = LayoutCreator::new(vec![hint_for_digram(KeyCode::A, KeyCode::B)]);
    let two = LayoutCreator::new(vec![
        hint_for_digram(KeyCode::A, KeyCode::B),
        hint_for_digram(KeyCode::A, KeyCode::B),
    ]);
    let pos_b = (2, 4);
    let single = one.rank_keys_for_position(pos_b);
    let double = two.rank_keys_for_position(pos_b);
    assert_eq!(single.len(), 1);
    assert_eq!(double.len(), 1);
    assert_eq!(single[0].0, KeyCode::B);
    assert_eq!(double[0].0, KeyCode::B);
    assert_eq!(double[0].1, 2 * single[0].1);
}

#[test]
fn broadcast_feeds_every_source() {
    let mut creator = LayoutCreator::new(vec![
        DigramTimingHint::new(),
        DigramTimingHint::new(),
    ]);
    creator.receive_key_press(KeyCode::A, 0);
    creator.receive_key_press(KeyCode::B, 100);
    let pos_b = (2, 4);
    let ranks = creator.rank_keys_for_position(pos_b);
    assert_eq!(ranks.len(), 1);
    assert_eq!(ranks[0].0, KeyCode::B);
    // 1 * 1000 / 100 from each of the two sources.
    assert_eq!(ranks[0].1, 20);
}

#[test]
fn unambiguous_tops_reproduce_the_reference_layout() {
    // One dedicated source per key, trained on that key alone: each key is
    // the strict top choice of its own reference position, so the greedy
    // assignment reproduces the reference layout with all 30 keys.
    let mut hints = Vec::new();
    for i in 0..30 {
        let k = KeyCode::from_index(i);
        hints.push(hint_for_digram(k, k));
    }
    let creator = LayoutCreator::new(hints);
    let layout = creator.create_layout().unwrap();
    let qwerty = KeyboardLayout::qwerty();
    let mut seen = Vec::new();
    for row in 0..3 {
        for col in 0..10 {
            let key = layout.key_at((row, col));
            assert_eq!(key, qwerty.key_at((row, col)));
            assert!(!seen.contains(&key));
            seen.push(key);
        }
    }
    assert_eq!(seen.len(), 30);
}

#[test]
fn greedy_assignment_can_swap_keys() {
    // Data that make B the top choice at A's reference position: two
    // sources saw A -> B (ranking B there), one saw B -> A (ranking A at
    // B's position, more weakly), and each remaining key has a dedicated
    // source of its own.
    let mut hints = vec![
        hint_for_digram(KeyCode::A, KeyCode::B),
        hint_for_digram(KeyCode::A, KeyCode::B),
        hint_for_digram(KeyCode::B, KeyCode::A),
    ];
    for i in 0..30 {
        let k = KeyCode::from_index(i);
        if k != KeyCode::A && k != KeyCode::B {
            hints.push(hint_for_digram(k, k));
        }
    }
    let creator = LayoutCreator::new(hints);
    let layout = creator.create_layout().unwrap();
    let qwerty = KeyboardLayout::qwerty();
    let pos_a = (1, 0);
    let pos_b = (2, 4);
    assert_eq!(layout.key_at(pos_a), KeyCode::B);
    assert_eq!(layout.key_at(pos_b), KeyCode::A);
    for row in 0..3 {
        for col in 0..10 {
            if (row, col) != pos_a && (row, col) != pos_b {
                assert_eq!(layout.key_at((row, col)), qwerty.key_at((row, col)));
            }
        }
    }
}
