use layout_optimizer::keyboard::KeyCode;
use layout_optimizer::keyboard::KeyboardLayout;

#[test]
fn qwerty_holds_the_reference_arrangement() {
    let l = KeyboardLayout::qwerty();
    assert_eq!(l.key_at((0, 0)), KeyCode::Q);
    assert_eq!(l.key_at((0, 9)), KeyCode::P);
    assert_eq!(l.key_at((1, 0)), KeyCode::A);
    assert_eq!(l.key_at((1, 9)), KeyCode::Semicolon);
    assert_eq!(l.key_at((2, 0)), KeyCode::Z);
    assert_eq!(l.key_at((2, 4)), KeyCode::B);
    assert_eq!(l.key_at((2, 9)), KeyCode::Slash);
}

#[test]
fn default_layout_is_qwerty() {
    let d = KeyboardLayout::default();
    let q = KeyboardLayout::qwerty();
    for row in 0..3 {
        for col in 0..10 {
            assert_eq!(d.key_at((row, col)), q.key_at((row, col)));
        }
    }
}

#[test]
fn position_of_finds_every_key() {
    let l = KeyboardLayout::qwerty();
    assert_eq!(l.position_of(KeyCode::Q), Some((0, 0)));
    assert_eq!(l.position_of(KeyCode::A), Some((1, 0)));
    assert_eq!(l.position_of(KeyCode::B), Some((2, 4)));
    assert_eq!(l.position_of(KeyCode::Slash), Some((2, 9)));
    for row in 0..3 {
        for col in 0..10 {
            let key = l.key_at((row, col));
            assert_eq!(l.position_of(key), Some((row, col)));
        }
    }
}

#[test]
fn position_of_reports_an_absent_key() {
    // A degenerate layout that holds Q everywhere does not contain W.
    let mut l = KeyboardLayout::qwerty();
    for row in 0..3 {
        for col in 0..10 {
            l.set_key_at(row, col, KeyCode::Q);
        }
    }
    assert_eq!(l.position_of(KeyCode::W), None);
    assert_eq!(l.position_of(KeyCode::Q), Some((0, 0)));
}

#[test]
fn set_key_at_changes_only_the_given_position() {
    let mut l = KeyboardLayout::qwerty();
    l.set_key_at(1, 3, KeyCode::Z);
    assert_eq!(l.key_at((1, 3)), KeyCode::Z);
    let q = KeyboardLayout::qwerty();
    for row in 0..3 {
        for col in 0..10 {
            if (row, col) != (1, 3) {
                assert_eq!(l.key_at((row, col)), q.key_at((row, col)));
            }
        }
    }
}

#[test]
fn iter_yields_all_keys_in_row_major_order() {
    let l = KeyboardLayout::qwerty();
    let keys = l.iter();
    assert_eq!(keys.len(), 30);
    assert_eq!(keys[0], KeyCode::Q);
    assert_eq!(keys[10], KeyCode::A);
    assert_eq!(keys[20], KeyCode::Z);
    assert_eq!(keys[29], KeyCode::Slash);
    for row in 0..3 {
        for col in 0..10 {
            assert_eq!(keys[row * 10 + col], l.key_at((row, col)));
        }
    }
}

#[test]
fn key_index_round_trips() {
    for i in 0..30 {
        let k = KeyCode::from_index(i);
        assert_eq!(k.index(), i);
    }
}

#[test]
fn to_char_gives_the_printed_symbol() {
    assert_eq!(KeyCode::Q.to_char(), 'Q');
    assert_eq!(KeyCode::Semicolon.to_char(), ';');
    assert_eq!(KeyCode::Comma.to_char(), ',');
    assert_eq!(KeyCode::Dot.to_char(), '.');
    assert_eq!(KeyCode::Slash.to_char(), '/');
}
