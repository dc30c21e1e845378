use std::cell::RefCell;
use std::rc::Rc;

use layout_optimizer::input::virtual_key_of;
use layout_optimizer::keyboard::KeyCode;
use layout_optimizer::keyboard::KeyboardLayout;
use layout_optimizer::trace::KeyEventResponse;
use layout_optimizer::trace::SubscriberRegistry;
use layout_optimizer::trace::combine_responses;
use layout_optimizer::trace::is_key_down_event;
use layout_optimizer::trace::key_from_virtual_code;
use layout_optimizer::trace::respond_to_key_press;

type Callback = Box<dyn Fn(KeyCode)>;

/// Deliver one event to every subscriber in registration order, as the
/// interception point does.
fn dispatch(registry: &SubscriberRegistry<Callback>, key: KeyCode) {
    for entry in registry.entries() {
        (entry.1)(key);
    }
}

#[test]
fn two_subscribers_each_see_the_event_once_in_order() {
    let log: Rc<RefCell<Vec<(u32, KeyCode)>>> = Rc::new(RefCell::new(Vec::new()));
    let mut registry: SubscriberRegistry<Callback> = SubscriberRegistry::new();
    let log1 = Rc::clone(&log);
    let first = registry
        .subscribe(Box::new(move |k| log1.borrow_mut().push((1, k))))
        .unwrap();
    let log2 = Rc::clone(&log);
    let _second = registry
        .subscribe(Box::new(move |k| log2.borrow_mut().push((2, k))))
        .unwrap();
    dispatch(&registry, KeyCode::A);
    assert_eq!(*log.borrow(), vec![(1, KeyCode::A), (2, KeyCode::A)]);
    // After removing the first subscriber, only the second one is invoked.
    registry.unsubscribe(first.id());
    dispatch(&registry, KeyCode::B);
    assert_eq!(
        *log.borrow(),
        vec![(1, KeyCode::A), (2, KeyCode::A), (2, KeyCode::B)]
    );
}

#[test]
fn subscription_ids_are_unique_and_ordered() {
    let mut registry: SubscriberRegistry<u32> = SubscriberRegistry::new();
    let a = registry.subscribe(10).unwrap();
    let b = registry.subscribe(20).unwrap();
    let c = registry.subscribe(30).unwrap();
    assert!(a.id() < b.id() && b.id() < c.id());
    assert_eq!(registry.len(), 3);
    registry.unsubscribe(b.id());
    assert_eq!(registry.len(), 2);
    let entries = registry.entries();
    assert_eq!((entries[0].0, entries[0].1), (a.id(), 10));
    assert_eq!((entries[1].0, entries[1].1), (c.id(), 30));
    // A fresh subscription never reuses a removed id.
    let d = registry.subscribe(40).unwrap();
    assert!(d.id() > c.id());
}

#[test]
fn unsubscribe_is_idempotent_and_ignores_unknown_ids() {
    let mut registry: SubscriberRegistry<u32> = SubscriberRegistry::new();
    let a = registry.subscribe(10).unwrap();
    registry.unsubscribe(a.id());
    registry.unsubscribe(a.id());
    registry.unsubscribe(12345);
    assert_eq!(registry.len(), 0);
}

#[test]
fn pass_through_without_an_active_layout() {
    let response = respond_to_key_press(&None, KeyCode::A);
    assert_eq!(response, KeyEventResponse::Continue);
}

#[test]
fn active_layout_suppresses_and_replaces() {
    // With an active layout, pressing a key synthesizes the active layout's
    // key at the pressed key's reference position.
    let mut active = KeyboardLayout::qwerty();
    active.set_key_at(1, 0, KeyCode::B);
    let response = respond_to_key_press(&Some(active), KeyCode::A);
    assert_eq!(response, KeyEventResponse::SuppressAndReplace(KeyCode::B));
    // A key the layout leaves in place is replaced by itself.
    let response = respond_to_key_press(&Some(active), KeyCode::Q);
    assert_eq!(response, KeyEventResponse::SuppressAndReplace(KeyCode::Q));
}

#[test]
fn first_non_default_response_wins() {
    let responses = vec![
        KeyEventResponse::Continue,
        KeyEventResponse::SuppressAndReplace(KeyCode::Z),
        KeyEventResponse::Suppress,
    ];
    assert_eq!(
        combine_responses(&responses),
        KeyEventResponse::SuppressAndReplace(KeyCode::Z)
    );
    let quiet = vec![KeyEventResponse::Continue, KeyEventResponse::Continue];
    assert_eq!(combine_responses(&quiet), KeyEventResponse::Continue);
    assert_eq!(combine_responses(&Vec::new()), KeyEventResponse::Continue);
}

#[test]
fn virtual_codes_normalize_to_recognized_keys() {
    assert_eq!(key_from_virtual_code(0x41), Some(KeyCode::A));
    assert_eq!(key_from_virtual_code(0x5A), Some(KeyCode::Z));
    assert_eq!(key_from_virtual_code(0xBA), Some(KeyCode::Semicolon));
    assert_eq!(key_from_virtual_code(0xBC), Some(KeyCode::Comma));
    assert_eq!(key_from_virtual_code(0xBE), Some(KeyCode::Dot));
    assert_eq!(key_from_virtual_code(0xBF), Some(KeyCode::Slash));
    // Digits, space and other hardware keys are outside the recognized set.
    assert_eq!(key_from_virtual_code(0x30), None);
    assert_eq!(key_from_virtual_code(0x20), None);
    assert_eq!(key_from_virtual_code(0x00), None);
}

#[test]
fn only_key_down_events_feed_the_stream() {
    assert!(is_key_down_event(0x0100));
    assert!(is_key_down_event(0x0104));
    assert!(!is_key_down_event(0x0101));
    assert!(!is_key_down_event(0x0105));
    assert!(!is_key_down_event(0));
}

#[test]
fn synthesized_codes_round_trip_through_normalization() {
    for i in 0..30 {
        let key = KeyCode::from_index(i);
        assert_eq!(key_from_virtual_code(virtual_key_of(key)), Some(key));
    }
}
