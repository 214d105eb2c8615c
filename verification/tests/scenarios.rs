//! End-to-end scenarios driving the broadcaster exactly as the host would:
//! volume notifications, per-tick advances and event sends.

use manifold::broadcaster::Broadcaster;
use manifold::connection::ConnectionState;
use manifold::device::DeviceKind;
use manifold::events::KeyEvent;
use manifold::events::Multicast;
use manifold::events::WireEvent;

fn key_event(keys_up: Vec<u32>, keys_down: Vec<u32>) -> WireEvent {
    WireEvent::Key(KeyEvent { keymap: None, keys_up, keys_down })
}

fn target_ids(m: &Multicast) -> Vec<String> {
    let mut ids: Vec<String> = m.targets.iter().map(|t| t.id.clone()).collect();
    ids.sort();
    ids
}

#[test]
fn empty_registry_send_is_noop() {
    let b = Broadcaster::new(DeviceKind::Keyboard);
    let m = b.send_event(key_event(vec![], vec![30]));
    assert!(m.is_none());
}

#[test]
fn single_receiver_lifecycle() {
    let mut b = Broadcaster::new(DeviceKind::Keyboard);
    // No receiver yet: sending is a no-op and must not panic.
    assert!(b.send_event(key_event(vec![], vec![30])).is_none());

    b.on_candidate_entered("r1".to_owned(), 7);
    let conn = b.get(&"r1".to_owned()).unwrap();
    assert_eq!(conn.state(), ConnectionState::Discovered);

    b.advance();
    let conn = b.get(&"r1".to_owned()).unwrap();
    assert_eq!(conn.state(), ConnectionState::Tethered);
    assert!(conn.tether.is_some());

    let m = b.send_event(key_event(vec![], vec![30])).unwrap();
    assert_eq!(target_ids(&m), vec!["r1".to_owned()]);
    assert_eq!(m.targets.len(), 1);
    assert_eq!(m.targets[0].handle, 7);

    b.on_candidate_left(&"r1".to_owned());
    assert!(b.send_event(key_event(vec![30], vec![])).is_none());
    assert!(b.get(&"r1".to_owned()).is_none());
}

#[test]
fn discovered_receivers_are_never_targeted() {
    let mut b = Broadcaster::new(DeviceKind::Keyboard);
    b.on_candidate_entered("a".to_owned(), 1);
    b.on_candidate_entered("b".to_owned(), 2);
    b.advance();
    // c enters after the tick: still Discovered, so not a target.
    b.on_candidate_entered("c".to_owned(), 3);
    let m = b.send_event(key_event(vec![], vec![30])).unwrap();
    assert_eq!(target_ids(&m), vec!["a".to_owned(), "b".to_owned()]);
}

#[test]
fn capability_payload_delivered_once_to_tethered_set() {
    let mut b = Broadcaster::new(DeviceKind::Keyboard);
    b.on_candidate_entered("a".to_owned(), 1);
    b.on_candidate_entered("b".to_owned(), 2);
    // Tether both; no payload configured, so no capability send.
    let out0 = b.advance();
    assert!(out0.capability_send.is_none());
    assert_eq!(b.get(&"a".to_owned()).unwrap().state(), ConnectionState::Tethered);
    assert_eq!(b.get(&"b".to_owned()).unwrap().state(), ConnectionState::Tethered);

    b.set_capability_payload(vec![0xde, 0xad]);
    assert!(!b.get(&"a".to_owned()).unwrap().delivered);
    assert!(!b.get(&"b".to_owned()).unwrap().delivered);

    // One advance: exactly one multicast to exactly {a, b}, both delivered.
    let out1 = b.advance();
    let send = out1.capability_send.expect("capability multicast due");
    assert_eq!(target_ids(&send), vec!["a".to_owned(), "b".to_owned()]);
    match &send.event {
        WireEvent::Key(k) => {
            assert_eq!(k.keymap.as_deref(), Some(&[0xde, 0xad][..]));
            assert!(k.keys_up.is_empty());
            assert!(k.keys_down.is_empty());
        }
        WireEvent::Pointer(_) => panic!("capability send must be a key event"),
    }
    assert_eq!(b.get(&"a".to_owned()).unwrap().state(), ConnectionState::Handshaken);
    assert_eq!(b.get(&"b".to_owned()).unwrap().state(), ConnectionState::Handshaken);

    // A second advance with no payload change sends nothing further.
    let out2 = b.advance();
    assert!(out2.capability_send.is_none());
}

#[test]
fn capability_payload_with_no_receivers_sends_nothing() {
    let mut b = Broadcaster::new(DeviceKind::Keyboard);
    b.set_capability_payload(vec![1, 2, 3]);
    let out = b.advance();
    assert!(out.capability_send.is_none());
    assert!(out.new_tethers.is_empty());
    assert!(out.position_queries.is_empty());
}

#[test]
fn changing_payload_forces_redelivery() {
    let mut b = Broadcaster::new(DeviceKind::Keyboard);
    b.on_candidate_entered("a".to_owned(), 1);
    b.set_capability_payload(vec![1]);
    let out1 = b.advance();
    assert!(out1.capability_send.is_some());
    assert!(b.get(&"a".to_owned()).unwrap().delivered);

    b.set_capability_payload(vec![2]);
    assert!(!b.get(&"a".to_owned()).unwrap().delivered);
    let out2 = b.advance();
    let send = out2.capability_send.expect("new payload must be redelivered");
    match &send.event {
        WireEvent::Key(k) => assert_eq!(k.keymap.as_deref(), Some(&[2][..])),
        WireEvent::Pointer(_) => panic!("capability send must be a key event"),
    }
}

#[test]
fn reentry_overwrites_to_fresh_discovered() {
    let mut b = Broadcaster::new(DeviceKind::Keyboard);
    b.set_capability_payload(vec![9]);
    b.on_candidate_entered("r".to_owned(), 1);
    b.advance();
    let conn = b.get(&"r".to_owned()).unwrap();
    assert!(conn.delivered);
    assert!(conn.tether.is_some());

    // Re-entry with no intervening advance: exactly one connection, fresh.
    b.on_candidate_entered("r".to_owned(), 2);
    b.on_candidate_entered("r".to_owned(), 2);
    assert_eq!(b.connection_count(), 1);
    let conn = b.get(&"r".to_owned()).unwrap();
    assert_eq!(conn.state(), ConnectionState::Discovered);
    assert_eq!(conn.handle, 2);
    assert!(conn.tether.is_none());
    assert!(!conn.delivered);
}

#[test]
fn receiver_entering_after_payload_gets_it_on_first_advance() {
    let mut b = Broadcaster::new(DeviceKind::Keyboard);
    b.set_capability_payload(vec![5, 6]);
    b.on_candidate_entered("late".to_owned(), 8);
    let conn = b.get(&"late".to_owned()).unwrap();
    assert!(conn.has_state);
    assert!(!conn.delivered);

    let out = b.advance();
    let send = out.capability_send.expect("payload owed to the newly tethered receiver");
    assert_eq!(target_ids(&send), vec!["late".to_owned()]);
    assert_eq!(b.get(&"late".to_owned()).unwrap().state(), ConnectionState::Handshaken);
}

#[test]
fn reentry_after_delivery_forces_resend() {
    let mut b = Broadcaster::new(DeviceKind::Keyboard);
    b.set_capability_payload(vec![7]);
    b.on_candidate_entered("r".to_owned(), 1);
    let out1 = b.advance();
    assert!(out1.capability_send.is_some());

    // The receiver drops out and comes back: treated as brand new, so the
    // payload goes out again on the next advance.
    b.on_candidate_left(&"r".to_owned());
    b.on_candidate_entered("r".to_owned(), 1);
    let out2 = b.advance();
    let send = out2.capability_send.expect("re-entered receiver must be re-sent the payload");
    assert_eq!(target_ids(&send), vec!["r".to_owned()]);
}

#[test]
fn removing_an_absent_receiver_is_a_noop() {
    let mut b = Broadcaster::new(DeviceKind::Mouse);
    b.on_candidate_left(&"ghost".to_owned());
    assert_eq!(b.connection_count(), 0);
    b.on_candidate_entered("m".to_owned(), 4);
    b.on_candidate_left(&"ghost".to_owned());
    assert_eq!(b.connection_count(), 1);
}
