//! Event construction, target selection, and the per-device-kind constants.

use manifold::broadcaster::Broadcaster;
use manifold::device::ColorPerMille;
use manifold::device::DeviceKind;
use manifold::device::SizeMicrometres;
use manifold::device::ASSET_NAMESPACE;
use manifold::device::TETHER_THICKNESS_PER_MILLE;
use manifold::events::clone_bytes;
use manifold::events::Vec2Bits;
use manifold::events::WireEvent;
use manifold::registry::ReceiverRegistry;

#[test]
fn send_key_builds_the_right_lists() {
    let mut b = Broadcaster::new(DeviceKind::Keyboard);
    b.on_candidate_entered("r".to_owned(), 1);
    b.advance();

    let pressed = b.send_key(30, true).unwrap();
    match &pressed.event {
        WireEvent::Key(k) => {
            assert!(k.keymap.is_none());
            assert_eq!(k.keys_down, vec![30]);
            assert!(k.keys_up.is_empty());
        }
        WireEvent::Pointer(_) => panic!("send_key must build a key event"),
    }

    let released = b.send_key(30, false).unwrap();
    match &released.event {
        WireEvent::Key(k) => {
            assert!(k.keymap.is_none());
            assert_eq!(k.keys_up, vec![30]);
            assert!(k.keys_down.is_empty());
        }
        WireEvent::Pointer(_) => panic!("send_key must build a key event"),
    }
}

#[test]
fn send_key_with_no_receiver_is_noop() {
    let b = Broadcaster::new(DeviceKind::Keyboard);
    assert!(b.send_key(30, true).is_none());
}

#[test]
fn pointer_event_fields_pass_through_untouched() {
    let mut b = Broadcaster::new(DeviceKind::Mouse);
    b.on_candidate_entered("m".to_owned(), 9);
    b.advance();
    let delta = Some(Vec2Bits { x: 0x3f80_0000, y: 0xbf80_0000 });
    let steps = Some(Vec2Bits { x: 0, y: 0x4000_0000 });
    let m = b
        .send_pointer_event(delta, None, steps, vec![0x110], vec![0x111, 0x112])
        .unwrap();
    match &m.event {
        WireEvent::Pointer(p) => {
            assert_eq!(p.delta, delta);
            assert_eq!(p.scroll_distance, None);
            assert_eq!(p.scroll_steps, steps);
            assert_eq!(p.buttons_up, vec![0x110]);
            assert_eq!(p.buttons_down, vec![0x111, 0x112]);
        }
        WireEvent::Key(_) => panic!("pointer send must build a pointer event"),
    }
    assert_eq!(m.targets.len(), 1);
    assert_eq!(m.targets[0].handle, 9);
}

#[test]
fn iter_connected_is_restartable() {
    let mut b = Broadcaster::new(DeviceKind::Mouse);
    b.on_candidate_entered("a".to_owned(), 1);
    b.on_candidate_entered("b".to_owned(), 2);
    b.advance();
    let first = b.iter_connected();
    let second = b.iter_connected();
    assert_eq!(first, second);
    assert_eq!(first.len(), 2);
}

#[test]
fn registry_insert_overwrites_and_remove_is_idempotent() {
    let mut r = ReceiverRegistry::new();
    assert_eq!(r.len(), 0);
    let fresh = manifold::connection::ReceiverConnection::fresh(1, false);
    r.insert("x".to_owned(), fresh);
    r.insert("x".to_owned(), manifold::connection::ReceiverConnection::fresh(2, false));
    assert_eq!(r.len(), 1);
    assert_eq!(r.get(&"x".to_owned()).unwrap().handle, 2);
    r.remove(&"x".to_owned());
    r.remove(&"x".to_owned());
    assert_eq!(r.len(), 0);
    assert!(r.get(&"x".to_owned()).is_none());
}

#[test]
fn device_footprints_are_exact() {
    assert_eq!(
        DeviceKind::Keyboard.footprint(),
        SizeMicrometres { x: 50000, y: 30000, z: 4000 }
    );
    assert_eq!(
        DeviceKind::Mouse.footprint(),
        SizeMicrometres { x: 18000, y: 27379, z: 4000 }
    );
    assert_eq!(
        DeviceKind::Keyboard.emit_point(),
        SizeMicrometres { x: 0, y: 17667, z: 0 }
    );
    assert_eq!(
        DeviceKind::Mouse.emit_point(),
        SizeMicrometres { x: 0, y: 17667, z: 0 }
    );
}

#[test]
fn device_styling_is_exact() {
    assert_eq!(
        DeviceKind::Keyboard.tether_color(),
        ColorPerMille { r: 576, g: 380, b: 910, a: 1000 }
    );
    assert_eq!(
        DeviceKind::Mouse.tether_color(),
        ColorPerMille { r: 141, g: 886, b: 521, a: 1000 }
    );
    assert_eq!(TETHER_THICKNESS_PER_MILLE, 5);
    assert_eq!(ASSET_NAMESPACE, "manifold");
    assert_eq!(DeviceKind::Keyboard.asset_name(), "keyboard");
    assert_eq!(DeviceKind::Mouse.asset_name(), "mouse");
}

#[test]
fn scalar_bits_round_trip() {
    // The library forwards pointer scalars as opaque bit patterns; the
    // driver's encode/decode convention must be lossless.
    let v = Vec2Bits { x: 3.5f32.to_bits(), y: (-1.25f32).to_bits() };
    assert_eq!(f32::from_bits(v.x), 3.5);
    assert_eq!(f32::from_bits(v.y), -1.25);
}

#[test]
fn clone_bytes_copies_exactly() {
    let v: Vec<u8> = vec![0, 255, 3, 7];
    assert_eq!(clone_bytes(&v), v);
    let empty: Vec<u8> = vec![];
    assert_eq!(clone_bytes(&empty), empty);
}
