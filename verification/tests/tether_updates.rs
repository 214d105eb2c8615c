//! The asynchronous side: tether creations, position queries, and the
//! staleness check that guards their completions.

use manifold::broadcaster::Broadcaster;
use manifold::device::DeviceKind;

#[test]
fn advance_reports_one_tether_and_query_per_receiver() {
    let mut b = Broadcaster::new(DeviceKind::Mouse);
    b.on_candidate_entered("a".to_owned(), 10);
    b.on_candidate_entered("b".to_owned(), 11);
    let out = b.advance();
    assert_eq!(out.new_tethers.len(), 2);
    assert_eq!(out.position_queries.len(), 2);
    // Each query refers to the tether just created for the same receiver.
    for t in &out.new_tethers {
        let q = out.position_queries.iter().find(|q| q.id == t.id).unwrap();
        assert_eq!(q.tether, t.tether);
        assert_eq!(q.handle, t.handle);
    }
    // The next advance creates no further tethers but queries again.
    let out2 = b.advance();
    assert!(out2.new_tethers.is_empty());
    assert_eq!(out2.position_queries.len(), 2);
}

#[test]
fn tether_tokens_are_never_reused() {
    let mut b = Broadcaster::new(DeviceKind::Mouse);
    b.on_candidate_entered("a".to_owned(), 1);
    let out1 = b.advance();
    let first = out1.new_tethers[0].tether;

    b.on_candidate_left(&"a".to_owned());
    b.on_candidate_entered("a".to_owned(), 1);
    let out2 = b.advance();
    let second = out2.new_tethers[0].tether;
    assert_ne!(first, second);

    b.on_candidate_entered("b".to_owned(), 2);
    let out3 = b.advance();
    let third = out3.new_tethers[0].tether;
    assert_ne!(first, third);
    assert_ne!(second, third);
}

#[test]
fn completion_applies_only_while_tether_is_current() {
    let mut b = Broadcaster::new(DeviceKind::Keyboard);
    b.on_candidate_entered("r".to_owned(), 5);
    let out = b.advance();
    let token = out.position_queries[0].tether;
    assert!(b.tether_update_applies(&"r".to_owned(), token));

    // Once the receiver leaves, the in-flight completion must be discarded.
    b.on_candidate_left(&"r".to_owned());
    assert!(!b.tether_update_applies(&"r".to_owned(), token));

    // Even after the same identity re-enters and re-tethers, the stale
    // token never matches the fresh tether.
    b.on_candidate_entered("r".to_owned(), 5);
    assert!(!b.tether_update_applies(&"r".to_owned(), token));
    let out2 = b.advance();
    assert!(!b.tether_update_applies(&"r".to_owned(), token));
    let fresh = out2.position_queries[0].tether;
    assert!(b.tether_update_applies(&"r".to_owned(), fresh));
}

#[test]
fn interleaved_churn_keeps_the_registry_consistent() {
    let mut b = Broadcaster::new(DeviceKind::Keyboard);
    for round in 0..5u64 {
        b.on_candidate_entered(format!("r{round}"), round);
        if round % 2 == 0 {
            b.advance();
        }
        if round >= 2 {
            b.on_candidate_left(&format!("r{}", round - 2));
        }
    }
    // Rounds 3 and 4 remain; round 4 entered after the last advance.
    assert_eq!(b.connection_count(), 2);
    let out = b.advance();
    assert_eq!(out.position_queries.len(), 2);
    let m = b.send_key(1, true).unwrap();
    let mut ids: Vec<String> = m.targets.iter().map(|t| t.id.clone()).collect();
    ids.sort();
    assert_eq!(ids, vec!["r3".to_owned(), "r4".to_owned()]);
}

#[test]
fn queries_cover_exactly_the_registry() {
    let mut b = Broadcaster::new(DeviceKind::Keyboard);
    b.on_candidate_entered("a".to_owned(), 1);
    b.on_candidate_entered("b".to_owned(), 2);
    b.advance();
    b.on_candidate_left(&"a".to_owned());
    let out = b.advance();
    assert_eq!(out.position_queries.len(), 1);
    assert_eq!(out.position_queries[0].id, "b".to_owned());
}
