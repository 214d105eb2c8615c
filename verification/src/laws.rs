//! The laws the broadcaster obeys across calls, stated over the relation
//! predicates its operations ensure and proved from them alone.
//!
//! Each law quantifies over whole broadcaster states: a hypothesis like
//! `entered_post(b0, b1, id, h)` says exactly that `b1` came out of
//! `on_candidate_entered(id, h)` run on `b0`, so every law holds of every
//! actual call sequence.

use vstd::prelude::*;

use crate::broadcaster::advance_post;
use crate::broadcaster::capability_due;
use crate::broadcaster::capability_multicast_matches;
use crate::broadcaster::entered_post;
use crate::broadcaster::left_post;
use crate::broadcaster::mark_delivered;
use crate::broadcaster::payload_post;
use crate::broadcaster::send_post;
use crate::broadcaster::tether_applies;
use crate::broadcaster::tethered_entries;
use crate::broadcaster::tethered_entry_rel;
use crate::broadcaster::undelivered_targets;
use crate::broadcaster::untethered_count;
use crate::broadcaster::AdvanceOutcome;
use crate::broadcaster::Broadcaster;
use crate::broadcaster::lemma_tethered_entries_props;
use crate::broadcaster::lemma_untethered_count_mono;
use crate::connection::ReceiverConnection;
use crate::events::Multicast;
use crate::events::WireEvent;
use crate::registry::connected_targets;
use crate::registry::has_id;
use crate::registry::ids_unique_targets;
use crate::registry::lemma_targets_exact;
use crate::registry::idx_of;
use crate::registry::lemma_lookup_at;
use crate::registry::lemma_targets_absent;
use crate::registry::Entry;

verus! {

/// A registry whose entries are all tethered is left untouched by the
/// tethering step.
proof fn lemma_step_identity(s: Seq<Entry>, base: int)
    requires
        forall|i: int| 0 <= i < s.len() ==> (#[trigger] s[i]).conn.tether is Some,
    ensures
        tethered_entries(s, base) == s,
        untethered_count(s) == 0,
    decreases s.len(),
{
    if s.len() > 0 {
        assert(forall|i: int| 0 <= i < s.drop_last().len() ==> s.drop_last()[i] == s[i]);
        lemma_step_identity(s.drop_last(), base);
        assert(s[s.len() - 1].conn.tether is Some);
        assert(tethered_entries(s, base) =~= s);
    }
}

/// With no delivery recorded anywhere, the undelivered set is exactly the
/// connected set.
proof fn lemma_undelivered_eq_connected(s: Seq<Entry>)
    requires
        forall|i: int| 0 <= i < s.len() ==> !(#[trigger] s[i]).conn.delivered,
    ensures
        undelivered_targets(s) == connected_targets(s),
    decreases s.len(),
{
    if s.len() > 0 {
        assert(forall|i: int| 0 <= i < s.drop_last().len() ==> s.drop_last()[i] == s[i]);
        lemma_undelivered_eq_connected(s.drop_last());
        assert(!s[s.len() - 1].conn.delivered);
    }
}

/// With every entry connected, the connected set has one target per entry.
proof fn lemma_connected_targets_full(s: Seq<Entry>)
    requires
        forall|i: int| 0 <= i < s.len() ==> (#[trigger] s[i]).conn.spec_connected(),
    ensures
        connected_targets(s).len() == s.len(),
    decreases s.len(),
{
    if s.len() > 0 {
        assert(forall|i: int| 0 <= i < s.drop_last().len() ==> s.drop_last()[i] == s[i]);
        lemma_connected_targets_full(s.drop_last());
        assert(s[s.len() - 1].conn.spec_connected());
    }
}

/// The undelivered set is empty exactly when every connected entry has been
/// delivered to.
proof fn lemma_undelivered_empty_iff(s: Seq<Entry>)
    ensures
        undelivered_targets(s).len() == 0 <==> forall|i: int|
            0 <= i < s.len() && (#[trigger] s[i]).conn.spec_connected() ==> s[i].conn.delivered,
    decreases s.len(),
{
    if s.len() > 0 {
        assert(forall|i: int| 0 <= i < s.drop_last().len() ==> s.drop_last()[i] == s[i]);
        lemma_undelivered_empty_iff(s.drop_last());
        assert(s[s.len() - 1] == s.last());
    }
}

/// Law: a receiver that has entered and seen one `advance` is connected —
/// its tether handle is present from then on.
pub proof fn law_entered_then_advance_tethered(
    b0: Broadcaster,
    b1: Broadcaster,
    b2: Broadcaster,
    out: AdvanceOutcome,
    id: String,
    handle: u64,
)
    requires
        b0.inv(),
        b1.inv(),
        b2.inv(),
        entered_post(b0, b1, id, handle),
        advance_post(b1, b2, out),
    ensures
        b2.spec_get(id@) is Some,
        b2.spec_get(id@)->Some_0.spec_connected(),
        b2.spec_get(id@)->Some_0.handle == handle,
{
    let s1 = b1.entries();
    let base = b1.next_tether as int;
    let stepped = tethered_entries(s1, base);
    assert(has_id(s1, id@));
    let i = idx_of(s1, id@);
    assert(0 <= i < s1.len() && s1[i].id@ == id@);
    lemma_tethered_entries_props(s1, base);
    assert(tethered_entry_rel(s1, base, i));
    lemma_lookup_at(s1, i);
    if capability_due(b1.payload, stepped) {
        assert(b2.entries()[i] == mark_delivered(stepped)[i]);
    } else {
        assert(b2.entries()[i] == stepped[i]);
    }
    assert(b2.entries()[i].id@ == id@ && b2.entries()[i].conn.tether is Some
        && b2.entries()[i].conn.handle == s1[i].conn.handle);
    lemma_lookup_at(b2.entries(), i);
}

/// Law: after any `advance`, every connection in the registry is
/// connected: no entry is ever left `Discovered` past a tick that saw it.
pub proof fn law_advance_connects_all(
    b1: Broadcaster,
    b2: Broadcaster,
    out: AdvanceOutcome,
)
    requires
        b1.inv(),
        b2.inv(),
        advance_post(b1, b2, out),
    ensures
        forall|k: Seq<char>|
            #[trigger] b2.spec_get(k) is Some ==> b2.spec_get(k)->Some_0.spec_connected(),
{
    let s1 = b1.entries();
    let base = b1.next_tether as int;
    let stepped = tethered_entries(s1, base);
    lemma_tethered_entries_props(s1, base);
    assert forall|k: Seq<char>| #[trigger] b2.spec_get(k) is Some implies b2.spec_get(
        k,
    )->Some_0.spec_connected() by {
        let i = idx_of(b2.entries(), k);
        assert(0 <= i < b2.entries().len() && b2.entries()[i].id@ == k);
        lemma_lookup_at(b2.entries(), i);
        assert(tethered_entry_rel(s1, base, i));
        if capability_due(b1.payload, stepped) {
            assert(b2.entries()[i] == mark_delivered(stepped)[i]);
        } else {
            assert(b2.entries()[i] == stepped[i]);
        }
    }
}

/// Law: once a receiver has left, it is absent from the registry, it is
/// never again among the multicast targets, and any asynchronous position
/// result for it — whatever tether it was issued for — fails the staleness
/// check and is discarded.
pub proof fn law_left_never_yields(b0: Broadcaster, b1: Broadcaster, id: Seq<char>)
    requires
        b0.inv(),
        b1.inv(),
        left_post(b0, b1, id),
    ensures
        b1.spec_get(id) is None,
        forall|j: int|
            0 <= j < connected_targets(b1.entries()).len() ==> #[trigger] connected_targets(
                b1.entries(),
            )[j].id@ != id,
        forall|t: u64| !tether_applies(b1, id, t),
{
    assert(!has_id(b1.entries(), id));
    lemma_targets_absent(b1.entries(), id);
}

/// Law: a query issued for a tether of a since-departed connection never
/// applies again, even after the same identity re-enters and is advanced to
/// a fresh tether — tokens are never reused, so the stale completion is
/// discarded rather than resurrecting or corrupting the new connection.
pub proof fn law_stale_query_never_applies(
    b0: Broadcaster,
    b1: Broadcaster,
    b2: Broadcaster,
    b3: Broadcaster,
    out: AdvanceOutcome,
    id: Seq<char>,
    id2: String,
    handle: u64,
    t: u64,
)
    requires
        b0.inv(),
        b1.inv(),
        b2.inv(),
        b3.inv(),
        tether_applies(b0, id, t),
        left_post(b0, b1, id),
        entered_post(b1, b2, id2, handle),
        id2@ == id,
        advance_post(b2, b3, out),
    ensures
        !tether_applies(b1, id, t),
        !tether_applies(b2, id, t),
        !tether_applies(b3, id, t),
{
    let s0 = b0.entries();
    let i0 = idx_of(s0, id);
    assert(0 <= i0 < s0.len() && s0[i0].id@ == id);
    lemma_lookup_at(s0, i0);
    assert(s0[i0].conn.wf(b0.next_tether, b0.payload is Some));
    assert(t < b0.next_tether);
    // After re-entry the connection is fresh and untethered.
    assert(b2.spec_get(id) == Some(ReceiverConnection::spec_fresh(handle, b1.payload is Some)));
    // After the advance it holds a token at or above the counter, which
    // never went below its value at the time `t` was issued.
    let s2 = b2.entries();
    let base = b2.next_tether as int;
    let i = idx_of(s2, id);
    assert(0 <= i < s2.len() && s2[i].id@ == id);
    lemma_lookup_at(s2, i);
    assert(s2[i].conn.tether is None);
    lemma_tethered_entries_props(s2, base);
    assert(tethered_entry_rel(s2, base, i));
    let stepped = tethered_entries(s2, base);
    lemma_untethered_count_mono(s2, i, s2.len() as int);
    assert(s2.take(s2.len() as int) =~= s2);
    assert(base + untethered_count(s2.take(i)) <= base + untethered_count(s2) <= u64::MAX);
    if capability_due(b2.payload, stepped) {
        assert(b3.entries()[i] == mark_delivered(stepped)[i]);
    } else {
        assert(b3.entries()[i] == stepped[i]);
    }
    assert(b3.entries()[i].id@ == id);
    assert(b3.entries()[i].conn.tether == Some(((base + untethered_count(s2.take(i))) as u64)));
    lemma_lookup_at(b3.entries(), i);
    assert(b3.spec_get(id)->Some_0.tether->Some_0 >= b2.next_tether);
    assert(b2.next_tether == b0.next_tether);
}

/// Law: re-entry with no `advance` in between leaves exactly one
/// connection under the identity, freshly `Discovered`, and disturbs no
/// other connection.
pub proof fn law_reenter_idempotent(
    b0: Broadcaster,
    b1: Broadcaster,
    b2: Broadcaster,
    id1: String,
    id2: String,
    handle: u64,
)
    requires
        b0.inv(),
        b1.inv(),
        b2.inv(),
        entered_post(b0, b1, id1, handle),
        entered_post(b1, b2, id2, handle),
        id1@ == id2@,
    ensures
        b2.entries().len() == b1.entries().len(),
        b2.spec_get(id1@) == Some(ReceiverConnection::spec_fresh(handle, b0.payload is Some)),
        b2.spec_get(id1@)->Some_0.spec_state() is Discovered,
        forall|k: Seq<char>| k != id1@ ==> #[trigger] b2.spec_get(k) == b1.spec_get(k),
{
    assert(has_id(b1.entries(), id2@));
}

/// Law: with a capability payload just configured and every current
/// connection tethered, one `advance` issues exactly one multicast of the
/// payload to exactly that connected set and marks every one of them
/// delivered.
pub proof fn law_payload_delivered_once(
    b0: Broadcaster,
    b1: Broadcaster,
    b2: Broadcaster,
    out: AdvanceOutcome,
    blob: Vec<u8>,
)
    requires
        b0.inv(),
        b1.inv(),
        b2.inv(),
        payload_post(b0, b1, blob),
        b1.entries().len() > 0,
        forall|i: int|
            0 <= i < b1.entries().len() ==> (#[trigger] b1.entries()[i]).conn.spec_connected(),
        advance_post(b1, b2, out),
    ensures
        out.capability_send is Some,
        capability_multicast_matches(
            out.capability_send->Some_0,
            blob@,
            connected_targets(b1.entries()),
        ),
        forall|k: Seq<char>|
            #[trigger] b2.spec_get(k) is Some ==> b2.spec_get(k)->Some_0.delivered,
{
    let s1 = b1.entries();
    let base = b1.next_tether as int;
    lemma_step_identity(s1, base);
    assert(forall|i: int| 0 <= i < s1.len() ==> !(#[trigger] s1[i]).conn.delivered);
    lemma_undelivered_eq_connected(s1);
    lemma_connected_targets_full(s1);
    assert(b2.entries() == mark_delivered(s1));
    assert forall|k: Seq<char>| #[trigger] b2.spec_get(k) is Some implies b2.spec_get(
        k,
    )->Some_0.delivered by {
        let i = idx_of(b2.entries(), k);
        assert(0 <= i < b2.entries().len() && b2.entries()[i].id@ == k);
        lemma_lookup_at(b2.entries(), i);
    }
}

/// Law: after an `advance` under a configured payload, a second `advance`
/// with no payload change issues no further capability multicast.
pub proof fn law_no_redelivery(
    b1: Broadcaster,
    b2: Broadcaster,
    b3: Broadcaster,
    out1: AdvanceOutcome,
    out2: AdvanceOutcome,
)
    requires
        b1.inv(),
        b2.inv(),
        b3.inv(),
        b1.payload is Some,
        advance_post(b1, b2, out1),
        advance_post(b2, b3, out2),
    ensures
        out2.capability_send is None,
{
    let s1 = b1.entries();
    let base1 = b1.next_tether as int;
    let stepped1 = tethered_entries(s1, base1);
    lemma_tethered_entries_props(s1, base1);
    lemma_undelivered_empty_iff(stepped1);
    let s2 = b2.entries();
    let base2 = b2.next_tether as int;
    assert forall|i: int| 0 <= i < s2.len() implies (#[trigger] s2[i]).conn.tether is Some by {
        assert(tethered_entry_rel(s1, base1, i));
        if capability_due(b1.payload, stepped1) {
            assert(s2[i] == mark_delivered(stepped1)[i]);
        } else {
            assert(s2[i] == stepped1[i]);
        }
    }
    assert forall|i: int|
        0 <= i < s2.len() && (#[trigger] s2[i]).conn.spec_connected() implies s2[i].conn.delivered by {
        assert(tethered_entry_rel(s1, base1, i));
        if capability_due(b1.payload, stepped1) {
            assert(s2[i] == mark_delivered(stepped1)[i]);
        } else {
            assert(s2[i] == stepped1[i]);
        }
    }
    lemma_step_identity(s2, base2);
    lemma_undelivered_empty_iff(s2);
}

/// Law: a multicast built by `send_event` targets exactly the connected
/// set — every target is a currently-registered connected receiver under
/// its own identity and handle, every connected receiver is targeted, and
/// no identity is targeted twice. Receivers still `Discovered` are never
/// targeted.
pub proof fn law_send_targets_exact(b: Broadcaster, event: WireEvent, m: Option<Multicast>)
    requires
        b.inv(),
        send_post(b, event, m),
        m is Some,
    ensures
        forall|j: int|
            0 <= j < m->Some_0.targets@.len() ==> {
                let t = #[trigger] m->Some_0.targets@[j];
                &&& b.spec_get(t.id@) is Some
                &&& b.spec_get(t.id@)->Some_0.spec_connected()
                &&& b.spec_get(t.id@)->Some_0.handle == t.handle
            },
        forall|i: int|
            0 <= i < b.entries().len() && (#[trigger] b.entries()[i]).conn.spec_connected()
                ==> exists|j: int|
                0 <= j < m->Some_0.targets@.len() && (#[trigger] m->Some_0.targets@[j]).id@
                    == b.entries()[i].id@,
        ids_unique_targets(m->Some_0.targets@),
{
    lemma_targets_exact(b.entries());
}

/// Law: with no connected receiver, `send_event` sends nothing — and it
/// never fails, being total.
pub proof fn law_send_empty_is_noop(b: Broadcaster, event: WireEvent, m: Option<Multicast>)
    requires
        connected_targets(b.entries()).len() == 0,
        send_post(b, event, m),
    ensures
        m is None,
{
}

} // verus!
