//! The broadcaster: the per-device decision core.
//!
//! It owns the receiver registry, the process-wide capability payload (the
//! compiled keymap blob, keyboard only) and the tether-token counter. Its
//! operations are driven from outside: the host's volume notifications call
//! `on_candidate_entered` / `on_candidate_left`, the per-tick update calls
//! `advance`, and the input collaborator calls the send operations. Every
//! operation is synchronous and total; scene-graph work is returned as plain
//! data (tether creations, position queries, multicasts) for the driver to
//! perform, so the per-receiver asynchronous completions can be checked
//! against the registry with `tether_update_applies` when they land.

use vstd::prelude::*;

use crate::connection::ReceiverConnection;
use crate::device::DeviceKind;
use crate::events::clone_bytes;
use crate::events::KeyEvent;
use crate::events::Multicast;
use crate::events::PointerEvent;
use crate::events::Vec2Bits;
use crate::events::WireEvent;
use crate::registry::connected_targets;
use crate::registry::has_id;
use crate::registry::idx_of;
use crate::registry::ids_unique;
use crate::registry::lookup;
use crate::registry::Entry;
use crate::registry::ReceiverRegistry;
use crate::registry::SendTarget;

verus! {

/// A reference to one receiver's tether: the receiver's identity and handle,
/// and the token of the tether line. Returned from `advance` both for tether
/// lines the driver must create and for the relative-position queries it
/// must launch.
#[derive(Clone, Debug, PartialEq, Eq)]
pub struct TetherRef {
    pub id: String,
    pub handle: u64,
    pub tether: u64,
}

/// Everything one `advance` call asks the driver to do.
#[derive(Clone, Debug)]
pub struct AdvanceOutcome {
    /// Tether lines to create, one per receiver tethered by this call.
    pub new_tethers: Vec<TetherRef>,
    /// Relative-position queries to launch, one per tethered receiver.
    /// Completions are fire-and-forget; a completion whose tether token no
    /// longer matches the registry must be discarded.
    pub position_queries: Vec<TetherRef>,
    /// The capability-payload multicast to send, if one is due this tick.
    pub capability_send: Option<Multicast>,
}

/// Number of entries still awaiting a tether.
pub open spec fn untethered_count(s: Seq<Entry>) -> nat
    decreases s.len(),
{
    if s.len() == 0 {
        0
    } else {
        untethered_count(s.drop_last()) + if s.last().conn.tether is None {
            1nat
        } else {
            0nat
        }
    }
}

/// The entries after the tethering step: every untethered entry receives the
/// next unissued token, in entry order starting from `base`.
pub open spec fn tethered_entries(s: Seq<Entry>, base: int) -> Seq<Entry>
    decreases s.len(),
{
    if s.len() == 0 {
        s
    } else {
        let front = tethered_entries(s.drop_last(), base);
        let e = s.last();
        if e.conn.tether is None {
            front.push(
                Entry {
                    id: e.id,
                    conn: ReceiverConnection {
                        handle: e.conn.handle,
                        tether: Some(((base + untethered_count(s.drop_last())) as u64)),
                        has_state: e.conn.has_state,
                        delivered: e.conn.delivered,
                    },
                },
            )
        } else {
            front.push(e)
        }
    }
}

/// The tether lines the tethering step asks the driver to create.
pub open spec fn tether_creations(s: Seq<Entry>, base: int) -> Seq<TetherRef>
    decreases s.len(),
{
    if s.len() == 0 {
        Seq::empty()
    } else {
        let front = tether_creations(s.drop_last(), base);
        let e = s.last();
        if e.conn.tether is None {
            front.push(
                TetherRef {
                    id: e.id,
                    handle: e.conn.handle,
                    tether: ((base + untethered_count(s.drop_last())) as u64),
                },
            )
        } else {
            front
        }
    }
}

/// One relative-position query per entry, in entry order. Meaningful for
/// a registry whose entries are all tethered.
pub open spec fn position_queries_of(s: Seq<Entry>) -> Seq<TetherRef> {
    s.map_values(
        |e: Entry|
            TetherRef { id: e.id, handle: e.conn.handle, tether: e.conn.tether->Some_0 },
    )
}

/// The multicast destinations of the connected entries that have not yet
/// received the capability payload, in entry order.
pub open spec fn undelivered_targets(s: Seq<Entry>) -> Seq<SendTarget>
    decreases s.len(),
{
    if s.len() == 0 {
        Seq::empty()
    } else {
        let front = undelivered_targets(s.drop_last());
        let e = s.last();
        if e.conn.spec_connected() && !e.conn.delivered {
            front.push(SendTarget { id: e.id, handle: e.conn.handle })
        } else {
            front
        }
    }
}

/// Every entry marked as having received the capability payload.
pub open spec fn mark_delivered(s: Seq<Entry>) -> Seq<Entry> {
    s.map_values(
        |e: Entry|
            Entry {
                id: e.id,
                conn: ReceiverConnection {
                    handle: e.conn.handle,
                    tether: e.conn.tether,
                    has_state: e.conn.has_state,
                    delivered: true,
                },
            },
    )
}

/// Every entry's protocol state recomputed and its delivery flag cleared,
/// as a payload change demands.
pub open spec fn payload_reset(s: Seq<Entry>) -> Seq<Entry> {
    s.map_values(
        |e: Entry|
            Entry {
                id: e.id,
                conn: ReceiverConnection {
                    handle: e.conn.handle,
                    tether: e.conn.tether,
                    has_state: true,
                    delivered: false,
                },
            },
    )
}

/// `untethered_count` never exceeds the number of entries.
pub proof fn lemma_untethered_count_le(s: Seq<Entry>)
    ensures
        untethered_count(s) <= s.len(),
    decreases s.len(),
{
    if s.len() > 0 {
        lemma_untethered_count_le(s.drop_last());
    }
}

/// Unfolds `untethered_count` one step along a prefix of `s`.
proof fn lemma_untethered_count_step(s: Seq<Entry>, i: int)
    requires
        0 <= i < s.len(),
    ensures
        untethered_count(s.take(i + 1)) == untethered_count(s.take(i)) + (if s[i].conn.tether
            is None {
            1int
        } else {
            0int
        }),
{
    assert(s.take(i + 1).drop_last() =~= s.take(i));
    assert(s.take(i + 1).last() == s[i]);
}

/// `untethered_count` over prefixes is monotone, strictly across an
/// untethered entry.
pub proof fn lemma_untethered_count_mono(s: Seq<Entry>, i: int, j: int)
    requires
        0 <= i <= j <= s.len(),
    ensures
        untethered_count(s.take(i)) <= untethered_count(s.take(j)),
        i < j && s[i].conn.tether is None ==> untethered_count(s.take(i)) < untethered_count(
            s.take(j),
        ),
    decreases j - i,
{
    if i < j {
        lemma_untethered_count_step(s, i);
        lemma_untethered_count_mono(s, i + 1, j);
    }
}

/// How entry `i` of the stepped entries relates to entry `i` before the
/// step: identity and protocol fields unchanged, tether present, and a
/// previously untethered entry holds the token its rank assigns it.
pub open spec fn tethered_entry_rel(s: Seq<Entry>, base: int, i: int) -> bool {
    let e0 = s[i];
    let e1 = tethered_entries(s, base)[i];
    &&& e1.id == e0.id
    &&& e1.conn.handle == e0.conn.handle
    &&& e1.conn.has_state == e0.conn.has_state
    &&& e1.conn.delivered == e0.conn.delivered
    &&& e1.conn.tether is Some
    &&& (e0.conn.tether is Some ==> e1.conn.tether == e0.conn.tether)
    &&& (e0.conn.tether is None ==> e1.conn.tether == Some(
        ((base + untethered_count(s.take(i))) as u64),
    ))
}

/// Pointwise characterisation of the tethering step.
pub proof fn lemma_tethered_entries_props(s: Seq<Entry>, base: int)
    ensures
        tethered_entries(s, base).len() == s.len(),
        forall|i: int| 0 <= i < s.len() ==> #[trigger] tethered_entry_rel(s, base, i),
    decreases s.len(),
{
    if s.len() > 0 {
        let front = s.drop_last();
        lemma_tethered_entries_props(front, base);
        assert(forall|i: int| 0 <= i < front.len() ==> front[i] == s[i]);
        assert forall|i: int| 0 <= i < s.len() implies #[trigger] tethered_entry_rel(
            s,
            base,
            i,
        ) by {
            if i < s.len() - 1 {
                assert(s.take(i) =~= front.take(i));
                assert(tethered_entries(s, base)[i] == tethered_entries(front, base)[i]);
                assert(tethered_entry_rel(front, base, i));
            } else {
                assert(s.take(i) =~= front);
            }
        }
    }
}

/// Unfolds the tethering step (entries and creations) one step along a
/// prefix of `s`.
proof fn lemma_tether_step(s: Seq<Entry>, base: int, i: int)
    requires
        0 <= i < s.len(),
    ensures
        s[i].conn.tether is None ==> {
            &&& tethered_entries(s.take(i + 1), base) == tethered_entries(s.take(i), base).push(
                (Entry {
                    id: s[i].id,
                    conn: ReceiverConnection {
                        handle: s[i].conn.handle,
                        tether: Some(((base + untethered_count(s.take(i))) as u64)),
                        has_state: s[i].conn.has_state,
                        delivered: s[i].conn.delivered,
                    },
                }),
            )
            &&& tether_creations(s.take(i + 1), base) == tether_creations(s.take(i), base).push(
                (TetherRef {
                    id: s[i].id,
                    handle: s[i].conn.handle,
                    tether: ((base + untethered_count(s.take(i))) as u64),
                }),
            )
        },
        s[i].conn.tether is Some ==> {
            &&& tethered_entries(s.take(i + 1), base) == tethered_entries(s.take(i), base).push(
                s[i],
            )
            &&& tether_creations(s.take(i + 1), base) == tether_creations(s.take(i), base)
        },
{
    assert(s.take(i + 1).drop_last() =~= s.take(i));
    assert(s.take(i + 1).last() == s[i]);
}

/// Unfolds `undelivered_targets` one step along a prefix of `s`.
proof fn lemma_undelivered_step(s: Seq<Entry>, i: int)
    requires
        0 <= i < s.len(),
    ensures
        undelivered_targets(s.take(i + 1)) == if s[i].conn.spec_connected()
            && !s[i].conn.delivered {
            undelivered_targets(s.take(i)).push(
                (SendTarget { id: s[i].id, handle: s[i].conn.handle }),
            )
        } else {
            undelivered_targets(s.take(i))
        },
{
    assert(s.take(i + 1).drop_last() =~= s.take(i));
    assert(s.take(i + 1).last() == s[i]);
}

/// The broadcaster: registry, capability payload and tether-token counter
/// for one emitted device.
pub struct Broadcaster {
    pub kind: DeviceKind,
    pub registry: ReceiverRegistry,
    /// The capability payload every receiver must be sent once before it can
    /// interpret events (keyboard: the compiled keymap blob). `None` until
    /// configured; mouse devices never configure one.
    pub payload: Option<Vec<u8>>,
    /// The next tether token to issue. Tokens are issued in increasing order
    /// and never reused, so a token from a dropped connection can never
    /// match a live one.
    pub next_tether: u64,
}

impl Broadcaster {
    /// The registry's entry table.
    pub open spec fn entries(&self) -> Seq<Entry> {
        self.registry@
    }

    /// Whether a capability payload is configured.
    pub open spec fn payload_set(&self) -> bool {
        self.payload is Some
    }

    /// Well-formedness: identities are unique, every connection is
    /// consistent with the payload and the token counter, and no two live
    /// connections share a tether token.
    pub open spec fn inv(&self) -> bool {
        &&& ids_unique(self.entries())
        &&& forall|i: int|
            0 <= i < self.entries().len() ==> (#[trigger] self.entries()[i]).conn.wf(
                self.next_tether,
                self.payload is Some,
            )
        &&& forall|i: int, j: int|
            0 <= i < j < self.entries().len() && self.entries()[i].conn.tether is Some
                && self.entries()[j].conn.tether is Some ==> self.entries()[i].conn.tether->Some_0
                != self.entries()[j].conn.tether->Some_0
    }

    /// The connection recorded for `id`, if any.
    pub open spec fn spec_get(&self, id: Seq<char>) -> Option<ReceiverConnection> {
        lookup(self.entries(), id)
    }
}

/// Relation between the states before and after `on_candidate_entered`:
/// a fresh `Discovered` connection stands under `id`, replacing any prior
/// one, and nothing else changed.
pub open spec fn entered_post(pre: Broadcaster, post: Broadcaster, id: String, handle: u64) -> bool {
    let fresh = ReceiverConnection::spec_fresh(handle, pre.payload is Some);
    &&& post.kind == pre.kind
    &&& post.payload == pre.payload
    &&& post.next_tether == pre.next_tether
    &&& post.entries() == (if has_id(pre.entries(), id@) {
        pre.entries().update(idx_of(pre.entries(), id@), (Entry { id, conn: fresh }))
    } else {
        pre.entries().push((Entry { id, conn: fresh }))
    })
    &&& lookup(post.entries(), id@) == Some(fresh)
    &&& forall|k: Seq<char>|
        k != id@ ==> #[trigger] lookup(post.entries(), k) == lookup(pre.entries(), k)
    &&& post.entries().len() == pre.entries().len() + (if has_id(pre.entries(), id@) {
        0int
    } else {
        1int
    })
}

/// Relation between the states before and after `on_candidate_left`: no
/// connection stands under `id` any more, and nothing else changed.
pub open spec fn left_post(pre: Broadcaster, post: Broadcaster, id: Seq<char>) -> bool {
    &&& post.kind == pre.kind
    &&& post.payload == pre.payload
    &&& post.next_tether == pre.next_tether
    &&& post.entries() == (if has_id(pre.entries(), id) {
        pre.entries().remove(idx_of(pre.entries(), id))
    } else {
        pre.entries()
    })
    &&& lookup(post.entries(), id) is None
    &&& forall|k: Seq<char>|
        k != id ==> #[trigger] lookup(post.entries(), k) == lookup(pre.entries(), k)
    &&& post.entries().len() == pre.entries().len() - (if has_id(pre.entries(), id) {
        1int
    } else {
        0int
    })
}

/// Relation between the states before and after `set_capability_payload`:
/// the payload is `blob`, every connection's protocol state is recomputed
/// and its delivery flag cleared, and nothing else changed.
pub open spec fn payload_post(pre: Broadcaster, post: Broadcaster, blob: Vec<u8>) -> bool {
    &&& post.kind == pre.kind
    &&& post.next_tether == pre.next_tether
    &&& post.payload == Some(blob)
    &&& post.entries() == payload_reset(pre.entries())
}

/// The capability multicast due over the stepped entries `s`: due exactly
/// when a payload is configured and some connected entry has not received
/// it.
pub open spec fn capability_due(payload: Option<Vec<u8>>, s: Seq<Entry>) -> bool {
    payload is Some && undelivered_targets(s).len() > 0
}

/// `m` is the capability multicast of `blob` to exactly `targets`.
pub open spec fn capability_multicast_matches(
    m: Multicast,
    blob: Seq<u8>,
    targets: Seq<SendTarget>,
) -> bool {
    &&& m.targets@ == targets
    &&& m.event is Key
    &&& m.event->Key_0.keymap is Some
    &&& m.event->Key_0.keymap->Some_0@ == blob
    &&& m.event->Key_0.keys_up@ == Seq::<u32>::empty()
    &&& m.event->Key_0.keys_down@ == Seq::<u32>::empty()
}

/// Relation between the states before and after `advance`, and the actions
/// it returns: every entry is tethered afterwards (new tethers drawing
/// fresh tokens in entry order), one position query per entry is launched,
/// and the capability batch is sent to exactly the connected-undelivered
/// set and marked delivered, when due.
pub open spec fn advance_post(pre: Broadcaster, post: Broadcaster, out: AdvanceOutcome) -> bool {
    let base = pre.next_tether as int;
    let stepped = tethered_entries(pre.entries(), base);
    let batch = capability_due(pre.payload, stepped);
    &&& post.kind == pre.kind
    &&& post.payload == pre.payload
    &&& post.next_tether == pre.next_tether + untethered_count(pre.entries())
    &&& post.entries() == (if batch {
        mark_delivered(stepped)
    } else {
        stepped
    })
    &&& out.new_tethers@ == tether_creations(pre.entries(), base)
    &&& out.position_queries@ == position_queries_of(stepped)
    &&& (batch ==> out.capability_send is Some && capability_multicast_matches(
        out.capability_send->Some_0,
        pre.payload->Some_0@,
        undelivered_targets(stepped),
    ))
    &&& (!batch ==> out.capability_send is None)
}

/// Whether an asynchronous position result for `id`, issued for tether
/// token `tether`, may still be applied to `b`'s registry.
pub open spec fn tether_applies(b: Broadcaster, id: Seq<char>, tether: u64) -> bool {
    b.spec_get(id) is Some && b.spec_get(id)->Some_0.tether == Some(tether)
}

/// Relation between a broadcaster, an event handed to `send_event`, and the
/// multicast returned: the connected set is targeted exactly, and an empty
/// connected set sends nothing.
pub open spec fn send_post(b: Broadcaster, event: WireEvent, m: Option<Multicast>) -> bool {
    let ts = connected_targets(b.entries());
    &&& (m is None <==> ts.len() == 0)
    &&& (m is Some ==> m->Some_0.event == event && m->Some_0.targets@ == ts)
}

impl Broadcaster {
    /// A broadcaster for one device of the given kind, with an empty
    /// registry and no capability payload.
    pub fn new(kind: DeviceKind) -> (b: Broadcaster)
        ensures
            b.inv(),
            b.kind == kind,
            b.payload is None,
            b.next_tether == 0,
            b.entries() == Seq::<Entry>::empty(),
    {
        Broadcaster { kind, registry: ReceiverRegistry::new(), payload: None, next_tether: 0 }
    }

    /// Host notification: a candidate receiver entered the discovery
    /// volume. Inserts a fresh `Discovered` connection; a candidate already
    /// present is re-inserted as brand new, forgetting all progress.
    pub fn on_candidate_entered(&mut self, id: String, handle: u64)
        requires
            old(self).inv(),
        ensures
            final(self).inv(),
            entered_post(*old(self), *final(self), id, handle),
    {
        let payload_set = self.payload.is_some();
        let fresh = ReceiverConnection::fresh(handle, payload_set);
        let ghost pre = self.registry@;
        self.registry.insert(id, fresh);
        proof {
            let post = self.registry@;
            if has_id(pre, id@) {
                let i = idx_of(pre, id@);
                assert(forall|j: int| 0 <= j < post.len() && j != i ==> post[j] == pre[j]);
                assert(post[i].conn.tether is None);
            } else {
                assert(forall|j: int| 0 <= j < pre.len() ==> post[j] == pre[j]);
                assert(post.last().conn.tether is None);
            }
        }
    }

    /// Host notification: a candidate receiver left the discovery volume.
    /// Drops its connection outright; in-flight queries for it become
    /// stale and are discarded on completion (`tether_update_applies`).
    pub fn on_candidate_left(&mut self, id: &String)
        requires
            old(self).inv(),
        ensures
            final(self).inv(),
            left_post(*old(self), *final(self), id@),
    {
        let ghost pre = self.registry@;
        self.registry.remove(id);
        proof {
            let post = self.registry@;
            if has_id(pre, id@) {
                let i = idx_of(pre, id@);
                assert(forall|j: int| 0 <= j < i ==> post[j] == pre[j]);
                assert(forall|j: int| i <= j < post.len() ==> post[j] == pre[j + 1]);
            }
        }
    }

    /// Configures the process-wide capability payload and forces redelivery
    /// to every current connection on the next `advance`.
    pub fn set_capability_payload(&mut self, blob: Vec<u8>)
        requires
            old(self).inv(),
            old(self).kind is Keyboard,
        ensures
            final(self).inv(),
            payload_post(*old(self), *final(self), blob),
    {
        let n: usize = self.registry.entries.len();
        let mut i: usize = 0;
        while i < n
            invariant
                old(self).inv(),
                n == self.registry@.len(),
                n == old(self).entries().len(),
                i <= n,
                self.kind == old(self).kind,
                self.payload == old(self).payload,
                self.next_tether == old(self).next_tether,
                forall|j: int|
                    0 <= j < i ==> #[trigger] self.registry@[j] == payload_reset(
                        old(self).entries(),
                    )[j],
                forall|j: int| i <= j < n ==> #[trigger] self.registry@[j] == old(self).entries()[j],
            decreases n - i,
        {
            self.registry.entries[i].conn.has_state = true;
            self.registry.entries[i].conn.delivered = false;
            i += 1;
        }
        proof {
            assert(self.registry@ =~= payload_reset(old(self).entries()));
        }
        self.payload = Some(blob);
        proof {
            let pre = old(self).entries();
            let post = self.registry@;
            assert(forall|j: int| 0 <= j < post.len() ==> (#[trigger] post[j]).id == pre[j].id);
            assert(forall|j: int|
                0 <= j < post.len() ==> (#[trigger] post[j]).conn.tether == pre[j].conn.tether);
        }
    }

    /// The connection recorded for `id`, if any.
    pub fn get(&self, id: &String) -> (r: Option<ReceiverConnection>)
        requires
            self.inv(),
        ensures
            r == self.spec_get(id@),
    {
        self.registry.get(id)
    }

    /// Number of connections in the registry.
    pub fn connection_count(&self) -> (n: usize)
        ensures
            n == self.entries().len(),
    {
        self.registry.len()
    }

    /// The current multicast destinations: every connected receiver, each
    /// exactly once. Restartable: the result only depends on the current
    /// registry.
    pub fn iter_connected(&self) -> (v: Vec<SendTarget>)
        ensures
            v@ == connected_targets(self.entries()),
    {
        self.registry.iter_connected()
    }

    /// Whether an asynchronous position result for `id`, issued for tether
    /// token `tether`, may still be applied: true exactly when `id` is
    /// still registered and its tether is still the one queried. A removed
    /// or re-entered receiver fails this check, so stale completions are
    /// discarded rather than applied.
    pub fn tether_update_applies(&self, id: &String, tether: u64) -> (b: bool)
        requires
            self.inv(),
        ensures
            b == tether_applies(*self, id@, tether),
    {
        match self.registry.get(id) {
            Some(conn) => match conn.tether {
                Some(t) => t == tether,
                None => false,
            },
            None => false,
        }
    }

    /// Builds one event multicast to exactly the connected set; with no
    /// connected receiver there is nothing to send and `None` is returned.
    /// Receivers still `Discovered` are never targeted.
    pub fn send_event(&self, event: WireEvent) -> (m: Option<Multicast>)
        ensures
            send_post(*self, event, m),
    {
        let targets = self.iter_connected();
        if targets.len() == 0 {
            None
        } else {
            Some(Multicast { event, targets })
        }
    }

    /// Keyboard only: one key transition. `pressed` selects whether the
    /// key lands in the pressed or released list.
    pub fn send_key(&self, key: u32, pressed: bool) -> (m: Option<Multicast>)
        requires
            self.kind is Keyboard,
        ensures
            (m is None <==> connected_targets(self.entries()).len() == 0),
            m is Some ==> {
                &&& m->Some_0.targets@ == connected_targets(self.entries())
                &&& m->Some_0.event is Key
                &&& m->Some_0.event->Key_0.keymap is None
                &&& m->Some_0.event->Key_0.keys_down@ == (if pressed {
                    seq![key]
                } else {
                    Seq::<u32>::empty()
                })
                &&& m->Some_0.event->Key_0.keys_up@ == (if pressed {
                    Seq::<u32>::empty()
                } else {
                    seq![key]
                })
            },
    {
        let mut keys_up: Vec<u32> = Vec::new();
        let mut keys_down: Vec<u32> = Vec::new();
        if pressed {
            keys_down.push(key);
        } else {
            keys_up.push(key);
        }
        proof {
            assert(seq![key] =~= Seq::<u32>::empty().push(key));
        }
        self.send_event(WireEvent::Key(KeyEvent { keymap: None, keys_up, keys_down }))
    }

    /// Mouse only: one pointer event from independently optional fields,
    /// forwarded untouched.
    pub fn send_pointer_event(
        &self,
        delta: Option<Vec2Bits>,
        scroll_distance: Option<Vec2Bits>,
        scroll_steps: Option<Vec2Bits>,
        buttons_up: Vec<u32>,
        buttons_down: Vec<u32>,
    ) -> (m: Option<Multicast>)
        requires
            self.kind is Mouse,
        ensures
            (m is None <==> connected_targets(self.entries()).len() == 0),
            m is Some ==> {
                &&& m->Some_0.targets@ == connected_targets(self.entries())
                &&& m->Some_0.event is Pointer
                &&& m->Some_0.event->Pointer_0.delta == delta
                &&& m->Some_0.event->Pointer_0.scroll_distance == scroll_distance
                &&& m->Some_0.event->Pointer_0.scroll_steps == scroll_steps
                &&& m->Some_0.event->Pointer_0.buttons_up@ == buttons_up@
                &&& m->Some_0.event->Pointer_0.buttons_down@ == buttons_down@
            },
    {
        self.send_event(
            WireEvent::Pointer(
                PointerEvent { delta, scroll_distance, scroll_steps, buttons_up, buttons_down },
            ),
        )
    }

    /// The tethering step: issues a fresh token to every untethered entry,
    /// in entry order, and reports the tether lines to create.
    fn step_tethers(&mut self) -> (v: Vec<TetherRef>)
        requires
            old(self).inv(),
            old(self).next_tether + old(self).entries().len() <= u64::MAX,
        ensures
            final(self).inv(),
            final(self).kind == old(self).kind,
            final(self).payload == old(self).payload,
            final(self).next_tether == old(self).next_tether + untethered_count(
                old(self).entries(),
            ),
            final(self).entries() == tethered_entries(
                old(self).entries(),
                old(self).next_tether as int,
            ),
            v@ == tether_creations(old(self).entries(), old(self).next_tether as int),
            forall|i: int|
                0 <= i < final(self).entries().len() ==> (#[trigger] final(self).entries()[i]).conn.tether is Some,
    {
        let ghost pre = self.registry@;
        let ghost base = self.next_tether as int;
        let n: usize = self.registry.entries.len();
        let mut v: Vec<TetherRef> = Vec::new();
        let mut i: usize = 0;
        while i < n
            invariant
                ids_unique(pre),
                base + n <= u64::MAX,
                n == self.registry@.len(),
                n == pre.len(),
                i <= n,
                self.kind == old(self).kind,
                self.payload == old(self).payload,
                self.next_tether == base + untethered_count(pre.take(i as int)),
                self.registry@.take(i as int) == tethered_entries(pre.take(i as int), base),
                forall|j: int| i <= j < n ==> #[trigger] self.registry@[j] == pre[j],
                v@ == tether_creations(pre.take(i as int), base),
            decreases n - i,
        {
            proof {
                lemma_untethered_count_le(pre.take(i as int));
                lemma_tether_step(pre, base, i as int);
                lemma_untethered_count_step(pre, i as int);
            }
            let needs_tether = self.registry.entries[i].conn.tether.is_none();
            if needs_tether {
                let tok = self.next_tether;
                self.registry.entries[i].conn.tether = Some(tok);
                let e = &self.registry.entries[i];
                v.push(TetherRef { id: e.id.clone(), handle: e.conn.handle, tether: tok });
                self.next_tether = tok + 1;
            }
            proof {
                assert(self.registry@.take(i + 1) =~= self.registry@.take(i as int).push(
                    self.registry@[i as int],
                ));
            }
            i += 1;
        }
        proof {
            assert(pre.take(n as int) =~= pre);
            assert(self.registry@.take(n as int) =~= self.registry@);
            let post = self.registry@;
            lemma_tethered_entries_props(pre, base);
            assert forall|a: int| 0 <= a < post.len() implies (#[trigger] post[a]).conn.tether
                is Some by {
                assert(tethered_entry_rel(pre, base, a));
            }
            // Uniqueness of identities carries over pointwise.
            assert forall|a: int, b: int| 0 <= a < b < post.len() implies post[a].id@
                != post[b].id@ by {
                assert(tethered_entry_rel(pre, base, a));
                assert(tethered_entry_rel(pre, base, b));
            }
            // Every connection is well-formed against the advanced counter.
            assert forall|a: int| 0 <= a < post.len() implies (#[trigger] post[a]).conn.wf(
                self.next_tether,
                self.payload is Some,
            ) by {
                assert(tethered_entry_rel(pre, base, a));
                assert(pre[a].conn.wf(old(self).next_tether, old(self).payload is Some));
                lemma_untethered_count_mono(pre, a, n as int);
                lemma_untethered_count_mono(pre, a + 1, n as int);
                lemma_untethered_count_step(pre, a);
            }
            // No two live connections share a token.
            assert forall|a: int, b: int|
                0 <= a < b < post.len() && post[a].conn.tether is Some && post[b].conn.tether
                    is Some implies post[a].conn.tether->Some_0 != post[b].conn.tether->Some_0 by {
                assert(tethered_entry_rel(pre, base, a));
                assert(tethered_entry_rel(pre, base, b));
                assert(pre[a].conn.wf(old(self).next_tether, old(self).payload is Some));
                assert(pre[b].conn.wf(old(self).next_tether, old(self).payload is Some));
                lemma_untethered_count_le(pre.take(a));
                lemma_untethered_count_le(pre.take(b));
                lemma_untethered_count_mono(pre, a, b);
            }
        }
        v
    }

    /// One relative-position query per (tethered) entry, in entry order.
    fn collect_queries(&self) -> (v: Vec<TetherRef>)
        requires
            forall|i: int|
                0 <= i < self.entries().len() ==> (#[trigger] self.entries()[i]).conn.tether
                    is Some,
        ensures
            v@ == position_queries_of(self.entries()),
    {
        let n: usize = self.registry.entries.len();
        let mut v: Vec<TetherRef> = Vec::new();
        let mut i: usize = 0;
        while i < n
            invariant
                n == self.registry@.len(),
                i <= n,
                forall|j: int|
                    0 <= j < n ==> (#[trigger] self.entries()[j]).conn.tether is Some,
                v@.len() == i,
                forall|j: int| 0 <= j < i ==> #[trigger] v@[j] == position_queries_of(self.entries())[j],
            decreases n - i,
        {
            let e = &self.registry.entries[i];
            proof {
                assert(self.entries()[i as int].conn.tether is Some);
            }
            v.push(TetherRef { id: e.id.clone(), handle: e.conn.handle, tether: e.conn.tether.unwrap() });
            i += 1;
        }
        proof {
            assert(v@ =~= position_queries_of(self.entries()));
        }
        v
    }

    /// The connected entries still awaiting the capability payload, in
    /// entry order.
    fn collect_undelivered(&self) -> (v: Vec<SendTarget>)
        ensures
            v@ == undelivered_targets(self.entries()),
    {
        let n: usize = self.registry.entries.len();
        let mut v: Vec<SendTarget> = Vec::new();
        let mut i: usize = 0;
        while i < n
            invariant
                n == self.registry@.len(),
                i <= n,
                v@ == undelivered_targets(self.registry@.take(i as int)),
            decreases n - i,
        {
            let e = &self.registry.entries[i];
            if e.conn.connected() && !e.conn.delivered {
                v.push(SendTarget { id: e.id.clone(), handle: e.conn.handle });
            }
            proof {
                lemma_undelivered_step(self.registry@, i as int);
            }
            i += 1;
        }
        proof {
            assert(self.registry@.take(n as int) =~= self.registry@);
        }
        v
    }

    /// Marks every connection as having received the capability payload.
    fn mark_all_delivered(&mut self)
        requires
            old(self).inv(),
            old(self).payload is Some,
            forall|i: int|
                0 <= i < old(self).entries().len() ==> (#[trigger] old(self).entries()[i]).conn.tether is Some,
        ensures
            final(self).inv(),
            final(self).kind == old(self).kind,
            final(self).payload == old(self).payload,
            final(self).next_tether == old(self).next_tether,
            final(self).entries() == mark_delivered(old(self).entries()),
    {
        let n: usize = self.registry.entries.len();
        let mut i: usize = 0;
        while i < n
            invariant
                n == self.registry@.len(),
                n == old(self).entries().len(),
                i <= n,
                self.kind == old(self).kind,
                self.payload == old(self).payload,
                self.next_tether == old(self).next_tether,
                forall|j: int|
                    0 <= j < i ==> #[trigger] self.registry@[j] == mark_delivered(
                        old(self).entries(),
                    )[j],
                forall|j: int| i <= j < n ==> #[trigger] self.registry@[j] == old(self).entries()[j],
            decreases n - i,
        {
            self.registry.entries[i].conn.delivered = true;
            i += 1;
        }
        proof {
            assert(self.registry@ =~= mark_delivered(old(self).entries()));
            let pre = old(self).entries();
            let post = self.registry@;
            assert(forall|j: int| 0 <= j < post.len() ==> (#[trigger] post[j]).id == pre[j].id);
            assert(forall|j: int|
                0 <= j < post.len() ==> (#[trigger] post[j]).conn.tether == pre[j].conn.tether);
        }
    }

    /// If a capability payload is configured and some connected receiver
    /// has not received it, builds the one multicast delivering it to
    /// exactly those receivers and marks them delivered; otherwise does
    /// nothing. No connection observes itself delivered without the
    /// returned send.
    fn deliver_capability(&mut self) -> (m: Option<Multicast>)
        requires
            old(self).inv(),
            forall|i: int|
                0 <= i < old(self).entries().len() ==> (#[trigger] old(self).entries()[i]).conn.tether is Some,
        ensures
            final(self).inv(),
            final(self).kind == old(self).kind,
            final(self).payload == old(self).payload,
            final(self).next_tether == old(self).next_tether,
            final(self).entries() == (if capability_due(old(self).payload, old(self).entries()) {
                mark_delivered(old(self).entries())
            } else {
                old(self).entries()
            }),
            capability_due(old(self).payload, old(self).entries()) ==> m is Some
                && capability_multicast_matches(
                m->Some_0,
                old(self).payload->Some_0@,
                undelivered_targets(old(self).entries()),
            ),
            !capability_due(old(self).payload, old(self).entries()) ==> m is None,
    {
        if self.payload.is_some() {
            let targets = self.collect_undelivered();
            if targets.len() > 0 {
                let blob = clone_bytes(self.payload.as_ref().unwrap());
                self.mark_all_delivered();
                let empty_up: Vec<u32> = Vec::new();
                let empty_down: Vec<u32> = Vec::new();
                Some(
                    Multicast {
                        event: WireEvent::Key(
                            KeyEvent { keymap: Some(blob), keys_up: empty_up, keys_down: empty_down },
                        ),
                        targets,
                    },
                )
            } else {
                None
            }
        } else {
            None
        }
    }

    /// One per-tick state-machine step for every connection, then the
    /// capability-delivery batch if one is due. Tethers every `Discovered`
    /// entry, launches one position query per entry, and returns the
    /// scene-graph work for the driver.
    pub fn advance(&mut self) -> (out: AdvanceOutcome)
        requires
            old(self).inv(),
            old(self).next_tether + old(self).entries().len() <= u64::MAX,
        ensures
            final(self).inv(),
            advance_post(*old(self), *final(self), out),
    {
        let new_tethers = self.step_tethers();
        let position_queries = self.collect_queries();
        let capability_send = self.deliver_capability();
        AdvanceOutcome { new_tethers, position_queries, capability_send }
    }
}

} // verus!
