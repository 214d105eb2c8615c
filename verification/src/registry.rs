//! Mapping from receiver identity to its connection record.
//!
//! Identities are opaque host-assigned strings, unique for the lifetime of a
//! connection. `insert` replaces any prior entry under the same identity and
//! `remove` is an unconditional no-op when the identity is absent, so the
//! registry never holds two entries for one identity and never holds an
//! identity the host has reported as departed. Entries carry no ordering
//! guarantee; `iter_connected` yields the connected subset in the registry's
//! own stable order.

use vstd::prelude::*;

use crate::connection::ReceiverConnection;

verus! {

/// One registry entry: a receiver identity and its connection record.
#[derive(Clone, Debug)]
pub struct Entry {
    pub id: String,
    pub conn: ReceiverConnection,
}

/// One multicast destination: a receiver identity and its endpoint handle.
#[derive(Clone, Debug, PartialEq, Eq)]
pub struct SendTarget {
    pub id: String,
    pub handle: u64,
}

/// No two entries share an identity.
pub open spec fn ids_unique(s: Seq<Entry>) -> bool {
    forall|i: int, j: int| 0 <= i < j < s.len() ==> s[i].id@ != s[j].id@
}

/// Some entry carries the identity `id`.
pub open spec fn has_id(s: Seq<Entry>, id: Seq<char>) -> bool {
    exists|i: int| 0 <= i < s.len() && s[i].id@ == id
}

/// Index of the entry carrying `id`; meaningful only when `has_id` holds and
/// pinned to the one witness when `ids_unique` holds.
pub open spec fn idx_of(s: Seq<Entry>, id: Seq<char>) -> int {
    choose|i: int| 0 <= i < s.len() && s[i].id@ == id
}

/// The connection recorded under `id`, if any.
pub open spec fn lookup(s: Seq<Entry>, id: Seq<char>) -> Option<ReceiverConnection> {
    if has_id(s, id) {
        Some(s[idx_of(s, id)].conn)
    } else {
        None
    }
}

/// The multicast destinations of the connected (tethered) entries, in entry
/// order.
pub open spec fn connected_targets(s: Seq<Entry>) -> Seq<SendTarget>
    decreases s.len(),
{
    if s.len() == 0 {
        Seq::empty()
    } else {
        let front = connected_targets(s.drop_last());
        let e = s.last();
        if e.conn.spec_connected() {
            front.push(SendTarget { id: e.id, handle: e.conn.handle })
        } else {
            front
        }
    }
}

/// When `ids_unique` holds and `s[i]` carries `id`, lookups resolve to `i`.
pub proof fn lemma_lookup_at(s: Seq<Entry>, i: int)
    requires
        ids_unique(s),
        0 <= i < s.len(),
    ensures
        has_id(s, s[i].id@),
        idx_of(s, s[i].id@) == i,
        lookup(s, s[i].id@) == Some(s[i].conn),
{
    assert(has_id(s, s[i].id@));
    let j = idx_of(s, s[i].id@);
    assert(0 <= j < s.len() && s[j].id@ == s[i].id@);
    if i < j {
        assert(s[i].id@ != s[j].id@);
    } else if j < i {
        assert(s[j].id@ != s[i].id@);
    }
}

/// An identity absent from the registry never appears among the connected
/// targets; in particular a departed receiver is yielded by no later
/// target-set computation.
pub proof fn lemma_targets_absent(s: Seq<Entry>, id: Seq<char>)
    requires
        !has_id(s, id),
    ensures
        forall|j: int|
            0 <= j < connected_targets(s).len() ==> #[trigger] connected_targets(s)[j].id@ != id,
    decreases s.len(),
{
    if s.len() > 0 {
        let front = s.drop_last();
        assert(forall|i: int| 0 <= i < front.len() ==> front[i] == s[i]);
        assert(!has_id(front, id)) by {
            if has_id(front, id) {
                let i = choose|i: int| 0 <= i < front.len() && front[i].id@ == id;
                assert(s[i].id@ == id);
            }
        }
        lemma_targets_absent(front, id);
        let ts = connected_targets(s);
        let fts = connected_targets(front);
        if s.last().conn.spec_connected() {
            assert(s.last().id@ != id) by {
                if s.last().id@ == id {
                    assert(s[s.len() - 1].id@ == id);
                }
            }
            assert(ts == fts.push((SendTarget { id: s.last().id, handle: s.last().conn.handle })));
            assert(forall|j: int| 0 <= j < fts.len() ==> ts[j] == #[trigger] fts[j]);
        } else {
            assert(ts == fts);
        }
    }
}

/// Every connected target comes from a connected entry, every connected
/// entry is targeted exactly once, and nothing else is targeted.
pub proof fn lemma_targets_exact(s: Seq<Entry>)
    requires
        ids_unique(s),
    ensures
        forall|j: int|
            0 <= j < connected_targets(s).len() ==> {
                let t = #[trigger] connected_targets(s)[j];
                &&& has_id(s, t.id@)
                &&& lookup(s, t.id@) is Some
                &&& lookup(s, t.id@)->Some_0.spec_connected()
                &&& lookup(s, t.id@)->Some_0.handle == t.handle
            },
        forall|i: int|
            0 <= i < s.len() && #[trigger] s[i].conn.spec_connected() ==> exists|j: int|
                0 <= j < connected_targets(s).len() && #[trigger] connected_targets(
                    s,
                )[j].id@ == s[i].id@,
        ids_unique_targets(connected_targets(s)),
    decreases s.len(),
{
    if s.len() > 0 {
        let front = s.drop_last();
        let e = s.last();
        let ts = connected_targets(s);
        let fts = connected_targets(front);
        assert(forall|i: int| 0 <= i < front.len() ==> front[i] == s[i]);
        lemma_targets_exact(front);
        assert(!has_id(front, e.id@));
        lemma_targets_absent(front, e.id@);
        // Lookups over `s` agree with lookups over `front` for the ids that
        // occur in `front`, and resolve the last entry to itself.
        assert forall|k: int| 0 <= k < fts.len() implies {
            let t = #[trigger] fts[k];
            &&& has_id(s, t.id@)
            &&& lookup(s, t.id@) is Some
            &&& lookup(s, t.id@)->Some_0.spec_connected()
            &&& lookup(s, t.id@)->Some_0.handle == t.handle
        } by {
            let t = fts[k];
            let i = idx_of(front, t.id@);
            assert(s[i] == front[i]);
            lemma_lookup_at(s, i);
        }
        lemma_lookup_at(s, s.len() - 1);
        if e.conn.spec_connected() {
            assert(ts == fts.push(SendTarget { id: e.id, handle: e.conn.handle }));
            assert forall|i: int|
                0 <= i < s.len() && #[trigger] s[i].conn.spec_connected() implies exists|j: int|
                0 <= j < ts.len() && #[trigger] ts[j].id@ == s[i].id@ by {
                if i < s.len() - 1 {
                    let j = choose|j: int|
                        0 <= j < fts.len() && #[trigger] fts[j].id@ == front[i].id@;
                    assert(ts[j].id@ == s[i].id@);
                } else {
                    assert(ts[ts.len() - 1].id@ == e.id@);
                }
            }
        } else {
            assert(ts == fts);
            assert forall|i: int|
                0 <= i < s.len() && #[trigger] s[i].conn.spec_connected() implies exists|j: int|
                0 <= j < ts.len() && #[trigger] ts[j].id@ == s[i].id@ by {
                assert(i < s.len() - 1);
                let j = choose|j: int| 0 <= j < fts.len() && #[trigger] fts[j].id@ == front[i].id@;
                assert(ts[j].id@ == s[i].id@);
            }
        }
    }
}

/// No two targets share an identity.
pub open spec fn ids_unique_targets(t: Seq<SendTarget>) -> bool {
    forall|i: int, j: int| 0 <= i < j < t.len() ==> t[i].id@ != t[j].id@
}

/// The registry itself: the entry table, keyed by identity.
pub struct ReceiverRegistry {
    pub entries: Vec<Entry>,
}

impl View for ReceiverRegistry {
    type V = Seq<Entry>;

    open spec fn view(&self) -> Seq<Entry> {
        self.entries@
    }
}

impl ReceiverRegistry {
    /// An empty registry.
    pub fn new() -> (r: ReceiverRegistry)
        ensures
            r@ == Seq::<Entry>::empty(),
    {
        ReceiverRegistry { entries: Vec::new() }
    }

    /// Number of entries.
    pub fn len(&self) -> (n: usize)
        ensures
            n == self@.len(),
    {
        self.entries.len()
    }

    /// Index of the entry under `id`, if present.
    fn index_of(&self, id: &String) -> (r: Option<usize>)
        ensures
            match r {
                Some(i) => i < self@.len() && self@[i as int].id@ == id@,
                None => !has_id(self@, id@),
            },
    {
        let n: usize = self.entries.len();
        let mut i: usize = 0;
        while i < n
            invariant
                n == self@.len(),
                i <= n,
                forall|j: int| 0 <= j < i ==> self@[j].id@ != id@,
            decreases n - i,
        {
            if self.entries[i].id == *id {
                return Some(i);
            }
            i += 1;
        }
        None
    }

    /// The connection recorded under `id`, if any.
    pub fn get(&self, id: &String) -> (r: Option<ReceiverConnection>)
        requires
            ids_unique(self@),
        ensures
            r == lookup(self@, id@),
    {
        match self.index_of(id) {
            Some(i) => {
                proof {
                    lemma_lookup_at(self@, i as int);
                }
                Some(self.entries[i].conn)
            },
            None => None,
        }
    }

    /// Records `conn` under `id`, replacing any prior entry for `id`.
    pub fn insert(&mut self, id: String, conn: ReceiverConnection)
        requires
            ids_unique(old(self)@),
        ensures
            ids_unique(final(self)@),
            final(self)@ == if has_id(old(self)@, id@) {
                old(self)@.update(idx_of(old(self)@, id@), (Entry { id, conn }))
            } else {
                old(self)@.push((Entry { id, conn }))
            },
            lookup(final(self)@, id@) == Some(conn),
            forall|k: Seq<char>|
                k != id@ ==> #[trigger] lookup(final(self)@, k) == lookup(old(self)@, k),
            final(self)@.len() == old(self)@.len() + if has_id(old(self)@, id@) {
                0int
            } else {
                1int
            },
    {
        let ghost pre = self@;
        match self.index_of(&id) {
            Some(i) => {
                proof {
                    lemma_lookup_at(pre, i as int);
                }
                self.entries[i] = Entry { id, conn };
                proof {
                    lemma_insert_update_post(pre, self@, i as int);
                }
            },
            None => {
                self.entries.push(Entry { id, conn });
                proof {
                    lemma_insert_push_post(pre, self@);
                }
            },
        }
    }

    /// Removes the entry under `id`; a no-op when `id` is absent.
    pub fn remove(&mut self, id: &String)
        requires
            ids_unique(old(self)@),
        ensures
            ids_unique(final(self)@),
            final(self)@ == if has_id(old(self)@, id@) {
                old(self)@.remove(idx_of(old(self)@, id@))
            } else {
                old(self)@
            },
            lookup(final(self)@, id@) is None,
            forall|k: Seq<char>|
                k != id@ ==> #[trigger] lookup(final(self)@, k) == lookup(old(self)@, k),
            final(self)@.len() == old(self)@.len() - if has_id(old(self)@, id@) {
                1int
            } else {
                0int
            },
    {
        let ghost pre = self@;
        match self.index_of(id) {
            Some(i) => {
                proof {
                    lemma_lookup_at(pre, i as int);
                }
                self.entries.remove(i);
                proof {
                    lemma_remove_post(pre, self@, i as int);
                }
            },
            None => {},
        }
    }

    /// The current multicast destinations: one per connected entry, in entry
    /// order.
    pub fn iter_connected(&self) -> (v: Vec<SendTarget>)
        ensures
            v@ == connected_targets(self@),
    {
        let n: usize = self.entries.len();
        let mut v: Vec<SendTarget> = Vec::new();
        let mut i: usize = 0;
        while i < n
            invariant
                n == self@.len(),
                i <= n,
                v@ == connected_targets(self@.take(i as int)),
            decreases n - i,
        {
            let e = &self.entries[i];
            if e.conn.connected() {
                v.push(SendTarget { id: e.id.clone(), handle: e.conn.handle });
            }
            proof {
                lemma_connected_targets_step(self@, i as int);
            }
            i += 1;
        }
        proof {
            assert(self@.take(n as int) =~= self@);
        }
        v
    }
}

/// Unfolds `connected_targets` one step along a prefix of `s`.
proof fn lemma_connected_targets_step(s: Seq<Entry>, i: int)
    requires
        0 <= i < s.len(),
    ensures
        connected_targets(s.take(i + 1)) == if s[i].conn.spec_connected() {
            connected_targets(s.take(i)).push((SendTarget { id: s[i].id, handle: s[i].conn.handle }))
        } else {
            connected_targets(s.take(i))
        },
{
    assert(s.take(i + 1).drop_last() =~= s.take(i));
    assert(s.take(i + 1).last() == s[i]);
}

/// Replacing the entry at `i` by one with the same identity keeps uniqueness
/// and changes no other lookup.
proof fn lemma_insert_update_post(pre: Seq<Entry>, post: Seq<Entry>, i: int)
    requires
        ids_unique(pre),
        0 <= i < pre.len(),
        post == pre.update(i, post[i]),
        post.len() == pre.len(),
        post[i].id@ == pre[i].id@,
    ensures
        ids_unique(post),
        lookup(post, post[i].id@) == Some(post[i].conn),
        forall|k: Seq<char>| k != post[i].id@ ==> #[trigger] lookup(post, k) == lookup(pre, k),
{
    assert(forall|j: int| 0 <= j < post.len() ==> post[j].id@ == pre[j].id@);
    assert(ids_unique(post));
    lemma_lookup_at(post, i);
    assert forall|k: Seq<char>| k != post[i].id@ implies #[trigger] lookup(post, k) == lookup(
        pre,
        k,
    ) by {
        if has_id(pre, k) {
            let j = idx_of(pre, k);
            assert(j != i);
            assert(post[j] == pre[j]);
            lemma_lookup_at(pre, j);
            lemma_lookup_at(post, j);
        } else {
            assert(!has_id(post, k));
        }
    }
}

/// Appending an entry with a fresh identity keeps uniqueness and changes no
/// other lookup.
proof fn lemma_insert_push_post(pre: Seq<Entry>, post: Seq<Entry>)
    requires
        ids_unique(pre),
        post.len() == pre.len() + 1,
        post == pre.push(post.last()),
        !has_id(pre, post.last().id@),
    ensures
        ids_unique(post),
        lookup(post, post.last().id@) == Some(post.last().conn),
        forall|k: Seq<char>| k != post.last().id@ ==> #[trigger] lookup(post, k) == lookup(pre, k),
{
    assert(forall|j: int| 0 <= j < pre.len() ==> post[j] == pre[j]);
    assert(ids_unique(post));
    lemma_lookup_at(post, post.len() - 1);
    assert forall|k: Seq<char>| k != post.last().id@ implies #[trigger] lookup(post, k) == lookup(
        pre,
        k,
    ) by {
        if has_id(pre, k) {
            let j = idx_of(pre, k);
            lemma_lookup_at(pre, j);
            lemma_lookup_at(post, j);
        } else {
            assert(!has_id(post, k));
        }
    }
}

/// Removing the entry at `i` keeps uniqueness, drops its identity, and
/// changes no other lookup.
proof fn lemma_remove_post(pre: Seq<Entry>, post: Seq<Entry>, i: int)
    requires
        ids_unique(pre),
        0 <= i < pre.len(),
        post == pre.remove(i),
    ensures
        ids_unique(post),
        !has_id(post, pre[i].id@),
        lookup(post, pre[i].id@) is None,
        forall|k: Seq<char>| k != pre[i].id@ ==> #[trigger] lookup(post, k) == lookup(pre, k),
{
    assert(forall|j: int| 0 <= j < i ==> post[j] == pre[j]);
    assert(forall|j: int| i <= j < post.len() ==> post[j] == pre[j + 1]);
    assert(ids_unique(post));
    assert forall|j: int| 0 <= j < post.len() implies #[trigger] post[j].id@ != pre[i].id@ by {
        if j < i {
            assert(pre[j].id@ != pre[i].id@);
        } else {
            assert(pre[j + 1].id@ != pre[i].id@);
        }
    }
    assert forall|k: Seq<char>| k != pre[i].id@ implies #[trigger] lookup(post, k) == lookup(
        pre,
        k,
    ) by {
        if has_id(pre, k) {
            let j = idx_of(pre, k);
            lemma_lookup_at(pre, j);
            if j < i {
                lemma_lookup_at(post, j);
            } else {
                assert(j != i);
                assert(post[j - 1] == pre[j]);
                lemma_lookup_at(post, j - 1);
            }
        } else {
            if has_id(post, k) {
                let j = idx_of(post, k);
                if j < i {
                    assert(pre[j].id@ == k);
                } else {
                    assert(pre[j + 1].id@ == k);
                }
                assert(false);
            }
        }
    }
}

} // verus!
