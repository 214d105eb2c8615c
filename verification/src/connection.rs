//! Per-receiver connection state.
//!
//! A connection walks `Discovered -> Tethered -> Handshaken` and is dropped
//! from the registry (its terminal state) when the host reports the receiver
//! gone. The tether is a visual line owned by the scene graph; the library
//! tracks it as an opaque token handed out by the broadcaster, so a stale
//! asynchronous result can be recognised by comparing tokens.

use vstd::prelude::*;

verus! {

/// State of one receiver's connection, derived from its record.
#[derive(Clone, Copy, Debug, PartialEq, Eq, Structural)]
pub enum ConnectionState {
    /// In the registry, no tether yet: receives nothing.
    Discovered,
    /// Tether line created; receives input events.
    Tethered,
    /// Tether line created and the capability payload delivered.
    Handshaken,
}

/// Record the registry keeps for one receiver.
#[derive(Clone, Copy, Debug, PartialEq, Eq, Structural)]
pub struct ReceiverConnection {
    /// Host-assigned token for the receiver endpoint; the driver resolves it
    /// to the actual scene-graph object when performing a send.
    pub handle: u64,
    /// Token of this connection's tether line, `None` until the first
    /// `advance` tethers it. Tokens are never reused, so a token pins one
    /// particular tether for the connection's whole life.
    pub tether: Option<u64>,
    /// Whether the protocol state derived from the capability payload has
    /// been computed for this connection (keyboard: the decoded keymap
    /// state). Mirrors whether a payload is configured at all.
    pub has_state: bool,
    /// Whether the current capability payload has been sent to this
    /// receiver. Reset when the payload changes, forcing redelivery.
    pub delivered: bool,
}

impl ReceiverConnection {
    /// A freshly discovered connection: no tether, nothing delivered.
    pub open spec fn spec_fresh(handle: u64, payload_set: bool) -> ReceiverConnection {
        ReceiverConnection { handle, tether: None, has_state: payload_set, delivered: false }
    }

    /// Exec mirror of [`Self::spec_fresh`].
    pub fn fresh(handle: u64, payload_set: bool) -> (c: ReceiverConnection)
        ensures
            c == Self::spec_fresh(handle, payload_set),
    {
        ReceiverConnection { handle, tether: None, has_state: payload_set, delivered: false }
    }

    /// The state-machine state this record is in.
    pub open spec fn spec_state(self) -> ConnectionState {
        if self.tether is None {
            ConnectionState::Discovered
        } else if self.delivered {
            ConnectionState::Handshaken
        } else {
            ConnectionState::Tethered
        }
    }

    /// Exec mirror of [`Self::spec_state`].
    pub fn state(&self) -> (s: ConnectionState)
        ensures
            s == self.spec_state(),
    {
        if self.tether.is_none() {
            ConnectionState::Discovered
        } else if self.delivered {
            ConnectionState::Handshaken
        } else {
            ConnectionState::Tethered
        }
    }

    /// A connection is connected once its tether line exists; only connected
    /// receivers are multicast targets.
    pub open spec fn spec_connected(self) -> bool {
        self.tether is Some
    }

    /// Exec mirror of [`Self::spec_connected`].
    pub fn connected(&self) -> (b: bool)
        ensures
            b == self.spec_connected(),
    {
        self.tether.is_some()
    }

    /// Well-formedness relative to the broadcaster that owns this record:
    /// any tether token was issued by it (so is below its issue counter),
    /// the derived protocol state exists exactly when a payload does, and a
    /// delivery can only have happened to a tethered connection of a
    /// configured payload.
    pub open spec fn wf(self, next_tether: u64, payload_set: bool) -> bool {
        &&& (self.tether is Some ==> self.tether->Some_0 < next_tether)
        &&& self.has_state == payload_set
        &&& (self.delivered ==> self.tether is Some && payload_set)
    }
}

} // verus!
