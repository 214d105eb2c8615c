//! The fixed event vocabulary the broadcaster can multicast, as plain data.
//!
//! The host runtime defines the wire encoding; the library only decides what
//! an event contains and who receives it, so every field here is a plain
//! value. Pointer motion amounts are opaque to the library: it forwards them
//! untouched, so they travel as [`Vec2Bits`], a pair of caller-encoded scalar
//! bit patterns the driver decodes on the way out.

use vstd::prelude::*;

use crate::registry::SendTarget;

verus! {

/// A 2-vector of caller-encoded scalar bit patterns. The library never
/// interprets the components; it hands them back exactly as given.
#[derive(Clone, Copy, Debug, PartialEq, Eq, Structural)]
pub struct Vec2Bits {
    pub x: u32,
    pub y: u32,
}

/// A keyboard event: an optional capability payload (the compiled keymap
/// blob) and the keys released and pressed this tick. An empty list means
/// the field is absent.
#[derive(Clone, Debug, PartialEq, Eq)]
pub struct KeyEvent {
    pub keymap: Option<Vec<u8>>,
    pub keys_up: Vec<u32>,
    pub keys_down: Vec<u32>,
}

/// A pointer event: motion delta, scroll amounts and the buttons released
/// and pressed this tick. Every field is independently absent or empty.
#[derive(Clone, Debug, PartialEq, Eq)]
pub struct PointerEvent {
    pub delta: Option<Vec2Bits>,
    pub scroll_distance: Option<Vec2Bits>,
    pub scroll_steps: Option<Vec2Bits>,
    pub buttons_up: Vec<u32>,
    pub buttons_down: Vec<u32>,
}

/// One event of the closed vocabulary.
#[derive(Clone, Debug, PartialEq, Eq)]
pub enum WireEvent {
    Key(KeyEvent),
    Pointer(PointerEvent),
}

/// One multicast: a single event delivered to every listed target in one
/// send. Delivery is best-effort per tick; nothing is queued or retried.
#[derive(Clone, Debug, PartialEq, Eq)]
pub struct Multicast {
    pub event: WireEvent,
    pub targets: Vec<SendTarget>,
}

/// An exact copy of a byte string, for placing the capability payload into
/// an outgoing event while the broadcaster keeps its own.
pub fn clone_bytes(v: &Vec<u8>) -> (r: Vec<u8>)
    ensures
        r@ == v@,
{
    let n: usize = v.len();
    let mut r: Vec<u8> = Vec::new();
    let mut i: usize = 0;
    while i < n
        invariant
            n == v@.len(),
            i <= n,
            r@ == v@.take(i as int),
        decreases n - i,
    {
        r.push(v[i]);
        proof {
            assert(v@.take(i + 1) =~= v@.take(i as int).push(v@[i as int]));
        }
        i += 1;
    }
    proof {
        assert(v@.take(n as int) =~= v@);
    }
    r
}

} // verus!
