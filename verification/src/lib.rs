//! Core of a spatial input-broadcast peripheral: a virtual device anchored in
//! a 3D scene that distributes discrete input events (key presses, pointer
//! deltas, scroll, button state) to a dynamically-changing set of receiver
//! endpoints that enter and leave a spatial discovery volume around the device.
//!
//! This library holds the verified decision core: the receiver registry, the
//! per-receiver connection state machine, the broadcaster's per-tick `advance`
//! step and multicast target selection. All scene-graph work (creating the
//! visual tether lines, performing the sends, querying relative transforms) is
//! described by the plain-data actions these functions return; a thin driver
//! around the library performs them.

pub mod broadcaster;
pub mod connection;
pub mod device;
pub mod events;
pub mod laws;
pub mod registry;
