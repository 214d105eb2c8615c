//! Static per-device-kind data: discovery-volume footprint, local emission
//! offset, visual asset identifier, and tether line styling.
//!
//! The scene graph works in metres with fractional coordinates; this module
//! states the same constants exactly as integers. Lengths are micrometres
//! (1/1_000_000 m) and colour/thickness channels are per-mille (1/1000), so
//! every published constant is represented without rounding. The driver that
//! talks to the scene graph divides by the scale on its way out.

use vstd::prelude::*;

verus! {

/// The closed set of device kinds this peripheral can emit as.
#[derive(Clone, Copy, Debug, PartialEq, Eq, Structural)]
pub enum DeviceKind {
    Keyboard,
    Mouse,
}

/// A length in micrometres (1/1_000_000 m).
pub type Micrometres = u64;

/// An RGBA colour with per-mille channels (1000 = full intensity).
#[derive(Clone, Copy, Debug, PartialEq, Eq, Structural)]
pub struct ColorPerMille {
    pub r: u16,
    pub g: u16,
    pub b: u16,
    pub a: u16,
}

/// A 3-vector of micrometre lengths.
#[derive(Clone, Copy, Debug, PartialEq, Eq, Structural)]
pub struct SizeMicrometres {
    pub x: Micrometres,
    pub y: Micrometres,
    pub z: Micrometres,
}

/// Thickness of a tether line, per-mille of a metre (5 = 0.005 m).
pub const TETHER_THICKNESS_PER_MILLE: u16 = 5;

/// Resource namespace the visual models of every device kind live under.
pub const ASSET_NAMESPACE: &'static str = "manifold";

impl DeviceKind {
    /// Size of the box-shaped discovery volume centred on the device anchor.
    pub open spec fn spec_footprint(self) -> SizeMicrometres {
        match self {
            DeviceKind::Keyboard => SizeMicrometres { x: 50000, y: 30000, z: 4000 },
            DeviceKind::Mouse => SizeMicrometres { x: 18000, y: 27379, z: 4000 },
        }
    }

    /// Exec mirror of [`Self::spec_footprint`].
    pub fn footprint(self) -> (s: SizeMicrometres)
        ensures
            s == self.spec_footprint(),
    {
        match self {
            DeviceKind::Keyboard => SizeMicrometres { x: 50000, y: 30000, z: 4000 },
            DeviceKind::Mouse => SizeMicrometres { x: 18000, y: 27379, z: 4000 },
        }
    }

    /// Local offset of the emission point from the device anchor; the same
    /// for both kinds.
    pub open spec fn spec_emit_point(self) -> SizeMicrometres {
        SizeMicrometres { x: 0, y: 17667, z: 0 }
    }

    /// Exec mirror of [`Self::spec_emit_point`].
    pub fn emit_point(self) -> (p: SizeMicrometres)
        ensures
            p == self.spec_emit_point(),
    {
        SizeMicrometres { x: 0, y: 17667, z: 0 }
    }

    /// Colour of the tether lines drawn from this device to its receivers.
    pub open spec fn spec_tether_color(self) -> ColorPerMille {
        match self {
            DeviceKind::Keyboard => ColorPerMille { r: 576, g: 380, b: 910, a: 1000 },
            DeviceKind::Mouse => ColorPerMille { r: 141, g: 886, b: 521, a: 1000 },
        }
    }

    /// Exec mirror of [`Self::spec_tether_color`].
    pub fn tether_color(self) -> (c: ColorPerMille)
        ensures
            c == self.spec_tether_color(),
    {
        match self {
            DeviceKind::Keyboard => ColorPerMille { r: 576, g: 380, b: 910, a: 1000 },
            DeviceKind::Mouse => ColorPerMille { r: 141, g: 886, b: 521, a: 1000 },
        }
    }

    /// Name of this kind's visual model under [`ASSET_NAMESPACE`].
    pub fn asset_name(self) -> (n: &'static str)
        ensures
            self is Keyboard ==> n@ == "keyboard"@,
            self is Mouse ==> n@ == "mouse"@,
    {
        match self {
            DeviceKind::Keyboard => "keyboard",
            DeviceKind::Mouse => "mouse",
        }
    }
}

} // verus!
