//! The settings of the cutter that outlast a session.

use vstd::prelude::*;

verus! {

/// How a cut is made.
#[derive(Clone, Copy, PartialEq, Eq, Structural, Debug)]
pub enum CutMethod {
    /// In one pass from one side of the tube to the other.
    Straight,
    /// In two passes from the middle outward.
    Split,
}

/// The settings of the cutter. The offsets of the laser are in thousandths
/// of a millimetre.
#[derive(Clone, Copy, PartialEq, Eq, Structural, Debug)]
pub struct CutterSettings {
    pub cut_method: CutMethod,
    pub use_laser: bool,
    pub laser_offset_x: i64,
    pub laser_offset_y: i64,
}

/// The settings of a cutter that has none stored: split cuts, no laser.
pub open spec fn default_settings() -> CutterSettings {
    CutterSettings {
        cut_method: CutMethod::Split,
        use_laser: false,
        laser_offset_x: 0,
        laser_offset_y: 0,
    }
}

impl Default for CutterSettings {
    fn default() -> (r: Self)
        ensures
            r == default_settings(),
    {
        CutterSettings {
            cut_method: CutMethod::Split,
            use_laser: false,
            laser_offset_x: 0,
            laser_offset_y: 0,
        }
    }
}

impl CutterSettings {
    /// The settings to work with, given what was found in the store: the
    /// stored settings, or the default ones where nothing was stored. Says
    /// also whether the settings are to be written to the store, which is
    /// so where nothing was stored.
    pub fn load(stored: Option<CutterSettings>) -> (r: (CutterSettings, bool))
        ensures
            r.0 == match stored {
                Some(s) => s,
                None => default_settings(),
            },
            r.1 == stored is None,
    {
        match stored {
            Some(s) => (s, false),
            None => (CutterSettings::default(), true),
        }
    }
}

} // verus!
