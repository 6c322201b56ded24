//! The older spelling of the volume controller, kept alongside the newer
//! one: the same clamping decision over the percent scale.

use vstd::prelude::*;

use crate::volume_controller::spec_clamp_volume;

verus! {

/// The system volume controller, older spelling: decides the volume to set
/// from the current one and a requested change.
pub struct VolumeControler {}

impl VolumeControler {
    pub fn new() -> (r: VolumeControler)
        ensures
            true,
    {
        VolumeControler {  }
    }

    /// The volume to set: the current one moved by `delta_percent`, held
    /// inside the percent scale.
    pub fn change_volume(&self, current_volume: i32, delta_percent: i32) -> (target: i32)
        ensures
            target as int == spec_clamp_volume(current_volume + delta_percent),
    {
        let sum: i64 = current_volume as i64 + delta_percent as i64;
        if sum < 0 {
            0
        } else if sum > 100 {
            100
        } else {
            sum as i32
        }
    }
}

} // verus!
