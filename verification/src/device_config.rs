//! Control-plane device configuration accepted from outside.

use vstd::prelude::*;

verus! {

/// Configuration of a directly assigned host device: the sysfs path of
/// the device to hand to the guest.
#[derive(Clone, Debug, PartialEq, Eq)]
pub struct VfioDeviceConfig {
    /// The host path naming the device.
    pub path: String,
}

impl VfioDeviceConfig {
    /// A configuration naming the device at `path`.
    pub fn new(path: String) -> (r: VfioDeviceConfig)
        ensures
            r.path == path,
    {
        VfioDeviceConfig { path }
    }
}

} // verus!
