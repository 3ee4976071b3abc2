use vstd::prelude::*;

verus! {

/// A registered device: a stable byte identifier, a validated display
/// name, and a liveness flag set when the device has recently contacted
/// the coordinator.
pub struct Device {
    pub identifier: Vec<u8>,
    pub name: Vec<u8>,
    pub active: bool,
}

impl Device {
    pub open spec fn wf(self) -> bool {
        crate::valid_name(self.name@)
    }

    pub fn new(identifier: Vec<u8>, name: Vec<u8>) -> (d: Device)
        requires
            crate::valid_name(name@),
        ensures
            d.identifier@ == identifier@,
            d.name@ == name@,
            !d.active,
            d.wf(),
    {
        Device { identifier, name, active: false }
    }

    pub fn identifier(&self) -> (r: &Vec<u8>)
        ensures
            r@ == self.identifier@,
    {
        &self.identifier
    }

    /// Flips the liveness flag: the device has just contacted the server.
    pub fn activated(&mut self)
        ensures
            final(self).identifier@ == old(self).identifier@,
            final(self).name@ == old(self).name@,
            final(self).active,
    {
        self.active = true;
    }
}

} // verus!
