use vstd::prelude::*;

verus! {

/// One endpoint found on the network: an IPv4 address and a hardware
/// address, both as the text they were read from.
#[derive(Debug)]
pub struct Device {
    pub ip: String,
    pub mac_address: String,
}

/// The mathematical value of a `Device`: its two texts.
pub struct DeviceView {
    pub ip: Seq<char>,
    pub mac_address: Seq<char>,
}

impl View for Device {
    type V = DeviceView;

    open spec fn view(&self) -> DeviceView {
        DeviceView { ip: self.ip@, mac_address: self.mac_address@ }
    }
}

impl Device {
    /// Builds a device from its two texts; nothing is validated here.
    pub fn new(ip: String, mac_address: String) -> (r: Device)
        ensures
            r.ip@ == ip@,
            r.mac_address@ == mac_address@,
    {
        Device { ip: ip, mac_address: mac_address }
    }

    /// A field-by-field copy.
    pub fn duplicate(&self) -> (r: Device)
        ensures
            r@ == self@,
    {
        Device { ip: self.ip.clone(), mac_address: self.mac_address.clone() }
    }
}

impl Clone for Device {
    fn clone(&self) -> (r: Device)
        ensures
            r@ == self@,
    {
        self.duplicate()
    }
}

impl PartialEq for Device {
    fn eq(&self, other: &Device) -> (r: bool) {
        self.ip == other.ip && self.mac_address == other.mac_address
    }
}

impl vstd::std_specs::cmp::PartialEqSpecImpl for Device {
    open spec fn obeys_eq_spec() -> bool {
        true
    }

    open spec fn eq_spec(&self, other: &Device) -> bool {
        self@ == other@
    }
}

} // verus!
