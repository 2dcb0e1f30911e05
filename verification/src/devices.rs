//! The devices a home holds: outlets and thermometers, and the closed
//! sum of the two.

use vstd::prelude::*;

mod smart_socket;
mod smart_therm;

pub use smart_socket::socket_report;
pub use smart_socket::SmartSocket;
pub use smart_therm::therm_report;
pub use smart_therm::SmartTherm;

verus! {

/// Any one device of the home.
#[derive(Debug, Clone, PartialEq)]
pub enum Device {
    Socket(SmartSocket),
    Therm(SmartTherm),
}

/// The line a device reports: that of the device it is.
pub open spec fn device_report(d: Device) -> Seq<char> {
    match d {
        Device::Socket(s) => socket_report(s),
        Device::Therm(t) => therm_report(t),
    }
}

impl Device {
    pub open spec fn wf(&self) -> bool {
        match self {
            Device::Socket(s) => s.wf(),
            Device::Therm(t) => t.wf(),
        }
    }

    /// The device's report line.
    pub fn report(&self) -> (r: String)
        requires
            self.wf(),
        ensures
            r@ == device_report(*self),
    {
        match self {
            Device::Socket(s) => s.report(),
            Device::Therm(t) => t.report(),
        }
    }
}

impl From<SmartSocket> for Device {
    fn from(socket: SmartSocket) -> (r: Device) {
        Device::Socket(socket)
    }
}

impl vstd::std_specs::convert::FromSpecImpl<SmartSocket> for Device {
    open spec fn obeys_from_spec() -> bool {
        true
    }

    open spec fn from_spec(socket: SmartSocket) -> Device {
        Device::Socket(socket)
    }
}

impl From<SmartTherm> for Device {
    fn from(therm: SmartTherm) -> (r: Device) {
        Device::Therm(therm)
    }
}

impl vstd::std_specs::convert::FromSpecImpl<SmartTherm> for Device {
    open spec fn obeys_from_spec() -> bool {
        true
    }

    open spec fn from_spec(therm: SmartTherm) -> Device {
        Device::Therm(therm)
    }
}

} // verus!
