//! Controllers that drive remote devices: the TCP outlet controller,
//! the UDP thermometer controller, and the closed sum of the two.

use vstd::prelude::*;

pub mod socket_controller;
pub mod therm_controller;

pub use socket_controller::SocketController;
pub use socket_controller::SocketError;
pub use therm_controller::SubscriptionHandle;
pub use therm_controller::SubscriptionRegistry;
pub use therm_controller::ThermController;
pub use therm_controller::ThermError;

verus! {

/// Any one controller of the home.
pub enum DeviceController {
    Socket(SocketController),
    Therm(ThermController),
}

impl DeviceController {
    pub open spec fn wf(&self) -> bool {
        match self {
            DeviceController::Socket(s) => s.wf(),
            DeviceController::Therm(t) => t.wf(),
        }
    }

    /// The report line of the device this controller mirrors.
    pub fn report(&self) -> (r: String)
        requires
            self.wf(),
        ensures
            r@ == match *self {
                DeviceController::Socket(s) => crate::devices::socket_report(s.spec_socket()),
                DeviceController::Therm(t) => crate::devices::therm_report(t.spec_therm()),
            },
    {
        match self {
            DeviceController::Socket(s) => s.report(),
            DeviceController::Therm(t) => t.report(),
        }
    }
}

impl From<SocketController> for DeviceController {
    fn from(socket: SocketController) -> (r: DeviceController) {
        DeviceController::Socket(socket)
    }
}

impl vstd::std_specs::convert::FromSpecImpl<SocketController> for DeviceController {
    open spec fn obeys_from_spec() -> bool {
        true
    }

    open spec fn from_spec(socket: SocketController) -> DeviceController {
        DeviceController::Socket(socket)
    }
}

impl From<ThermController> for DeviceController {
    fn from(therm: ThermController) -> (r: DeviceController) {
        DeviceController::Therm(therm)
    }
}

impl vstd::std_specs::convert::FromSpecImpl<ThermController> for DeviceController {
    open spec fn obeys_from_spec() -> bool {
        true
    }

    open spec fn from_spec(therm: ThermController) -> DeviceController {
        DeviceController::Therm(therm)
    }
}

} // verus!
