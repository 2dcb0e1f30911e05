//! A thermometer holding its latest reading.

use vstd::prelude::*;

use crate::units::celsius::celsius_text;
use crate::units::Celsius;

verus! {

/// The thermometer model a controller keeps: the latest temperature.
#[derive(Debug, Clone, Copy, PartialEq, Eq, Structural)]
pub struct SmartTherm {
    temperature: Celsius,
}

/// The line a thermometer reports, as in `Smart Thermometer: 22.5°C`.
pub open spec fn therm_report(t: SmartTherm) -> Seq<char> {
    "Smart Thermometer: "@ + celsius_text(t.spec_temperature().spec_value())
}

impl SmartTherm {
    pub closed spec fn spec_temperature(&self) -> Celsius {
        self.temperature
    }

    pub open spec fn wf(&self) -> bool {
        self.spec_temperature().wf()
    }

    pub fn new(temperature: Celsius) -> (r: SmartTherm)
        ensures
            r.spec_temperature() == temperature,
    {
        SmartTherm { temperature }
    }

    pub fn temperature(&self) -> (r: Celsius)
        ensures
            r == self.spec_temperature(),
    {
        self.temperature
    }

    pub fn set_temperature(&mut self, temperature: Celsius)
        ensures
            final(self).spec_temperature() == temperature,
    {
        self.temperature = temperature;
    }

    /// The thermometer's report line.
    pub fn report(&self) -> (r: String)
        requires
            self.wf(),
        ensures
            r@ == therm_report(*self),
    {
        let mut out = String::new();
        out.append("Smart Thermometer: ");
        let t = self.temperature.text();
        out.append(t.as_str());
        proof {
            assert(out@ =~= therm_report(*self));
        }
        out
    }
}

} // verus!
