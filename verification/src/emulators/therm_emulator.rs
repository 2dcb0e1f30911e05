//! The thermometer emulator. A background loop (unverified glue) asks
//! this module, each interval, for the next simulated temperature and
//! for the datagram that carries it, then sends the datagram.

use vstd::prelude::*;

use super::scenario::EmulationScenario;
use crate::protocol::socket_protocol::ProtocolError;
use crate::protocol::therm_protocol::{encode_therm_data, therm_data_wf, therm_json, ThermData};
use crate::text::{CENTI_LIMIT};
use crate::units::Celsius;

verus! {

/// Relies on `rand::random_range`: one sample drawn from the given
/// inclusive range. Nothing is promised beyond the bounds: the value
/// is random.
#[verifier::external_body]
fn random_in_range(lo: i64, hi: i64) -> (r: i64)
    requires
        lo <= hi,
    ensures
        lo <= r <= hi,
{
    rand::random_range(lo..=hi)
}

/// The thermometer emulator's own state; the sending loop and its
/// socket live outside.
pub struct ThermEmulator {
    initial_temp: Celsius,
    device_id: Option<String>,
    scenario: EmulationScenario,
    interval_ms: u64,
    target_addr: Option<String>,
    running: bool,
}

impl ThermEmulator {
    pub closed spec fn spec_initial_temp(&self) -> Celsius {
        self.initial_temp
    }

    pub closed spec fn spec_device_id(&self) -> Option<Seq<char>> {
        match self.device_id {
            Some(ref s) => Some(s@),
            None => None,
        }
    }

    pub closed spec fn spec_scenario(&self) -> EmulationScenario {
        self.scenario
    }

    pub closed spec fn spec_interval_ms(&self) -> u64 {
        self.interval_ms
    }

    pub closed spec fn spec_target_addr(&self) -> Option<Seq<char>> {
        match self.target_addr {
            Some(ref s) => Some(s@),
            None => None,
        }
    }

    pub closed spec fn spec_running(&self) -> bool {
        self.running
    }

    /// A new emulator: normal scenario, one-second interval, no
    /// destination, not running.
    pub fn new(initial_temp: Celsius) -> (r: ThermEmulator)
        ensures
            r.spec_initial_temp() == initial_temp,
            r.spec_device_id() is None,
            r.spec_scenario() == EmulationScenario::Normal,
            r.spec_interval_ms() == 1000,
            r.spec_target_addr() is None,
            !r.spec_running(),
    {
        ThermEmulator {
            initial_temp,
            device_id: None,
            scenario: EmulationScenario::Normal,
            interval_ms: 1000,
            target_addr: None,
            running: false,
        }
    }

    /// Sets the device label the datagrams carry.
    pub fn with_device_id(self, device_id: &str) -> (r: ThermEmulator)
        ensures
            r.spec_device_id() == Some(device_id@),
            r.spec_initial_temp() == self.spec_initial_temp(),
            r.spec_scenario() == self.spec_scenario(),
            r.spec_interval_ms() == self.spec_interval_ms(),
            r.spec_target_addr() == self.spec_target_addr(),
            r.spec_running() == self.spec_running(),
    {
        ThermEmulator { device_id: Some(device_id.to_owned()), ..self }
    }

    /// Sets the scenario.
    pub fn with_scenario(self, scenario: EmulationScenario) -> (r: ThermEmulator)
        ensures
            r.spec_scenario() == scenario,
            r.spec_initial_temp() == self.spec_initial_temp(),
            r.spec_device_id() == self.spec_device_id(),
            r.spec_interval_ms() == self.spec_interval_ms(),
            r.spec_target_addr() == self.spec_target_addr(),
            r.spec_running() == self.spec_running(),
    {
        ThermEmulator { scenario, ..self }
    }

    /// Sets the update interval, in milliseconds.
    pub fn with_update_interval(self, interval_ms: u64) -> (r: ThermEmulator)
        ensures
            r.spec_interval_ms() == interval_ms,
            r.spec_initial_temp() == self.spec_initial_temp(),
            r.spec_device_id() == self.spec_device_id(),
            r.spec_scenario() == self.spec_scenario(),
            r.spec_target_addr() == self.spec_target_addr(),
            r.spec_running() == self.spec_running(),
    {
        ThermEmulator { interval_ms, ..self }
    }

    /// Sets the destination the datagrams go to; never fails, the
    /// fallible shape mirrors the other connection setters.
    pub fn connect_to(&mut self, addr: &str) -> (r: Result<(), ProtocolError>)
        ensures
            r is Ok,
            final(self).spec_target_addr() == Some(addr@),
            final(self).spec_initial_temp() == old(self).spec_initial_temp(),
            final(self).spec_device_id() == old(self).spec_device_id(),
            final(self).spec_scenario() == old(self).spec_scenario(),
            final(self).spec_interval_ms() == old(self).spec_interval_ms(),
            final(self).spec_running() == old(self).spec_running(),
    {
        self.target_addr = Some(addr.to_owned());
        Ok(())
    }

    /// Records that the sending loop runs. Starting a running emulator
    /// is a usage error, a misconfiguration the glue stops on loudly;
    /// it is excluded here.
    pub fn mark_running(&mut self)
        requires
            !old(self).spec_running(),
        ensures
            final(self).spec_running(),
            final(self).spec_initial_temp() == old(self).spec_initial_temp(),
            final(self).spec_device_id() == old(self).spec_device_id(),
            final(self).spec_scenario() == old(self).spec_scenario(),
            final(self).spec_interval_ms() == old(self).spec_interval_ms(),
            final(self).spec_target_addr() == old(self).spec_target_addr(),
    {
        self.running = true;
    }

    /// Records that the sending loop has exited; stopping twice is
    /// harmless.
    pub fn mark_stopped(&mut self)
        ensures
            !final(self).spec_running(),
            final(self).spec_initial_temp() == old(self).spec_initial_temp(),
            final(self).spec_device_id() == old(self).spec_device_id(),
            final(self).spec_scenario() == old(self).spec_scenario(),
            final(self).spec_interval_ms() == old(self).spec_interval_ms(),
            final(self).spec_target_addr() == old(self).spec_target_addr(),
    {
        self.running = false;
    }

    pub fn is_running(&self) -> (r: bool)
        ensures
            r == self.spec_running(),
    {
        self.running
    }

    pub fn initial_temp(&self) -> (r: Celsius)
        ensures
            r == self.spec_initial_temp(),
    {
        self.initial_temp
    }

    pub fn scenario(&self) -> (r: EmulationScenario)
        ensures
            r == self.spec_scenario(),
    {
        self.scenario
    }

    pub fn interval_ms(&self) -> (r: u64)
        ensures
            r == self.spec_interval_ms(),
    {
        self.interval_ms
    }

    pub fn device_id(&self) -> (r: Option<String>)
        ensures
            match r {
                Some(s) => self.spec_device_id() == Some(s@),
                None => self.spec_device_id() is None,
            },
    {
        match &self.device_id {
            Some(s) => Some(s.clone()),
            None => None,
        }
    }

    pub fn target_addr(&self) -> (r: Option<String>)
        ensures
            match r {
                Some(s) => self.spec_target_addr() == Some(s@),
                None => self.spec_target_addr() is None,
            },
    {
        match &self.target_addr {
            Some(s) => Some(s.clone()),
            None => None,
        }
    }

    /// One simulation step: the next temperature, drawn at random
    /// within the band the scenario prescribes around the current one
    /// (in hundredths of a degree: normal within half a degree either
    /// way, fire one to three degrees up, freeze one to three degrees
    /// down, fluctuation two degrees either way).
    pub fn update_temperature(current: i64, scenario: EmulationScenario) -> (r: i64)
        requires
            -CENTI_LIMIT < current - 300,
            current + 300 < CENTI_LIMIT,
        ensures
            -CENTI_LIMIT < r < CENTI_LIMIT,
            scenario == EmulationScenario::Normal ==> current - 50 <= r <= current + 50,
            scenario == EmulationScenario::Fire ==> current + 100 <= r <= current + 300,
            scenario == EmulationScenario::Freeze ==> current - 300 <= r <= current - 100,
            scenario == EmulationScenario::Fluctuate ==> current - 200 <= r <= current + 200,
    {
        match scenario {
            EmulationScenario::Normal => current + random_in_range(-50, 50),
            EmulationScenario::Fire => current + random_in_range(100, 300),
            EmulationScenario::Freeze => current - random_in_range(100, 300),
            EmulationScenario::Fluctuate => current + random_in_range(-200, 200),
        }
    }

    /// The datagram that reports `current` hundredths of a degree
    /// under this emulator's device label; any label is carried, so
    /// within the notation's temperature range it never fails.
    pub fn sample_payload(&self, current: i64) -> (r: Result<Vec<u8>, ProtocolError>)
        requires
            -CENTI_LIMIT < current < CENTI_LIMIT,
        ensures
            match r {
                Ok(v) => exists|d: ThermData|
                    #![auto]
                    therm_data_wf(d) && d.temperature == current && v@ == therm_json(d@) && match (
                        d.device_id,
                        self.spec_device_id(),
                    ) {
                        (Some(a), Some(b)) => a@ == b,
                        (None, None) => true,
                        _ => false,
                    },
                Err(e) => false,
            },
    {
        let device_id: Option<String> = match &self.device_id {
            Some(s) => Some(s.clone()),
            None => None,
        };
        let data = ThermData { temperature: current, device_id };
        let r = encode_therm_data(&data);
        match r {
            Ok(v) => {
                proof {
                    assert(therm_data_wf(data) && data.temperature == current && v@ == therm_json(
                        data@,
                    ));
                }
                Ok(v)
            },
            Err(e) => Err(e),
        }
    }
}

} // verus!
