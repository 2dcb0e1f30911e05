//! The outlet emulator. The TCP accept loop and the per-client read
//! loop live outside in unverified glue; every received payload is
//! handed to `SocketEmulator::handle_payload`, which performs the
//! command on the shared outlet state (one lock holder at a time) and
//! returns the reply frame to write back.

use vstd::prelude::*;

use crate::protocol::socket_protocol::{
    encode_frame, encode_response, frame_bytes, parse_command, parse_command_json, response_json,
    SocketCommand,
    response_wf, socket_data_wf, SocketData, SocketDataModel, SocketResponse, SocketResponseModel,
    MAX_MESSAGE_SIZE,
};
use crate::text::{
    escape_bytes, CENTI_LIMIT, ascii_string, lemma_ascii_bytes_utf8, lemma_escape_plain, lemma_valid_text_ascii,
};
use crate::units::Watts;

verus! {

/// Faults of the emulator lifecycle itself.
#[derive(Debug, Clone, Copy, PartialEq, Eq, Structural)]
pub enum EmulatorError {
    /// `start` was called on an instance already running.
    AlreadyRunning,
}

/// What an outlet emulator is told at construction.
#[derive(Debug, Clone)]
pub struct EmulatorConfig {
    /// The address the TCP listener binds.
    pub bind_address: String,
    /// The draw the outlet reports while on.
    pub power_rating: Watts,
    /// The label used in replies and logs.
    pub device_id: String,
}

/// A configuration the emulator can serve: a sound rating and a label
/// short enough that its escaped notation leaves a reply under the
/// frame cap.
pub open spec fn config_wf(c: EmulatorConfig) -> bool {
    &&& c.power_rating.wf()
    &&& vstd::utf8::encode_utf8(c.device_id@).len() * 6 + 100 <= MAX_MESSAGE_SIZE
}

impl EmulatorConfig {
    /// A new configuration: an ephemeral local port and a default
    /// label.
    pub fn new(power_rating: Watts) -> (r: EmulatorConfig)
        requires
            power_rating.wf(),
        ensures
            r.bind_address@ == "127.0.0.1:0"@,
            r.power_rating == power_rating,
            r.device_id@ == "socket_emulator"@,
    {
        EmulatorConfig {
            bind_address: String::from_str("127.0.0.1:0"),
            power_rating,
            device_id: String::from_str("socket_emulator"),
        }
    }

    /// Sets the bind address.
    pub fn with_address(self, address: &str) -> (r: EmulatorConfig)
        ensures
            r.bind_address@ == address@,
            r.power_rating == self.power_rating,
            r.device_id == self.device_id,
    {
        EmulatorConfig { bind_address: address.to_owned(), ..self }
    }

    /// Sets the device label.
    pub fn with_device_id(self, device_id: &str) -> (r: EmulatorConfig)
        ensures
            r.device_id@ == device_id@,
            r.power_rating == self.power_rating,
            r.bind_address == self.bind_address,
    {
        EmulatorConfig { device_id: device_id.to_owned(), ..self }
    }
}

/// The simulated outlet itself, shared by every connected client.
#[derive(Debug)]
pub struct SocketState {
    active: bool,
    current_power: Watts,
    device_id: Option<String>,
}

/// The record a state reports about itself.
pub open spec fn socket_state_model(s: SocketState) -> SocketDataModel {
    SocketDataModel {
        active: s.spec_active(),
        power: s.spec_current_power().spec_value(),
        device_id: match s.spec_device_id() {
            Some(chars) => Some(vstd::utf8::encode_utf8(chars)),
            None => None,
        },
    }
}

impl SocketState {
    pub closed spec fn spec_active(&self) -> bool {
        self.active
    }

    pub closed spec fn spec_current_power(&self) -> Watts {
        self.current_power
    }

    pub closed spec fn spec_device_id(&self) -> Option<Seq<char>> {
        match self.device_id {
            Some(ref s) => Some(s@),
            None => None,
        }
    }

    /// Sound power, and a label short enough that its escaped
    /// notation keeps the reply under the frame cap.
    pub open spec fn wf(&self) -> bool {
        &&& self.spec_current_power().wf()
        &&& match self.spec_device_id() {
            Some(chars) => vstd::utf8::encode_utf8(chars).len() * 6 + 100 <= MAX_MESSAGE_SIZE,
            None => true,
        }
    }

    /// A new outlet state: off, unlabeled.
    pub fn new() -> (r: SocketState)
        ensures
            !r.spec_active(),
            r.spec_current_power().spec_value() == 0,
            r.spec_device_id() is None,
            r.wf(),
    {
        SocketState { active: false, current_power: Watts::new(0), device_id: None }
    }

    /// Sets the label.
    pub fn with_device_id(self, device_id: String) -> (r: SocketState)
        ensures
            r.spec_device_id() == Some(device_id@),
            r.spec_active() == self.spec_active(),
            r.spec_current_power() == self.spec_current_power(),
    {
        SocketState { device_id: Some(device_id), ..self }
    }

    /// Power on: the outlet draws its rating.
    pub fn turn_on(&mut self, power_rating: Watts)
        ensures
            final(self).spec_active(),
            final(self).spec_current_power() == power_rating,
            final(self).spec_device_id() == old(self).spec_device_id(),
    {
        self.active = true;
        self.current_power = power_rating;
    }

    /// Power off: the outlet draws nothing.
    pub fn turn_off(&mut self)
        ensures
            !final(self).spec_active(),
            final(self).spec_current_power().spec_value() == 0,
            final(self).spec_device_id() == old(self).spec_device_id(),
    {
        self.active = false;
        self.current_power = Watts::new(0);
    }

    pub fn is_active(&self) -> (r: bool)
        ensures
            r == self.spec_active(),
    {
        self.active
    }

    pub fn current_power(&self) -> (r: Watts)
        ensures
            r == self.spec_current_power(),
    {
        self.current_power
    }

    pub fn device_id(&self) -> (r: Option<String>)
        ensures
            match r {
                Some(s) => self.spec_device_id() == Some(s@),
                None => self.spec_device_id() is None,
            },
    {
        match &self.device_id {
            Some(s) => Some(s.clone()),
            None => None,
        }
    }

    /// The record this state reports: what a reply carries.
    pub fn to_data(&self) -> (r: SocketData)
        requires
            self.wf(),
        ensures
            r@ == socket_state_model(*self),
            socket_data_wf(r),
    {
        let device_id: Option<String> = match &self.device_id {
            Some(s) => Some(s.clone()),
            None => None,
        };
        SocketData { active: self.active, power: self.current_power.value() as i64, device_id }
    }
}

/// The reply sent for a payload that is no command: the reason named,
/// after the invalid-command prefix.
pub open spec fn invalid_command_text() -> Seq<u8> {
    seq![73u8, 110, 118, 97, 108, 105, 100, 32, 99, 111, 109, 109, 97, 110, 100, 58, 32, 110, 111, 116, 32, 111, 110, 101, 32, 111, 102, 32, 116, 117, 114, 110, 95, 111, 110, 44, 32, 116, 117, 114, 110, 95, 111, 102, 102, 32, 111, 114, 32, 112, 111, 119, 101, 114]
}

/// The failure message sent for a payload that is no command.
fn invalid_command_message() -> (r: String)
    ensures
        vstd::utf8::encode_utf8(r@) == invalid_command_text(),
        escape_bytes(invalid_command_text()) == invalid_command_text(),
{
    let mut msg: Vec<u8> = Vec::new();
    msg.push(73);
    msg.push(110);
    msg.push(118);
    msg.push(97);
    msg.push(108);
    msg.push(105);
    msg.push(100);
    msg.push(32);
    msg.push(99);
    msg.push(111);
    msg.push(109);
    msg.push(109);
    msg.push(97);
    msg.push(110);
    msg.push(100);
    msg.push(58);
    msg.push(32);
    msg.push(110);
    msg.push(111);
    msg.push(116);
    msg.push(32);
    msg.push(111);
    msg.push(110);
    msg.push(101);
    msg.push(32);
    msg.push(111);
    msg.push(102);
    msg.push(32);
    msg.push(116);
    msg.push(117);
    msg.push(114);
    msg.push(110);
    msg.push(95);
    msg.push(111);
    msg.push(110);
    msg.push(44);
    msg.push(32);
    msg.push(116);
    msg.push(117);
    msg.push(114);
    msg.push(110);
    msg.push(95);
    msg.push(111);
    msg.push(102);
    msg.push(102);
    msg.push(32);
    msg.push(111);
    msg.push(114);
    msg.push(32);
    msg.push(112);
    msg.push(111);
    msg.push(119);
    msg.push(101);
    msg.push(114);
    proof {
        assert(msg@ =~= invalid_command_text());
        lemma_valid_text_ascii(msg@);
        lemma_ascii_bytes_utf8(invalid_command_text());
        lemma_escape_plain(invalid_command_text());
    }
    ascii_string(msg)
}

/// The outlet emulator's own state: the shared outlet, its
/// configuration, and the lifecycle bookkeeping. The listener socket
/// and the client tasks live outside.
pub struct SocketEmulator {
    state: SocketState,
    config: EmulatorConfig,
    bound_addr: Option<String>,
    running: bool,
}

impl SocketEmulator {
    pub closed spec fn spec_state(&self) -> SocketState {
        self.state
    }

    pub closed spec fn spec_config(&self) -> EmulatorConfig {
        self.config
    }

    pub closed spec fn spec_bound_addr(&self) -> Option<Seq<char>> {
        match self.bound_addr {
            Some(ref s) => Some(s@),
            None => None,
        }
    }

    pub closed spec fn spec_running(&self) -> bool {
        self.running
    }

    pub open spec fn wf(&self) -> bool {
        &&& self.spec_state().wf()
        &&& config_wf(self.spec_config())
    }

    /// A new emulator: outlet off under the configured label, not
    /// running, nothing bound.
    pub fn new(config: EmulatorConfig) -> (r: SocketEmulator)
        requires
            config_wf(config),
        ensures
            !r.spec_running(),
            r.spec_bound_addr() is None,
            r.spec_config() == config,
            !r.spec_state().spec_active(),
            r.spec_state().spec_current_power().spec_value() == 0,
            r.spec_state().spec_device_id() == Some(config.device_id@),
            r.wf(),
    {
        let state = SocketState::new().with_device_id(config.device_id.clone());
        SocketEmulator { state, config, bound_addr: None, running: false }
    }

    /// The address the listener bound, once it runs.
    pub fn local_addr(&self) -> (r: Option<String>)
        ensures
            match r {
                Some(s) => self.spec_bound_addr() == Some(s@),
                None => self.spec_bound_addr() is None,
            },
    {
        match &self.bound_addr {
            Some(s) => Some(s.clone()),
            None => None,
        }
    }

    pub fn is_running(&self) -> (r: bool)
        ensures
            r == self.spec_running(),
    {
        self.running
    }

    /// Records that the listener bound `bound_addr` and serves. A
    /// second start on a running instance fails and changes nothing.
    pub fn mark_started(&mut self, bound_addr: &str) -> (r: Result<(), EmulatorError>)
        ensures
            old(self).spec_running() ==> r == Err::<(), EmulatorError>(
                EmulatorError::AlreadyRunning,
            ) && final(self).spec_running() && final(self).spec_bound_addr() == old(self).spec_bound_addr(),
            !old(self).spec_running() ==> r == Ok::<(), EmulatorError>(()) && final(self).spec_running() && final(self).spec_bound_addr() == Some(bound_addr@),
            final(self).spec_state() == old(self).spec_state(),
            final(self).spec_config() == old(self).spec_config(),
    {
        if self.running {
            return Err(EmulatorError::AlreadyRunning);
        }
        self.running = true;
        self.bound_addr = Some(bound_addr.to_owned());
        Ok(())
    }

    /// Records that the listener has exited and the address is
    /// released; stopping twice is harmless.
    pub fn mark_stopped(&mut self)
        ensures
            !final(self).spec_running(),
            final(self).spec_bound_addr() is None,
            final(self).spec_state() == old(self).spec_state(),
            final(self).spec_config() == old(self).spec_config(),
    {
        self.running = false;
        self.bound_addr = None;
    }

    /// Performs one command on the shared outlet state and reports
    /// the state the outlet is left in: switching mutates and answers
    /// with the new state, the power query answers with the state as
    /// it stands.
    pub fn process_command(
        command: SocketCommand,
        state: &mut SocketState,
        power_rating: Watts,
    ) -> (r: SocketResponse)
        requires
            old(state).wf(),
            power_rating.wf(),
        ensures
            final(state).wf(),
            final(state).spec_device_id() == old(state).spec_device_id(),
            match command {
                SocketCommand::TurnOn => final(state).spec_active() && final(state).spec_current_power() == power_rating,
                SocketCommand::TurnOff => !final(state).spec_active() && final(state).spec_current_power().spec_value() == 0,
                SocketCommand::Power => *final(state) == *old(state),
            },
            r@ == SocketResponseModel::Okay(socket_state_model(*final(state))),
            response_wf(r),
    {
        match command {
            SocketCommand::TurnOn => {
                state.turn_on(power_rating);
            },
            SocketCommand::TurnOff => {
                state.turn_off();
            },
            SocketCommand::Power => {},
        }
        SocketResponse::Okay(state.to_data())
    }

    /// Takes one received payload: a command is performed on the
    /// outlet and answered with the resulting state; anything else
    /// leaves the outlet untouched and is answered with the invalid
    /// command failure. Either way the reply comes back as one whole
    /// frame, and only this one client sees the failure.
    pub fn handle_payload(state: &mut SocketState, power_rating: Watts, payload: &[u8]) -> (r:
        Vec<u8>)
        requires
            old(state).wf(),
            power_rating.wf(),
        ensures
            final(state).wf(),
            final(state).spec_device_id() == old(state).spec_device_id(),
            match parse_command_json(payload@) {
                Some(c) => r@ == frame_bytes(
                    response_json(SocketResponseModel::Okay(socket_state_model(*final(state)))),
                ) && match c {
                    SocketCommand::TurnOn => final(state).spec_active() && final(state).spec_current_power() == power_rating,
                    SocketCommand::TurnOff => !final(state).spec_active() && final(state).spec_current_power().spec_value() == 0,
                    SocketCommand::Power => *final(state) == *old(state),
                },
                None => *final(state) == *old(state) && r@ == frame_bytes(
                    response_json(SocketResponseModel::Error(invalid_command_text())),
                ),
            },
    {
        let response: SocketResponse = match parse_command(payload) {
            Ok(command) => Self::process_command(command, state, power_rating),
            Err(_) => {
                let message = invalid_command_message();
                SocketResponse::Error { message }
            },
        };
        let payload_out = match encode_response(&response) {
            Ok(v) => v,
            Err(_) => {
                proof {
                    assert(false);
                }
                Vec::new()
            },
        };
        proof {
            lemma_response_len_bound(response@);
        }
        encode_frame(payload_out.as_slice())
    }
}

/// A reply's notation stays under the frame cap: the label is bounded
/// by the state's well-formedness, everything else is short.
proof fn lemma_response_len_bound(m: SocketResponseModel)
    requires
        response_wf_model_bounded(m),
    ensures
        response_json(m).len() <= MAX_MESSAGE_SIZE,
{
    crate::text::lemma_centi_text_shape(
        match m {
            SocketResponseModel::Okay(d) => d.power,
            SocketResponseModel::Error(_) => 0,
        },
    );
    match m {
        SocketResponseModel::Okay(d) => {
            match d.device_id {
                Some(b) => {
                    crate::text::lemma_escape_len(b);
                },
                None => {},
            }
        },
        SocketResponseModel::Error(msg) => {
            crate::text::lemma_escape_len(msg);
        },
    }
}

/// A reply whose label or message leaves its escaped notation under
/// the cap.
pub open spec fn response_wf_model_bounded(m: SocketResponseModel) -> bool {
    match m {
        SocketResponseModel::Okay(d) => -CENTI_LIMIT < d.power < CENTI_LIMIT && match d.device_id {
            Some(b) => b.len() * 6 + 100 <= MAX_MESSAGE_SIZE,
            None => true,
        },
        SocketResponseModel::Error(msg) => msg.len() * 6 + 100 <= MAX_MESSAGE_SIZE,
    }
}

} // verus!
