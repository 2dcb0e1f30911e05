//! The outlet controller. It keeps a local model of the remote outlet,
//! remembers whether a connection is thought to be open, and computes
//! both halves of every command round trip: the frame to send and the
//! state change a reply causes. The transport itself (connecting,
//! writing, reading, timeouts) lives outside, in unverified glue that
//! feeds bytes in and out of these functions.

use vstd::prelude::*;

use crate::devices::{socket_report, SmartSocket};
use crate::protocol::socket_protocol::{
    command_json, encode_command, encode_frame, frame_bytes, SocketCommand, SocketData,
    SocketResponse,
};
use crate::text::CENTI_LIMIT;
use crate::units::Watts;

verus! {

/// Failures an outlet operation reports to its caller.
#[derive(Debug, Clone, PartialEq)]
pub enum SocketError {
    /// The transport could not connect or carry data.
    ConnectionError(String),
    /// Sending or receiving a command failed below the timeout.
    CommandError(String),
    /// The outlet itself reported a failure.
    DeviceError(String),
    /// The local model's guard failed; a bug, not a network fault.
    LockError,
    /// The operation exceeded its time budget.
    Timeout,
}

/// The controller's own state: the mirrored outlet, the peer address,
/// the per-operation time budget, and whether a connection is held.
pub struct SocketController {
    socket: SmartSocket,
    address: String,
    timeout_ms: u64,
    connected: bool,
}

impl SocketController {
    pub closed spec fn spec_socket(&self) -> SmartSocket {
        self.socket
    }

    pub closed spec fn spec_address(&self) -> Seq<char> {
        self.address@
    }

    pub closed spec fn spec_timeout_ms(&self) -> u64 {
        self.timeout_ms
    }

    pub closed spec fn spec_connected(&self) -> bool {
        self.connected
    }

    pub open spec fn wf(&self) -> bool {
        self.spec_socket().wf()
    }

    /// A new controller: model off, no connection held.
    pub fn new(address: &str, power_rating: Watts, timeout_ms: u64) -> (r: SocketController)
        requires
            power_rating.wf(),
        ensures
            r.spec_address() == address@,
            r.spec_timeout_ms() == timeout_ms,
            !r.spec_connected(),
            !r.spec_socket().spec_is_active(),
            r.spec_socket().spec_power_rating() == power_rating,
            r.spec_socket().spec_current_power().spec_value() == 0,
            r.wf(),
    {
        SocketController {
            socket: SmartSocket::new(power_rating),
            address: address.to_owned(),
            timeout_ms,
            connected: false,
        }
    }

    /// Whether a new connection must be opened before the next command:
    /// always when none is held, and when the held one failed the
    /// liveness probe the transport ran.
    pub fn must_reconnect(&self, probe_alive: bool) -> (r: bool)
        ensures
            r == (!self.spec_connected() || !probe_alive),
    {
        !self.connected || !probe_alive
    }

    /// Records that the transport holds an open connection.
    pub fn mark_connected(&mut self)
        ensures
            final(self).spec_connected(),
            final(self).spec_socket() == old(self).spec_socket(),
            final(self).spec_address() == old(self).spec_address(),
            final(self).spec_timeout_ms() == old(self).spec_timeout_ms(),
    {
        self.connected = true;
    }

    /// Drops the held connection without error; the next operation
    /// reconnects lazily.
    pub fn disconnect(&mut self)
        ensures
            !final(self).spec_connected(),
            final(self).spec_socket() == old(self).spec_socket(),
            final(self).spec_address() == old(self).spec_address(),
            final(self).spec_timeout_ms() == old(self).spec_timeout_ms(),
    {
        self.connected = false;
    }

    /// The frame that carries `command` to the outlet.
    pub fn command_frame(&self, command: &SocketCommand) -> (r: Vec<u8>)
        ensures
            r@ == frame_bytes(command_json(*command)),
    {
        let payload = encode_command(command);
        encode_frame(payload.as_slice())
    }

    /// Applies one reply to the local model, as the round trip's second
    /// half: a report synchronizes the model's switch state and its
    /// draw from the snapshot (a wire draw outside the representable
    /// range leaves the switch-derived draw: the rating while on,
    /// nothing while off); a reported failure is handed to the caller
    /// untouched and changes nothing.
    pub fn apply_response(&mut self, response: SocketResponse) -> (r: Result<
        SocketData,
        SocketError,
    >)
        ensures
            final(self).spec_address() == old(self).spec_address(),
            final(self).spec_timeout_ms() == old(self).spec_timeout_ms(),
            final(self).spec_connected() == old(self).spec_connected(),
            final(self).spec_socket().spec_power_rating() == old(self).spec_socket().spec_power_rating(),
            old(self).wf() ==> final(self).wf(),
            match response {
                SocketResponse::Okay(d) => r == Ok::<SocketData, SocketError>(d) && final(self).spec_socket().spec_is_active() == d.active && if 0 <= d.power < CENTI_LIMIT {
                    final(self).spec_socket().spec_current_power().spec_value() == d.power
                } else {
                    final(self).spec_socket().draws_rated()
                },
                SocketResponse::Error { message } => r == Err::<SocketData, SocketError>(
                    SocketError::DeviceError(message),
                ) && final(self).spec_socket() == old(self).spec_socket(),
            },
    {
        match response {
            SocketResponse::Okay(data) => {
                if data.active {
                    self.socket.turn_on();
                } else {
                    self.socket.turn_off();
                }
                if data.power >= 0 && data.power < CENTI_LIMIT {
                    self.socket.set_current_power(Watts::new(data.power as u64));
                }
                Ok(data)
            },
            SocketResponse::Error { message } => Err(SocketError::DeviceError(message)),
        }
    }

    /// A copy of the local outlet model; reads nothing from the
    /// network. The fallible shape lets callers treat it like any
    /// guarded read; with the model owned here it always reports.
    pub fn device(&self) -> (r: Result<SmartSocket, SocketError>)
        ensures
            r == Ok::<SmartSocket, SocketError>(self.spec_socket()),
    {
        Ok(self.socket)
    }

    /// The peer address this controller talks to.
    pub fn address(&self) -> (r: String)
        ensures
            r@ == self.spec_address(),
    {
        self.address.clone()
    }

    /// The per-operation time budget, in milliseconds.
    pub fn timeout(&self) -> (r: u64)
        ensures
            r == self.spec_timeout_ms(),
    {
        self.timeout_ms
    }

    /// The report line of the mirrored outlet.
    pub fn report(&self) -> (r: String)
        requires
            self.wf(),
        ensures
            r@ == socket_report(self.spec_socket()),
    {
        self.socket.report()
    }
}

} // verus!
