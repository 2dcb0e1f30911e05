//! The outlet's TCP wire protocol: length-prefixed frames whose payload
//! is one JSON command or response.
//!
//! A frame is a four-byte big-endian length followed by that many bytes
//! of payload. Commands and responses are JSON objects written in one
//! fixed notation (no spaces, fields in declaration order, strings
//! escaped bytewise); the parsers accept exactly that notation, so
//! parsing is proved to be the inverse of encoding.

use vstd::prelude::*;

use crate::text::{
    push_escaped, CENTI_LIMIT, bytes_equal, bytes_match_at, centi_text, escape_bytes, find_byte, find_byte_in, is_num_byte, lemma_centi_text_shape, lemma_escape_adequate, lemma_escape_round_trip, lemma_find_byte_at, lemma_find_byte_found, lemma_find_byte_none, lemma_parse_centi_adequate, lemma_parse_centi_text, parse_centi, parse_centi_range, parse_escaped, push_centi_text, unescape_range,
};

verus! {

/// Longest payload a peer may declare: one mebibyte, the guard the
/// receive side applies before trusting a frame header.
pub const MAX_MESSAGE_SIZE: u32 = 1048576;

/// Failures of the wire layer: an oversized frame, a frame cut short,
/// and a payload that is not a well-formed message.
#[derive(Debug, Clone, Copy, PartialEq, Eq, Structural)]
pub enum ProtocolError {
    /// The declared payload length exceeds `MAX_MESSAGE_SIZE`.
    MessageTooLarge,
    /// The data ends before the declared frame does.
    UnexpectedEof,
    /// The payload is not a message this protocol knows.
    Malformed,
}

// ---------------------------------------------------------------------------
// Frames
// ---------------------------------------------------------------------------

/// Four-byte big-endian notation of `n`.
pub open spec fn be32(n: nat) -> Seq<u8> {
    seq![
        ((n / 0x1000000) % 256) as u8,
        ((n / 0x10000) % 256) as u8,
        ((n / 0x100) % 256) as u8,
        (n % 256) as u8,
    ]
}

/// The number a four-byte big-endian header declares.
pub open spec fn be32_val(s: Seq<u8>) -> nat {
    (s[0] * 0x1000000 + s[1] * 0x10000 + s[2] * 0x100 + s[3]) as nat
}

pub proof fn lemma_be32_round_trip(n: u32)
    ensures
        be32(n as nat).len() == 4,
        be32_val(be32(n as nat)) == n,
{
    assert(((n / 0x1000000) % 256) * 0x1000000 + ((n / 0x10000) % 256) * 0x10000 + ((n / 0x100)
        % 256) * 0x100 + n % 256 == n) by (bit_vector);
}

/// One frame: the payload length, then the payload.
pub open spec fn frame_bytes(payload: Seq<u8>) -> Seq<u8> {
    be32(payload.len()) + payload
}

/// What reading one frame from the start of `s` yields.
pub open spec fn decode_frame_spec(s: Seq<u8>) -> Result<Seq<u8>, ProtocolError> {
    if s.len() < 4 {
        Err(ProtocolError::UnexpectedEof)
    } else {
        let n = be32_val(s.take(4));
        if n > MAX_MESSAGE_SIZE {
            Err(ProtocolError::MessageTooLarge)
        } else if s.len() < 4 + n {
            Err(ProtocolError::UnexpectedEof)
        } else {
            Ok(s.subrange(4, (4 + n) as int))
        }
    }
}

/// Prepends the length header to a payload.
pub fn encode_frame(payload: &[u8]) -> (r: Vec<u8>)
    requires
        payload@.len() <= u32::MAX,
    ensures
        r@ == frame_bytes(payload@),
{
    let n: u32 = payload.len() as u32;
    let mut out: Vec<u8> = Vec::new();
    out.push(((n / 0x1000000) % 256) as u8);
    out.push(((n / 0x10000) % 256) as u8);
    out.push(((n / 0x100) % 256) as u8);
    out.push((n % 256) as u8);
    proof {
        assert(out@ =~= be32(payload@.len()));
    }
    let mut i: usize = 0;
    while i < payload.len()
        invariant
            0 <= i <= payload@.len(),
            out@ == be32(payload@.len()) + payload@.subrange(0, i as int),
        decreases payload@.len() - i,
    {
        out.push(payload[i]);
        proof {
            assert(out@ =~= be32(payload@.len()) + payload@.subrange(0, i + 1));
        }
        i += 1;
    }
    proof {
        assert(payload@.subrange(0, payload@.len() as int) =~= payload@);
    }
    out
}

/// The payload length a frame header declares, or the size-limit error.
pub fn header_payload_len(h: &[u8]) -> (r: Result<u32, ProtocolError>)
    requires
        h@.len() == 4,
    ensures
        match r {
            Ok(n) => n as nat == be32_val(h@) && n <= MAX_MESSAGE_SIZE,
            Err(e) => e == ProtocolError::MessageTooLarge && be32_val(h@) > MAX_MESSAGE_SIZE,
        },
{
    let n: u32 = (h[0] as u32) * 0x1000000 + (h[1] as u32) * 0x10000 + (h[2] as u32) * 0x100 + (
    h[3] as u32);
    if n > MAX_MESSAGE_SIZE {
        Err(ProtocolError::MessageTooLarge)
    } else {
        Ok(n)
    }
}

/// Reads the frame at the start of `s`: its payload and how many bytes
/// it occupied. Fails with the size-limit error on an oversized header
/// and with the end-of-stream error on a frame cut short.
pub fn decode_frame(s: &[u8]) -> (r: Result<(Vec<u8>, usize), ProtocolError>)
    ensures
        match r {
            Ok(p) => decode_frame_spec(s@) == Ok::<Seq<u8>, ProtocolError>(p.0@) && p.1 == 4
                + p.0@.len(),
            Err(e) => decode_frame_spec(s@) == Err::<Seq<u8>, ProtocolError>(e),
        },
{
    if s.len() < 4 {
        return Err(ProtocolError::UnexpectedEof);
    }
    proof {
        assert(s@.take(4)[0] == s@[0]);
        assert(s@.take(4)[1] == s@[1]);
        assert(s@.take(4)[2] == s@[2]);
        assert(s@.take(4)[3] == s@[3]);
    }
    let n: u32 = (s[0] as u32) * 0x1000000 + (s[1] as u32) * 0x10000 + (s[2] as u32) * 0x100 + (
    s[3] as u32);
    if n > MAX_MESSAGE_SIZE {
        return Err(ProtocolError::MessageTooLarge);
    }
    let need: usize = (n as usize) + 4;
    if s.len() < need {
        return Err(ProtocolError::UnexpectedEof);
    }
    let mut payload: Vec<u8> = Vec::new();
    let mut i: usize = 4;
    while i < need
        invariant
            4 <= i <= need <= s@.len(),
            payload@ == s@.subrange(4, i as int),
        decreases need - i,
    {
        payload.push(s[i]);
        proof {
            assert(payload@ =~= s@.subrange(4, i + 1));
        }
        i += 1;
    }
    Ok((payload, need))
}

/// Framing an oversized payload always trips the receive-side guard:
/// the decoder reports the size limit, never part of the payload.
pub proof fn lemma_frame_size_limit(payload: Seq<u8>)
    requires
        MAX_MESSAGE_SIZE < payload.len() <= u32::MAX,
    ensures
        decode_frame_spec(frame_bytes(payload)) == Err::<Seq<u8>, ProtocolError>(
            ProtocolError::MessageTooLarge,
        ),
{
    let f = frame_bytes(payload);
    lemma_be32_round_trip(payload.len() as u32);
    assert(f.take(4) =~= be32(payload.len()));
}

/// A whole frame decodes back to its payload.
pub proof fn lemma_frame_round_trip(payload: Seq<u8>)
    requires
        payload.len() <= MAX_MESSAGE_SIZE,
    ensures
        decode_frame_spec(frame_bytes(payload)) == Ok::<Seq<u8>, ProtocolError>(payload),
{
    let f = frame_bytes(payload);
    lemma_be32_round_trip(payload.len() as u32);
    assert(f.take(4) =~= be32(payload.len()));
    assert(f.subrange(4, 4 + payload.len() as int) =~= payload);
}

// ---------------------------------------------------------------------------
// Commands
// ---------------------------------------------------------------------------

/// A request an outlet controller issues to an outlet.
#[derive(Debug, Clone, Copy, PartialEq, Eq, Structural)]
pub enum SocketCommand {
    TurnOn,
    TurnOff,
    Power,
}

/// The notation `{"command":"turn_on"}`.
pub open spec fn turn_on_json() -> Seq<u8> {
    seq![123u8, 34, 99, 111, 109, 109, 97, 110, 100, 34, 58, 34, 116, 117, 114, 110, 95, 111, 110, 34, 125]
}

/// The notation `{"command":"turn_off"}`.
pub open spec fn turn_off_json() -> Seq<u8> {
    seq![123u8, 34, 99, 111, 109, 109, 97, 110, 100, 34, 58, 34, 116, 117, 114, 110, 95, 111, 102, 102, 34, 125]
}

/// The notation `{"command":"power"}`.
pub open spec fn power_json() -> Seq<u8> {
    seq![123u8, 34, 99, 111, 109, 109, 97, 110, 100, 34, 58, 34, 112, 111, 119, 101, 114, 34, 125]
}

/// The JSON object naming a command.
pub open spec fn command_json(c: SocketCommand) -> Seq<u8> {
    match c {
        SocketCommand::TurnOn => turn_on_json(),
        SocketCommand::TurnOff => turn_off_json(),
        SocketCommand::Power => power_json(),
    }
}

/// The command a payload names, if any.
pub open spec fn parse_command_json(s: Seq<u8>) -> Option<SocketCommand> {
    if s == turn_on_json() {
        Some(SocketCommand::TurnOn)
    } else if s == turn_off_json() {
        Some(SocketCommand::TurnOff)
    } else if s == power_json() {
        Some(SocketCommand::Power)
    } else {
        None
    }
}

/// Any command read back from its own notation is itself, and nothing
/// else is read from that notation.
pub proof fn lemma_command_round_trip(c: SocketCommand)
    ensures
        parse_command_json(command_json(c)) == Some(c),
{
    assert(turn_on_json().len() == 21);
    assert(turn_off_json().len() == 22);
    assert(power_json().len() == 19);
}

/// A whole command frame, decoded, reads back as the command it was
/// built from: the client-to-outlet direction round-trips end to end.
pub proof fn lemma_command_frame_round_trip(c: SocketCommand)
    ensures
        match decode_frame_spec(frame_bytes(command_json(c))) {
            Ok(p) => parse_command_json(p) == Some(c),
            Err(e) => false,
        },
{
    assert(command_json(c).len() <= 22);
    lemma_frame_round_trip(command_json(c));
    lemma_command_round_trip(c);
}

/// Serializes a command.
pub fn encode_command(c: &SocketCommand) -> (r: Vec<u8>)
    ensures
        r@ == command_json(*c),
{
    let mut out: Vec<u8> = Vec::new();
    out.push(123);
    out.push(34);
    out.push(99);
    out.push(111);
    out.push(109);
    out.push(109);
    out.push(97);
    out.push(110);
    out.push(100);
    out.push(34);
    out.push(58);
    out.push(34);
    match c {
        SocketCommand::TurnOn => {
            out.push(116);
            out.push(117);
            out.push(114);
            out.push(110);
            out.push(95);
            out.push(111);
            out.push(110);
        },
        SocketCommand::TurnOff => {
            out.push(116);
            out.push(117);
            out.push(114);
            out.push(110);
            out.push(95);
            out.push(111);
            out.push(102);
            out.push(102);
        },
        SocketCommand::Power => {
            out.push(112);
            out.push(111);
            out.push(119);
            out.push(101);
            out.push(114);
        },
    }
    out.push(34);
    out.push(125);
    proof {
        assert(out@ =~= command_json(*c));
    }
    out
}

/// Reads a command payload; fails as malformed on anything that is not
/// exactly one of the three command objects.
pub fn parse_command(payload: &[u8]) -> (r: Result<SocketCommand, ProtocolError>)
    ensures
        match r {
            Ok(c) => parse_command_json(payload@) == Some(c),
            Err(e) => e == ProtocolError::Malformed && parse_command_json(payload@) is None,
        },
{
    let on = encode_command(&SocketCommand::TurnOn);
    if bytes_equal(payload, on.as_slice()) {
        return Ok(SocketCommand::TurnOn);
    }
    let off = encode_command(&SocketCommand::TurnOff);
    if bytes_equal(payload, off.as_slice()) {
        return Ok(SocketCommand::TurnOff);
    }
    let power = encode_command(&SocketCommand::Power);
    if bytes_equal(payload, power.as_slice()) {
        return Ok(SocketCommand::Power);
    }
    Err(ProtocolError::Malformed)
}

// ---------------------------------------------------------------------------
// Responses
// ---------------------------------------------------------------------------

/// What the outlet reports about itself: whether it feeds power, the
/// draw in hundredths of a watt, and an optional device label.
#[derive(Debug, Clone, PartialEq)]
pub struct SocketData {
    pub active: bool,
    /// Hundredths of a watt.
    pub power: i64,
    pub device_id: Option<String>,
}

/// An outlet's reply: its state, or a reported failure.
#[derive(Debug, Clone, PartialEq)]
pub enum SocketResponse {
    Okay(SocketData),
    Error { message: String },
}

/// The mathematical content of a `SocketData`: the label is plain bytes.
pub struct SocketDataModel {
    pub active: bool,
    pub power: int,
    pub device_id: Option<Seq<u8>>,
}

/// The mathematical content of a `SocketResponse`.
pub enum SocketResponseModel {
    Okay(SocketDataModel),
    Error(Seq<u8>),
}

impl View for SocketData {
    type V = SocketDataModel;

    open spec fn view(&self) -> SocketDataModel {
        SocketDataModel {
            active: self.active,
            power: self.power as int,
            device_id: match self.device_id {
                Some(s) => Some(vstd::utf8::encode_utf8(s@)),
                None => None,
            },
        }
    }
}

impl View for SocketResponse {
    type V = SocketResponseModel;

    open spec fn view(&self) -> SocketResponseModel {
        match self {
            SocketResponse::Okay(d) => SocketResponseModel::Okay(d@),
            SocketResponse::Error { message } => SocketResponseModel::Error(
                vstd::utf8::encode_utf8(message@),
            ),
        }
    }
}

/// A record the wire notation can carry: bounded power, and a label
/// that is some string's UTF-8 bytes.
pub open spec fn data_model_wf(d: SocketDataModel) -> bool {
    &&& -CENTI_LIMIT < d.power < CENTI_LIMIT
    &&& match d.device_id {
        Some(b) => vstd::utf8::valid_utf8(b),
        None => true,
    }
}

pub open spec fn response_model_wf(m: SocketResponseModel) -> bool {
    match m {
        SocketResponseModel::Okay(d) => data_model_wf(d),
        SocketResponseModel::Error(msg) => vstd::utf8::valid_utf8(msg),
    }
}

/// The notation `{"result":"ok","active":`.
pub open spec fn ok_prefix() -> Seq<u8> {
    seq![123u8, 34, 114, 101, 115, 117, 108, 116, 34, 58, 34, 111, 107, 34, 44, 34, 97, 99, 116, 105, 118, 101, 34, 58]
}

/// The notation `,"power":`.
pub open spec fn power_mid() -> Seq<u8> {
    seq![44u8, 34, 112, 111, 119, 101, 114, 34, 58]
}

/// The notation `,"device_id":`.
pub open spec fn id_mid() -> Seq<u8> {
    seq![44u8, 34, 100, 101, 118, 105, 99, 101, 95, 105, 100, 34, 58]
}

/// The notation `{"result":"error","message":"`.
pub open spec fn err_prefix() -> Seq<u8> {
    seq![123u8, 34, 114, 101, 115, 117, 108, 116, 34, 58, 34, 101, 114, 114, 111, 114, 34, 44, 34, 109, 101, 115, 115, 97, 103, 101, 34, 58, 34]
}

pub open spec fn null_bytes() -> Seq<u8> {
    seq![110u8, 117, 108, 108]
}

pub open spec fn true_bytes() -> Seq<u8> {
    seq![116u8, 114, 117, 101]
}

pub open spec fn false_bytes() -> Seq<u8> {
    seq![102u8, 97, 108, 115, 101]
}

/// The notation of an optional label: `null`, or the bytes escaped
/// and quoted.
pub open spec fn id_json(id: Option<Seq<u8>>) -> Seq<u8> {
    match id {
        None => null_bytes(),
        Some(b) => seq![34u8] + escape_bytes(b) + seq![34u8],
    }
}

/// Reads an optional label.
pub open spec fn parse_id(seg: Seq<u8>) -> Option<Option<Seq<u8>>> {
    if seg == null_bytes() {
        Some(None)
    } else if seg.len() >= 2 && seg[0] == 34 && seg.last() == 34 {
        match parse_escaped(seg.subrange(1, seg.len() - 1)) {
            Some(b) => if vstd::utf8::valid_utf8(b) {
                Some(Some(b))
            } else {
                None
            },
            None => None,
        }
    } else {
        None
    }
}

pub proof fn lemma_id_round_trip(id: Option<Seq<u8>>)
    requires
        match id {
            Some(b) => vstd::utf8::valid_utf8(b),
            None => true,
        },
    ensures
        parse_id(id_json(id)) == Some(id),
{
    match id {
        None => {},
        Some(b) => {
            let seg = id_json(id);
            let e = escape_bytes(b);
            assert(seg.len() == e.len() + 2);
            assert(seg[0] == 34);
            assert(seg.last() == 34);
            assert(seg != null_bytes()) by {
                if seg.len() == 4 {
                    assert(seg[0] == 34 && null_bytes()[0] == 110);
                }
            }
            assert(seg.subrange(1, seg.len() - 1) =~= e);
            lemma_escape_round_trip(b);
        },
    }
}

pub proof fn lemma_id_adequate(seg: Seq<u8>, id: Option<Seq<u8>>)
    requires
        parse_id(seg) == Some(id),
    ensures
        seg == id_json(id),
        match id {
            Some(b) => vstd::utf8::valid_utf8(b),
            None => true,
        },
{
    if seg != null_bytes() {
        let mid = seg.subrange(1, seg.len() - 1);
        let b = parse_escaped(mid).unwrap();
        lemma_escape_adequate(mid, b);
        assert(seg =~= seq![34u8] + escape_bytes(b) + seq![34u8]);
    }
}

/// The JSON object an outlet reply is written as.
pub open spec fn response_json(m: SocketResponseModel) -> Seq<u8> {
    match m {
        SocketResponseModel::Okay(d) => ok_prefix() + (if d.active {
            true_bytes()
        } else {
            false_bytes()
        }) + power_mid() + centi_text(d.power) + id_mid() + id_json(d.device_id) + seq![125u8],
        SocketResponseModel::Error(msg) => err_prefix() + escape_bytes(msg) + seq![34u8, 125],
    }
}

/// Reads what follows `,"power":` once the flag is known.
pub open spec fn parse_after_active(b: bool, u: Seq<u8>) -> Option<SocketResponseModel> {
    if u.len() >= 9 && u.take(9) == power_mid() {
        let w = u.skip(9);
        match find_byte(w, 44) {
            Some(k) => match parse_centi(w.take(k)) {
                Some(p) => {
                    let x = w.skip(k);
                    if x.len() >= 14 && x.take(13) == id_mid() && x.last() == 125 {
                        match parse_id(x.subrange(13, x.len() - 1)) {
                            Some(id) => Some(
                                SocketResponseModel::Okay(
                                    SocketDataModel { active: b, power: p, device_id: id },
                                ),
                            ),
                            None => None,
                        }
                    } else {
                        None
                    }
                },
                None => None,
            },
            None => None,
        }
    } else {
        None
    }
}

/// Reads what follows `{"result":"ok","active":`.
pub open spec fn parse_ok_tail(t: Seq<u8>) -> Option<SocketResponseModel> {
    if t.len() >= 4 && t.take(4) == true_bytes() {
        parse_after_active(true, t.skip(4))
    } else if t.len() >= 5 && t.take(5) == false_bytes() {
        parse_after_active(false, t.skip(5))
    } else {
        None
    }
}

/// The reply a payload spells, if any.
pub open spec fn parse_response_json(s: Seq<u8>) -> Option<SocketResponseModel> {
    if s.len() >= 24 && s.take(24) == ok_prefix() {
        parse_ok_tail(s.skip(24))
    } else if s.len() >= 31 && s.take(29) == err_prefix() && s[s.len() - 2] == 34 && s[s.len()
        - 1] == 125 {
        match parse_escaped(s.subrange(29, s.len() - 2)) {
            Some(msg) => if vstd::utf8::valid_utf8(msg) {
                Some(SocketResponseModel::Error(msg))
            } else {
                None
            },
            None => None,
        }
    } else {
        None
    }
}

/// The tail after the flag reads back as the record it was built from.
#[verifier::rlimit(100)]
#[verifier::spinoff_prover]
proof fn lemma_ok_tail_round_trip(d: SocketDataModel)
    requires
        data_model_wf(d),
    ensures
        parse_after_active(
            d.active,
            power_mid() + centi_text(d.power) + id_mid() + id_json(d.device_id) + seq![125u8],
        ) == Some(SocketResponseModel::Okay(d)),
{
    let num = centi_text(d.power);
    let u = power_mid() + num + id_mid() + id_json(d.device_id) + seq![125u8];
    assert(u.take(9) =~= power_mid());
    let w = num + id_mid() + id_json(d.device_id) + seq![125u8];
    assert(u.skip(9) =~= w);
    lemma_centi_text_shape(d.power);
    assert(w[num.len() as int] == 44);
    assert forall|j: int| 0 <= j < num.len() implies w[j] != 44 by {
        assert(is_num_byte(num[j]));
    }
    lemma_find_byte_at(w, 44, num.len() as int);
    assert(w.take(num.len() as int) =~= num);
    lemma_parse_centi_text(d.power);
    let x = w.skip(num.len() as int);
    assert(x =~= id_mid() + id_json(d.device_id) + seq![125u8]);
    assert(x.take(13) =~= id_mid());
    assert(x.len() >= 14);
    assert(x.last() == 125);
    assert(x.subrange(13, x.len() - 1) =~= id_json(d.device_id));
    lemma_id_round_trip(d.device_id);
}

/// Any reply read back from its own notation is itself.
#[verifier::rlimit(100)]
#[verifier::spinoff_prover]
pub proof fn lemma_response_round_trip(m: SocketResponseModel)
    requires
        response_model_wf(m),
    ensures
        parse_response_json(response_json(m)) == Some(m),
{
    let s = response_json(m);
    match m {
        SocketResponseModel::Okay(d) => {
            let bool_part = if d.active {
                true_bytes()
            } else {
                false_bytes()
            };
            let u = power_mid() + centi_text(d.power) + id_mid() + id_json(d.device_id) + seq![
                125u8,
            ];
            let t = bool_part + u;
            assert(s =~= ok_prefix() + t);
            assert(s.take(24) =~= ok_prefix());
            assert(s.skip(24) =~= t);
            if d.active {
                assert(t.take(4) =~= true_bytes());
                assert(t.skip(4) =~= u);
            } else {
                assert(t.take(5) =~= false_bytes());
                assert(t.skip(5) =~= u);
                assert(t.take(4)[0] == 102 && true_bytes()[0] == 116);
            }
            lemma_ok_tail_round_trip(d);
        },
        SocketResponseModel::Error(msg) => {
            let e = escape_bytes(msg);
            assert(s.len() == 31 + e.len());
            assert(s.take(29) =~= err_prefix());
            assert(s[s.len() - 2] == 34);
            assert(s[s.len() - 1] == 125);
            assert(s.subrange(29, s.len() - 2) =~= e);
            lemma_escape_round_trip(msg);
            assert(s.take(24)[11] == 101 && ok_prefix()[11] == 111);
        },
    }
}

/// Only the notation of `m` reads as `m`: the parser accepts nothing
/// else, so the notation is one-to-one.
#[verifier::rlimit(100)]
#[verifier::spinoff_prover]
pub proof fn lemma_response_adequate(s: Seq<u8>, m: SocketResponseModel)
    requires
        parse_response_json(s) == Some(m),
    ensures
        s == response_json(m),
        response_model_wf(m),
{
    if s.len() >= 24 && s.take(24) == ok_prefix() {
        let t = s.skip(24);
        let bool_len: int = if t.len() >= 4 && t.take(4) == true_bytes() {
            4
        } else {
            5
        };
        let active = bool_len == 4;
        let u = t.skip(bool_len);
        assert(parse_after_active(active, u) == Some(m));
        let w = u.skip(9);
        let k = find_byte(w, 44).unwrap();
        lemma_find_byte_found(w, 44);
        let p = parse_centi(w.take(k)).unwrap();
        lemma_parse_centi_adequate(w.take(k), p);
        let x = w.skip(k);
        let id = parse_id(x.subrange(13, x.len() - 1)).unwrap();
        lemma_id_adequate(x.subrange(13, x.len() - 1), id);
        assert(x =~= id_mid() + id_json(id) + seq![125u8]) by {
            assert(x.take(13) == id_mid());
            assert(x.subrange(13, x.len() - 1) == id_json(id));
            assert(x =~= x.take(13) + x.subrange(13, x.len() - 1) + seq![x.last()]);
        }
        assert(w =~= w.take(k) + x);
        assert(u =~= power_mid() + w) by {
            assert(u.take(9) == power_mid());
            assert(u =~= u.take(9) + u.skip(9));
        }
        assert(t =~= (if active {
            true_bytes()
        } else {
            false_bytes()
        }) + u) by {
            if active {
                assert(t.take(4) == true_bytes());
                assert(t =~= t.take(4) + t.skip(4));
            } else {
                assert(t.take(5) == false_bytes());
                assert(t =~= t.take(5) + t.skip(5));
            }
        }
        assert(s =~= ok_prefix() + t) by {
            assert(s.take(24) == ok_prefix());
            assert(s =~= s.take(24) + s.skip(24));
        }
        assert(s =~= response_json(m));
    } else {
        let mid = s.subrange(29, s.len() - 2);
        let msg = parse_escaped(mid).unwrap();
        lemma_escape_adequate(mid, msg);
        assert(s =~= err_prefix() + escape_bytes(msg) + seq![34u8, 125]) by {
            assert(s.take(29) == err_prefix());
            assert(s =~= s.take(29) + mid + seq![s[s.len() - 2], s[s.len() - 1]]);
        }
    }
}

// ---------------------------------------------------------------------------
// Well-formedness of the executable types
// ---------------------------------------------------------------------------

/// A record the notation can carry: the power in range. Any label a
/// string can hold is carried, escaped.
pub open spec fn socket_data_wf(d: SocketData) -> bool {
    -CENTI_LIMIT < d.power < CENTI_LIMIT
}

pub open spec fn response_wf(r: SocketResponse) -> bool {
    match r {
        SocketResponse::Okay(d) => socket_data_wf(d),
        SocketResponse::Error { message: _ } => true,
    }
}

/// A well-formed response has a well-formed mathematical content: a
/// string's UTF-8 bytes are always valid UTF-8.
pub proof fn lemma_response_wf_model(r: SocketResponse)
    requires
        response_wf(r),
    ensures
        response_model_wf(r@),
{
    broadcast use vstd::utf8::encode_utf8_valid_utf8;

    match r {
        SocketResponse::Okay(d) => {
            match d.device_id {
                Some(s) => {
                    assert(vstd::utf8::valid_utf8(vstd::utf8::encode_utf8(s@)));
                },
                None => {},
            }
        },
        SocketResponse::Error { message } => {
            assert(vstd::utf8::valid_utf8(vstd::utf8::encode_utf8(message@)));
        },
    }
}

fn ok_prefix_vec() -> (r: Vec<u8>)
    ensures
        r@ == ok_prefix(),
{
    let mut v: Vec<u8> = Vec::new();
    v.push(123);
    v.push(34);
    v.push(114);
    v.push(101);
    v.push(115);
    v.push(117);
    v.push(108);
    v.push(116);
    v.push(34);
    v.push(58);
    v.push(34);
    v.push(111);
    v.push(107);
    v.push(34);
    v.push(44);
    v.push(34);
    v.push(97);
    v.push(99);
    v.push(116);
    v.push(105);
    v.push(118);
    v.push(101);
    v.push(34);
    v.push(58);
    proof {
        assert(v@ =~= ok_prefix());
    }
    v
}

fn power_mid_vec() -> (r: Vec<u8>)
    ensures
        r@ == power_mid(),
{
    let mut v: Vec<u8> = Vec::new();
    v.push(44);
    v.push(34);
    v.push(112);
    v.push(111);
    v.push(119);
    v.push(101);
    v.push(114);
    v.push(34);
    v.push(58);
    proof {
        assert(v@ =~= power_mid());
    }
    v
}

pub fn id_mid_vec() -> (r: Vec<u8>)
    ensures
        r@ == id_mid(),
{
    let mut v: Vec<u8> = Vec::new();
    v.push(44);
    v.push(34);
    v.push(100);
    v.push(101);
    v.push(118);
    v.push(105);
    v.push(99);
    v.push(101);
    v.push(95);
    v.push(105);
    v.push(100);
    v.push(34);
    v.push(58);
    proof {
        assert(v@ =~= id_mid());
    }
    v
}

fn err_prefix_vec() -> (r: Vec<u8>)
    ensures
        r@ == err_prefix(),
{
    let mut v: Vec<u8> = Vec::new();
    v.push(123);
    v.push(34);
    v.push(114);
    v.push(101);
    v.push(115);
    v.push(117);
    v.push(108);
    v.push(116);
    v.push(34);
    v.push(58);
    v.push(34);
    v.push(101);
    v.push(114);
    v.push(114);
    v.push(111);
    v.push(114);
    v.push(34);
    v.push(44);
    v.push(34);
    v.push(109);
    v.push(101);
    v.push(115);
    v.push(115);
    v.push(97);
    v.push(103);
    v.push(101);
    v.push(34);
    v.push(58);
    v.push(34);
    proof {
        assert(v@ =~= err_prefix());
    }
    v
}

pub fn null_bytes_vec() -> (r: Vec<u8>)
    ensures
        r@ == null_bytes(),
{
    let mut v: Vec<u8> = Vec::new();
    v.push(110);
    v.push(117);
    v.push(108);
    v.push(108);
    proof {
        assert(v@ =~= null_bytes());
    }
    v
}

fn true_bytes_vec() -> (r: Vec<u8>)
    ensures
        r@ == true_bytes(),
{
    let mut v: Vec<u8> = Vec::new();
    v.push(116);
    v.push(114);
    v.push(117);
    v.push(101);
    proof {
        assert(v@ =~= true_bytes());
    }
    v
}

fn false_bytes_vec() -> (r: Vec<u8>)
    ensures
        r@ == false_bytes(),
{
    let mut v: Vec<u8> = Vec::new();
    v.push(102);
    v.push(97);
    v.push(108);
    v.push(115);
    v.push(101);
    proof {
        assert(v@ =~= false_bytes());
    }
    v
}


// ---------------------------------------------------------------------------
// Serializing and reading responses
// ---------------------------------------------------------------------------

/// Serializes a reply; fails exactly when the power lies outside the
/// range the notation carries. Labels and messages are escaped, so
/// any string is carried.
pub fn encode_response(resp: &SocketResponse) -> (r: Result<Vec<u8>, ProtocolError>)
    ensures
        match r {
            Ok(v) => response_wf(*resp) && v@ == response_json(resp@),
            Err(e) => e == ProtocolError::Malformed && !response_wf(*resp),
        },
{
    match resp {
        SocketResponse::Okay(d) => {
            if !(-CENTI_LIMIT < d.power && d.power < CENTI_LIMIT) {
                return Err(ProtocolError::Malformed);
            }
            let mut out = ok_prefix_vec();
            let mut flag = if d.active {
                true_bytes_vec()
            } else {
                false_bytes_vec()
            };
            out.append(&mut flag);
            let mut pm = power_mid_vec();
            out.append(&mut pm);
            push_centi_text(&mut out, d.power);
            let mut im = id_mid_vec();
            out.append(&mut im);
            match &d.device_id {
                Some(s) => {
                    out.push(34);
                    push_escaped(&mut out, s.as_str().as_bytes());
                    out.push(34);
                    proof {
                        assert(id_json(d@.device_id) =~= seq![34u8] + escape_bytes(
                            vstd::utf8::encode_utf8(s@),
                        ) + seq![34u8]);
                    }
                },
                None => {
                    let mut nl = null_bytes_vec();
                    out.append(&mut nl);
                },
            }
            out.push(125);
            proof {
                assert(out@ =~= response_json(resp@));
            }
            Ok(out)
        },
        SocketResponse::Error { message } => {
            let mut out = err_prefix_vec();
            push_escaped(&mut out, message.as_str().as_bytes());
            out.push(34);
            out.push(125);
            proof {
                assert(out@ =~= response_json(resp@));
            }
            Ok(out)
        },
    }
}

/// Reads a reply payload; fails as malformed on anything that is not
/// exactly the wire notation of some reply.
#[verifier::rlimit(100)]
#[verifier::spinoff_prover]
pub fn parse_response(payload: &[u8]) -> (r: Result<SocketResponse, ProtocolError>)
    ensures
        match r {
            Ok(resp) => parse_response_json(payload@) == Some(resp@) && response_wf(resp),
            Err(e) => e == ProtocolError::Malformed && parse_response_json(payload@) is None,
        },
{
    let n = payload.len();
    let okp = ok_prefix_vec();
    let errp = err_prefix_vec();
    if bytes_match_at(payload, 0, okp.as_slice()) {
        proof {
            assert(payload@.take(24) =~= payload@.subrange(0, 24));
        }
        let ghost t = payload@.skip(24);
        let tv = true_bytes_vec();
        let fv = false_bytes_vec();
        let active: bool;
        let pos: usize;
        if bytes_match_at(payload, 24, tv.as_slice()) {
            active = true;
            pos = 28;
            proof {
                assert(t.take(4) =~= payload@.subrange(24, 28));
            }
        } else if bytes_match_at(payload, 24, fv.as_slice()) {
            active = false;
            pos = 29;
            proof {
                assert(t.take(4) =~= payload@.subrange(24, 28));
                if t.len() >= 4 && t.take(4) == true_bytes() {
                    assert(payload@.subrange(24, 28) == true_bytes());
                    assert(false);
                }
                assert(t.take(5) =~= payload@.subrange(24, 29));
            }
        } else {
            proof {
                if t.len() >= 4 && t.take(4) == true_bytes() {
                    assert(payload@.subrange(24, 28) =~= t.take(4));
                    assert(false);
                }
                if t.len() >= 5 && t.take(5) == false_bytes() {
                    assert(payload@.subrange(24, 29) =~= t.take(5));
                    assert(false);
                }
            }
            return Err(ProtocolError::Malformed);
        }
        let ghost u = t.skip(pos - 24);
        proof {
            assert(u =~= payload@.skip(pos as int));
            if active {
                assert(t.take(4) == true_bytes());
            } else {
                assert(t.take(5) == false_bytes());
                assert(t.take(4)[0] == 102 && true_bytes()[0] == 116);
            }
            assert(parse_ok_tail(t) == parse_after_active(active, u));
        }
        let pm = power_mid_vec();
        if !bytes_match_at(payload, pos, pm.as_slice()) {
            proof {
                if u.len() >= 9 && u.take(9) == power_mid() {
                    assert(payload@.subrange(pos as int, pos + 9) =~= u.take(9));
                    assert(false);
                }
            }
            return Err(ProtocolError::Malformed);
        }
        proof {
            assert(u.take(9) =~= payload@.subrange(pos as int, pos + 9));
        }
        let wstart = pos + 9;
        let ghost w = u.skip(9);
        proof {
            assert(w =~= payload@.skip(wstart as int));
        }
        let k = match find_byte_in(payload, wstart, n, 44) {
            Some(k) => k,
            None => {
                proof {
                    assert forall|j: int| 0 <= j < w.len() implies w[j] != 44 by {
                        assert(w[j] == payload@[wstart + j]);
                    }
                    lemma_find_byte_none(w, 44);
                }
                return Err(ProtocolError::Malformed);
            },
        };
        proof {
            assert forall|j: int| 0 <= j < k - wstart implies w[j] != 44 by {
                assert(w[j] == payload@[wstart + j]);
            }
            assert(w[k - wstart] == payload@[k as int]);
            lemma_find_byte_at(w, 44, k - wstart);
            assert(w.take(k - wstart) =~= payload@.subrange(wstart as int, k as int));
        }
        let p = match parse_centi_range(payload, wstart, k) {
            Some(p) => p,
            None => {
                return Err(ProtocolError::Malformed);
            },
        };
        let ghost x = w.skip(k - wstart);
        proof {
            assert(x =~= payload@.skip(k as int));
        }
        if n - k < 14 {
            return Err(ProtocolError::Malformed);
        }
        let im = id_mid_vec();
        if !bytes_match_at(payload, k, im.as_slice()) {
            proof {
                if x.take(13) == id_mid() {
                    assert(payload@.subrange(k as int, k + 13) =~= x.take(13));
                    assert(false);
                }
            }
            return Err(ProtocolError::Malformed);
        }
        proof {
            assert(x.take(13) =~= payload@.subrange(k as int, k + 13));
        }
        if payload[n - 1] != 125 {
            proof {
                assert(x.last() == payload@[n - 1]);
            }
            return Err(ProtocolError::Malformed);
        }
        let ghost idseg = x.subrange(13, x.len() - 1);
        proof {
            assert(x.last() == payload@[n - 1]);
            assert(idseg =~= payload@.subrange(k + 13, n - 1));
        }
        let nl = null_bytes_vec();
        let device_id: Option<String>;
        if n - 1 - (k + 13) == 4 && bytes_match_at(payload, k + 13, nl.as_slice()) {
            proof {
                assert(idseg =~= null_bytes());
            }
            device_id = None;
        } else if n - 1 - (k + 13) >= 2 && payload[k + 13] == 34 && payload[n - 2] == 34 {
            proof {
                assert(idseg != null_bytes()) by {
                    if idseg == null_bytes() {
                        assert(idseg.len() == 4);
                        assert(payload@.subrange(k + 13, k + 13 + 4) =~= idseg);
                        assert(false);
                    }
                }
                assert(idseg[0] == payload@[k + 13]);
                assert(idseg.last() == payload@[n - 2]);
                assert(idseg.subrange(1, idseg.len() - 1) =~= payload@.subrange(k + 14, n - 2));
            }
            let mid = match unescape_range(payload, k + 14, n - 2) {
                Some(v) => v,
                None => {
                    return Err(ProtocolError::Malformed);
                },
            };
            let id = match crate::text::utf8_string(mid) {
                Some(v) => v,
                None => {
                    return Err(ProtocolError::Malformed);
                },
            };
            device_id = Some(id);
        } else {
            proof {
                assert(parse_id(idseg) is None) by {
                    if idseg == null_bytes() {
                        assert(idseg.len() == 4);
                        assert(payload@.subrange(k + 13, k + 13 + 4) =~= idseg);
                        assert(false);
                    }
                    if idseg.len() >= 2 && idseg[0] == 34 && idseg.last() == 34 {
                        assert(idseg[0] == payload@[k + 13]);
                        assert(idseg.last() == payload@[n - 2]);
                    }
                }
            }
            return Err(ProtocolError::Malformed);
        }
        let data = SocketData { active, power: p, device_id };
        proof {
            assert(data@.device_id == parse_id(idseg).unwrap());
            assert(parse_response_json(payload@) == Some(
                SocketResponseModel::Okay(
                    SocketDataModel {
                        active,
                        power: p as int,
                        device_id: parse_id(idseg).unwrap(),
                    },
                ),
            ));
        }
        Ok(SocketResponse::Okay(data))
    } else if bytes_match_at(payload, 0, errp.as_slice()) {
        proof {
            assert(payload@.take(29) =~= payload@.subrange(0, 29));
            if payload@.len() >= 24 && payload@.take(24) == ok_prefix() {
                assert(payload@.take(24)[11] == payload@[11]);
                assert(payload@.take(29)[11] == payload@[11]);
                assert(false);
            }
        }
        if n < 31 {
            return Err(ProtocolError::Malformed);
        }
        if payload[n - 2] != 34 || payload[n - 1] != 125 {
            return Err(ProtocolError::Malformed);
        }
        let mid = match unescape_range(payload, 29, n - 2) {
            Some(v) => v,
            None => {
                return Err(ProtocolError::Malformed);
            },
        };
        let message = match crate::text::utf8_string(mid) {
            Some(v) => v,
            None => {
                return Err(ProtocolError::Malformed);
            },
        };
        Ok(SocketResponse::Error { message })
    } else {
        proof {
            if payload@.len() >= 24 && payload@.take(24) == ok_prefix() {
                assert(payload@.subrange(0, 24) =~= payload@.take(24));
                assert(false);
            }
            if payload@.len() >= 31 && payload@.take(29) == err_prefix() {
                assert(payload@.subrange(0, 29) =~= payload@.take(29));
                assert(false);
            }
        }
        Err(ProtocolError::Malformed)
    }
}

} // verus!
