//! The thermometer's UDP payload: one self-contained JSON object per
//! datagram, `{"temperature":<number>,"device_id":<label or null>}`,
//! in the same fixed notation the outlet protocol uses.

use vstd::prelude::*;

use crate::protocol::socket_protocol::{
    id_json, id_mid, id_mid_vec, lemma_id_adequate, lemma_id_round_trip, null_bytes,
    null_bytes_vec, parse_id, ProtocolError,
};
use crate::text::{
    CENTI_LIMIT, bytes_match_at, centi_text, escape_bytes, find_byte, find_byte_in, is_num_byte, lemma_centi_text_shape, lemma_find_byte_at, lemma_find_byte_none, lemma_parse_centi_adequate, lemma_parse_centi_text, parse_centi, parse_centi_range, push_centi_text, push_escaped, unescape_range,
};

verus! {

/// One thermometer reading as it crosses the wire: the temperature in
/// hundredths of a degree Celsius, and an optional device label.
#[derive(Debug, Clone, PartialEq)]
pub struct ThermData {
    /// Hundredths of a degree Celsius.
    pub temperature: i64,
    pub device_id: Option<String>,
}

/// The mathematical content of a `ThermData`.
pub struct ThermDataModel {
    pub temperature: int,
    pub device_id: Option<Seq<u8>>,
}

impl View for ThermData {
    type V = ThermDataModel;

    open spec fn view(&self) -> ThermDataModel {
        ThermDataModel {
            temperature: self.temperature as int,
            device_id: match self.device_id {
                Some(s) => Some(vstd::utf8::encode_utf8(s@)),
                None => None,
            },
        }
    }
}

/// A reading the wire notation can carry: the temperature in range.
/// Any label a string can hold is carried, escaped.
pub open spec fn therm_data_wf(d: ThermData) -> bool {
    -CENTI_LIMIT < d.temperature < CENTI_LIMIT
}

pub open spec fn therm_model_wf(m: ThermDataModel) -> bool {
    &&& -CENTI_LIMIT < m.temperature < CENTI_LIMIT
    &&& match m.device_id {
        Some(b) => vstd::utf8::valid_utf8(b),
        None => true,
    }
}

/// The notation `{"temperature":`.
pub open spec fn therm_prefix() -> Seq<u8> {
    seq![123u8, 34, 116, 101, 109, 112, 101, 114, 97, 116, 117, 114, 101, 34, 58]
}

/// The JSON object a reading is written as.
pub open spec fn therm_json(m: ThermDataModel) -> Seq<u8> {
    therm_prefix() + centi_text(m.temperature) + id_mid() + id_json(m.device_id) + seq![125u8]
}

/// The reading a datagram spells, if any.
pub open spec fn parse_therm_json(s: Seq<u8>) -> Option<ThermDataModel> {
    if s.len() >= 15 && s.take(15) == therm_prefix() {
        let w = s.skip(15);
        match find_byte(w, 44) {
            Some(k) => match parse_centi(w.take(k)) {
                Some(t) => {
                    let x = w.skip(k);
                    if x.len() >= 14 && x.take(13) == id_mid() && x.last() == 125 {
                        match parse_id(x.subrange(13, x.len() - 1)) {
                            Some(id) => Some(ThermDataModel { temperature: t, device_id: id }),
                            None => None,
                        }
                    } else {
                        None
                    }
                },
                None => None,
            },
            None => None,
        }
    } else {
        None
    }
}

/// Any reading read back from its own notation is itself.
#[verifier::rlimit(100)]
#[verifier::spinoff_prover]
pub proof fn lemma_therm_round_trip(m: ThermDataModel)
    requires
        therm_model_wf(m),
    ensures
        parse_therm_json(therm_json(m)) == Some(m),
{
    let s = therm_json(m);
    let num = centi_text(m.temperature);
    let w = num + id_mid() + id_json(m.device_id) + seq![125u8];
    assert(s.take(15) =~= therm_prefix());
    assert(s.skip(15) =~= w);
    lemma_centi_text_shape(m.temperature);
    assert(w[num.len() as int] == 44);
    assert forall|j: int| 0 <= j < num.len() implies w[j] != 44 by {
        assert(is_num_byte(num[j]));
    }
    lemma_find_byte_at(w, 44, num.len() as int);
    assert(w.take(num.len() as int) =~= num);
    lemma_parse_centi_text(m.temperature);
    let x = w.skip(num.len() as int);
    assert(x =~= id_mid() + id_json(m.device_id) + seq![125u8]);
    assert(x.take(13) =~= id_mid());
    assert(x.len() >= 14);
    assert(x.last() == 125);
    assert(x.subrange(13, x.len() - 1) =~= id_json(m.device_id));
    lemma_id_round_trip(m.device_id);
}

/// Only the notation of `m` reads as `m`.
#[verifier::rlimit(100)]
#[verifier::spinoff_prover]
pub proof fn lemma_therm_adequate(s: Seq<u8>, m: ThermDataModel)
    requires
        parse_therm_json(s) == Some(m),
    ensures
        s == therm_json(m),
        therm_model_wf(m),
{
    let w = s.skip(15);
    let k = find_byte(w, 44).unwrap();
    crate::text::lemma_find_byte_found(w, 44);
    let t = parse_centi(w.take(k)).unwrap();
    lemma_parse_centi_adequate(w.take(k), t);
    let x = w.skip(k);
    let id = parse_id(x.subrange(13, x.len() - 1)).unwrap();
    lemma_id_adequate(x.subrange(13, x.len() - 1), id);
    assert(x =~= id_mid() + id_json(id) + seq![125u8]) by {
        assert(x.take(13) == id_mid());
        assert(x.subrange(13, x.len() - 1) == id_json(id));
        assert(x =~= x.take(13) + x.subrange(13, x.len() - 1) + seq![x.last()]);
    }
    assert(w =~= w.take(k) + x);
    assert(s =~= therm_prefix() + w) by {
        assert(s.take(15) == therm_prefix());
        assert(s =~= s.take(15) + s.skip(15));
    }
    assert(s =~= therm_json(m));
}

fn therm_prefix_vec() -> (r: Vec<u8>)
    ensures
        r@ == therm_prefix(),
{
    let mut v: Vec<u8> = Vec::new();
    v.push(123);
    v.push(34);
    v.push(116);
    v.push(101);
    v.push(109);
    v.push(112);
    v.push(101);
    v.push(114);
    v.push(97);
    v.push(116);
    v.push(117);
    v.push(114);
    v.push(101);
    v.push(34);
    v.push(58);
    proof {
        assert(v@ =~= therm_prefix());
    }
    v
}

/// Serializes a reading; fails exactly when the temperature lies
/// outside the range the notation carries. Labels are escaped, so any
/// string is carried.
pub fn encode_therm_data(d: &ThermData) -> (r: Result<Vec<u8>, ProtocolError>)
    ensures
        match r {
            Ok(v) => therm_data_wf(*d) && v@ == therm_json(d@),
            Err(e) => e == ProtocolError::Malformed && !therm_data_wf(*d),
        },
{
    if !(-CENTI_LIMIT < d.temperature && d.temperature < CENTI_LIMIT) {
        return Err(ProtocolError::Malformed);
    }
    let mut out = therm_prefix_vec();
    push_centi_text(&mut out, d.temperature);
    let mut im = id_mid_vec();
    out.append(&mut im);
    match &d.device_id {
        Some(s) => {
            out.push(34);
            push_escaped(&mut out, s.as_str().as_bytes());
            out.push(34);
            proof {
                assert(id_json(d@.device_id) =~= seq![34u8] + escape_bytes(
                    vstd::utf8::encode_utf8(s@),
                ) + seq![34u8]);
            }
        },
        None => {
            let mut nl = null_bytes_vec();
            out.append(&mut nl);
        },
    }
    out.push(125);
    proof {
        assert(out@ =~= therm_json(d@));
    }
    Ok(out)
}

/// Reads a datagram payload; fails as malformed on anything that is
/// not exactly the wire notation of some reading.
#[verifier::rlimit(100)]
#[verifier::spinoff_prover]
pub fn parse_therm_data(payload: &[u8]) -> (r: Result<ThermData, ProtocolError>)
    ensures
        match r {
            Ok(d) => parse_therm_json(payload@) == Some(d@) && therm_data_wf(d),
            Err(e) => e == ProtocolError::Malformed && parse_therm_json(payload@) is None,
        },
{
    let n = payload.len();
    let pre = therm_prefix_vec();
    if !bytes_match_at(payload, 0, pre.as_slice()) {
        proof {
            if payload@.len() >= 15 && payload@.take(15) == therm_prefix() {
                assert(payload@.subrange(0, 15) =~= payload@.take(15));
                assert(false);
            }
        }
        return Err(ProtocolError::Malformed);
    }
    proof {
        assert(payload@.take(15) =~= payload@.subrange(0, 15));
    }
    let wstart: usize = 15;
    let ghost w = payload@.skip(15);
    proof {
        assert(w =~= payload@.skip(wstart as int));
    }
    let k = match find_byte_in(payload, wstart, n, 44) {
        Some(k) => k,
        None => {
            proof {
                assert forall|j: int| 0 <= j < w.len() implies w[j] != 44 by {
                    assert(w[j] == payload@[wstart + j]);
                }
                lemma_find_byte_none(w, 44);
            }
            return Err(ProtocolError::Malformed);
        },
    };
    proof {
        assert forall|j: int| 0 <= j < k - wstart implies w[j] != 44 by {
            assert(w[j] == payload@[wstart + j]);
        }
        assert(w[k - wstart] == payload@[k as int]);
        lemma_find_byte_at(w, 44, k - wstart);
        assert(w.take(k - wstart) =~= payload@.subrange(wstart as int, k as int));
    }
    let t = match parse_centi_range(payload, wstart, k) {
        Some(t) => t,
        None => {
            return Err(ProtocolError::Malformed);
        },
    };
    let ghost x = w.skip(k - wstart);
    proof {
        assert(x =~= payload@.skip(k as int));
    }
    if n - k < 14 {
        return Err(ProtocolError::Malformed);
    }
    let im = id_mid_vec();
    if !bytes_match_at(payload, k, im.as_slice()) {
        proof {
            if x.take(13) == id_mid() {
                assert(payload@.subrange(k as int, k + 13) =~= x.take(13));
                assert(false);
            }
        }
        return Err(ProtocolError::Malformed);
    }
    proof {
        assert(x.take(13) =~= payload@.subrange(k as int, k + 13));
    }
    if payload[n - 1] != 125 {
        proof {
            assert(x.last() == payload@[n - 1]);
        }
        return Err(ProtocolError::Malformed);
    }
    let ghost idseg = x.subrange(13, x.len() - 1);
    proof {
        assert(x.last() == payload@[n - 1]);
        assert(idseg =~= payload@.subrange(k + 13, n - 1));
    }
    let nl = null_bytes_vec();
    let device_id: Option<String>;
    if n - 1 - (k + 13) == 4 && bytes_match_at(payload, k + 13, nl.as_slice()) {
        proof {
            assert(idseg =~= null_bytes());
        }
        device_id = None;
    } else if n - 1 - (k + 13) >= 2 && payload[k + 13] == 34 && payload[n - 2] == 34 {
        proof {
            assert(idseg != null_bytes()) by {
                if idseg == null_bytes() {
                    assert(idseg.len() == 4);
                    assert(payload@.subrange(k + 13, k + 13 + 4) =~= idseg);
                    assert(false);
                }
            }
            assert(idseg[0] == payload@[k + 13]);
            assert(idseg.last() == payload@[n - 2]);
            assert(idseg.subrange(1, idseg.len() - 1) =~= payload@.subrange(k + 14, n - 2));
        }
        let mid = match unescape_range(payload, k + 14, n - 2) {
            Some(v) => v,
            None => {
                return Err(ProtocolError::Malformed);
            },
        };
        let id = match crate::text::utf8_string(mid) {
            Some(v) => v,
            None => {
                return Err(ProtocolError::Malformed);
            },
        };
        device_id = Some(id);
    } else {
        proof {
            assert(parse_id(idseg) is None) by {
                if idseg == null_bytes() {
                    assert(idseg.len() == 4);
                    assert(payload@.subrange(k + 13, k + 13 + 4) =~= idseg);
                    assert(false);
                }
                if idseg.len() >= 2 && idseg[0] == 34 && idseg.last() == 34 {
                    assert(idseg[0] == payload@[k + 13]);
                    assert(idseg.last() == payload@[n - 2]);
                }
            }
        }
        return Err(ProtocolError::Malformed);
    }
    let data = ThermData { temperature: t, device_id };
    proof {
        assert(data@.device_id == parse_id(idseg).unwrap());
        assert(parse_therm_json(payload@) == Some(
            ThermDataModel { temperature: t as int, device_id: parse_id(idseg).unwrap() },
        ));
    }
    Ok(data)
}

} // verus!
