//! The signed message envelope and its body variants: a fixed-shape binary
//! layout with length-prefixed byte strings (`u32` big-endian length, then
//! the bytes), little-endian header integers, and a four-byte magic.

use vstd::prelude::*;

use crate::wire::{
    lemma_u32_be_bytes_roundtrip, push_u32_be, spec_u32_from_be_bytes, spec_u32_to_be_bytes,
    u32_from_be_at,
};
use crate::MAX_FRAME_SIZE;
use vstd::bytes::{
    lemma_auto_spec_u16_to_from_le_bytes, lemma_auto_spec_u64_to_from_le_bytes,
    spec_u16_from_le_bytes, spec_u16_to_le_bytes, spec_u64_from_le_bytes, spec_u64_to_le_bytes,
    u16_from_le_bytes, u16_to_le_bytes, u64_from_le_bytes, u64_to_le_bytes,
};

verus! {

pub const PROTOCOL_VERSION: u16 = 1;

#[derive(Clone, Copy, Debug, PartialEq, Eq, Structural)]
pub enum MessageType {
    Register,
    Invoke,
    Result,
    Error,
}

#[derive(Clone, Copy, Debug, PartialEq, Eq, Structural)]
pub enum ErrorCode {
    Unauthenticated,
    Replay,
    Denied,
    UnknownAction,
    NoRepeater,
    BadRequest,
    Internal,
}

#[derive(Clone, Copy, Debug, PartialEq, Eq)]
pub enum ProtocolError {
    /// The bytes do not spell a well-formed message.
    BadRequest(&'static str),
    /// The buffer ends before the message does.
    Truncated,
}

/// The wire code of a message type.
pub open spec fn spec_message_type_code(t: MessageType) -> u16 {
    match t {
        MessageType::Register => 1,
        MessageType::Invoke => 2,
        MessageType::Result => 3,
        MessageType::Error => 4,
    }
}

/// The wire code of an error code.
pub open spec fn spec_error_code(c: ErrorCode) -> u16 {
    match c {
        ErrorCode::Unauthenticated => 1,
        ErrorCode::Replay => 2,
        ErrorCode::Denied => 3,
        ErrorCode::UnknownAction => 4,
        ErrorCode::NoRepeater => 5,
        ErrorCode::BadRequest => 6,
        ErrorCode::Internal => 7,
    }
}

impl MessageType {
    /// The wire code of this message type.
    pub fn code(&self) -> (c: u16)
        ensures
            c == spec_message_type_code(*self),
    {
        match self {
            MessageType::Register => 1,
            MessageType::Invoke => 2,
            MessageType::Result => 3,
            MessageType::Error => 4,
        }
    }

    /// Decode a wire code; exactly the codes 1 through 4 are known.
    pub fn from_u16(v: u16) -> (r: Result<MessageType, ProtocolError>)
        ensures
            r matches Ok(t) ==> spec_message_type_code(t) == v,
            r is Ok <==> 1 <= v <= 4,
    {
        match v {
            1 => Ok(MessageType::Register),
            2 => Ok(MessageType::Invoke),
            3 => Ok(MessageType::Result),
            4 => Ok(MessageType::Error),
            _ => Err(ProtocolError::BadRequest("unknown message type")),
        }
    }
}

impl ErrorCode {
    /// The wire code of this error code.
    pub fn code(&self) -> (c: u16)
        ensures
            c == spec_error_code(*self),
    {
        match self {
            ErrorCode::Unauthenticated => 1,
            ErrorCode::Replay => 2,
            ErrorCode::Denied => 3,
            ErrorCode::UnknownAction => 4,
            ErrorCode::NoRepeater => 5,
            ErrorCode::BadRequest => 6,
            ErrorCode::Internal => 7,
        }
    }

    /// Decode a wire code; exactly the codes 1 through 7 are known.
    pub fn from_u16(v: u16) -> (r: Result<ErrorCode, ProtocolError>)
        ensures
            r matches Ok(c) ==> spec_error_code(c) == v,
            r is Ok <==> 1 <= v <= 7,
    {
        match v {
            1 => Ok(ErrorCode::Unauthenticated),
            2 => Ok(ErrorCode::Replay),
            3 => Ok(ErrorCode::Denied),
            4 => Ok(ErrorCode::UnknownAction),
            5 => Ok(ErrorCode::NoRepeater),
            6 => Ok(ErrorCode::BadRequest),
            7 => Ok(ErrorCode::Internal),
            _ => Err(ProtocolError::BadRequest("unknown error code")),
        }
    }
}

/// The outer signed structure wrapping every wire message.
#[derive(Clone, Debug, PartialEq, Eq)]
pub struct Envelope {
    pub msg_type: MessageType,
    pub principal: Vec<u8>,
    pub ts_ms: u64,
    pub nonce: Vec<u8>,
    pub body: Vec<u8>,
    pub sig: [u8; 64],
}

/// The mathematical value of an envelope.
pub struct EnvData {
    pub msg_type: MessageType,
    pub principal: Seq<u8>,
    pub ts_ms: u64,
    pub nonce: Seq<u8>,
    pub body: Seq<u8>,
    pub sig: Seq<u8>,
}

impl View for Envelope {
    type V = EnvData;

    open spec fn view(&self) -> EnvData {
        EnvData {
            msg_type: self.msg_type,
            principal: self.principal@,
            ts_ms: self.ts_ms,
            nonce: self.nonce@,
            body: self.body@,
            sig: self.sig@,
        }
    }
}

/// The four magic bytes `TRT1`.
pub open spec fn spec_magic() -> Seq<u8> {
    seq![84u8, 82u8, 84u8, 49u8]
}

/// A length-prefixed byte string: `u32` big-endian length, then the bytes.
pub open spec fn spec_bstr(b: Seq<u8>) -> Seq<u8>
    recommends
        b.len() <= u32::MAX,
{
    spec_u32_to_be_bytes(b.len() as u32) + b
}

/// An envelope is encodable when each byte-string field fits the frame cap
/// and the signature is 64 bytes, which the `sig` array makes so by type.
pub open spec fn spec_envelope_wf(e: EnvData) -> bool {
    &&& e.principal.len() <= MAX_FRAME_SIZE
    &&& e.nonce.len() <= MAX_FRAME_SIZE
    &&& e.body.len() <= MAX_FRAME_SIZE
    &&& e.sig.len() == 64
}

/// The serialized form of an envelope: magic, version, type, then
/// `principal`, `ts_ms`, `nonce`, `body`, `sig` in order.
pub open spec fn spec_encode_envelope(e: EnvData) -> Seq<u8>
    recommends
        spec_envelope_wf(e),
{
    spec_magic() + spec_u16_to_le_bytes(PROTOCOL_VERSION) + spec_u16_to_le_bytes(
        spec_message_type_code(e.msg_type),
    ) + spec_bstr(e.principal) + spec_u64_to_le_bytes(e.ts_ms) + spec_bstr(e.nonce) + spec_bstr(
        e.body,
    ) + spec_bstr(e.sig)
}

/// Append a length-prefixed byte string to `out`.
fn push_bstr(out: &mut Vec<u8>, b: &[u8])
    requires
        b@.len() <= MAX_FRAME_SIZE,
    ensures
        final(out)@ == old(out)@ + spec_bstr(b@),
{
    push_u32_be(out, b.len() as u32);
    out.extend_from_slice(b);
    proof {
        assert(out@ =~= old(out)@ + spec_bstr(b@));
    }
}

/// Append a little-endian `u16` to `out`.
fn push_u16_le(out: &mut Vec<u8>, x: u16)
    ensures
        final(out)@ == old(out)@ + spec_u16_to_le_bytes(x),
{
    let mut t = u16_to_le_bytes(x);
    out.append(&mut t);
}

/// Append a little-endian `u64` to `out`.
fn push_u64_le(out: &mut Vec<u8>, x: u64)
    ensures
        final(out)@ == old(out)@ + spec_u64_to_le_bytes(x),
{
    let mut t = u64_to_le_bytes(x);
    out.append(&mut t);
}

impl Envelope {
    /// Serialize this envelope. Refused when a byte-string field exceeds the
    /// frame cap; otherwise the result is exactly `spec_encode_envelope`.
    pub fn encode(&self) -> (r: Result<Vec<u8>, ProtocolError>)
        ensures
            spec_envelope_wf(self@) ==> (r matches Ok(v) && v@ == spec_encode_envelope(self@)),
            !spec_envelope_wf(self@) ==> r is Err,
    {
        if self.principal.len() > MAX_FRAME_SIZE || self.nonce.len() > MAX_FRAME_SIZE
            || self.body.len() > MAX_FRAME_SIZE {
            return Err(ProtocolError::BadRequest("bstr too large"));
        }
        let mut out: Vec<u8> = Vec::new();
        out.push(84);
        out.push(82);
        out.push(84);
        out.push(49);
        push_u16_le(&mut out, PROTOCOL_VERSION);
        push_u16_le(&mut out, self.msg_type.code());
        push_bstr(&mut out, self.principal.as_slice());
        push_u64_le(&mut out, self.ts_ms);
        push_bstr(&mut out, self.nonce.as_slice());
        push_bstr(&mut out, self.body.as_slice());
        push_bstr(&mut out, self.sig.as_slice());
        proof {
            assert(out@ =~= spec_encode_envelope(self@));
        }
        Ok(out)
    }
}

/// The message type carrying a given wire code between 1 and 4.
pub open spec fn spec_message_type_of(v: u16) -> MessageType
    recommends
        1 <= v <= 4,
{
    if v == 1 {
        MessageType::Register
    } else if v == 2 {
        MessageType::Invoke
    } else if v == 3 {
        MessageType::Result
    } else {
        MessageType::Error
    }
}

/// Parse a little-endian `u16` at `pos`.
pub open spec fn spec_take_u16_le(b: Seq<u8>, pos: int) -> Option<(u16, int)> {
    if 0 <= pos && pos + 2 <= b.len() {
        Some((spec_u16_from_le_bytes(b.subrange(pos, pos + 2)), pos + 2))
    } else {
        None
    }
}

/// Parse a little-endian `u64` at `pos`.
pub open spec fn spec_take_u64_le(b: Seq<u8>, pos: int) -> Option<(u64, int)> {
    if 0 <= pos && pos + 8 <= b.len() {
        Some((spec_u64_from_le_bytes(b.subrange(pos, pos + 8)), pos + 8))
    } else {
        None
    }
}

/// Parse a length-prefixed byte string at `pos`. A length over the frame cap
/// is refused before the bytes are looked at.
pub open spec fn spec_take_bstr(b: Seq<u8>, pos: int) -> Option<(Seq<u8>, int)> {
    if 0 <= pos && pos + 4 <= b.len() {
        let len = spec_u32_from_be_bytes(b.subrange(pos, pos + 4)) as int;
        if len <= MAX_FRAME_SIZE && pos + 4 + len <= b.len() {
            Some((b.subrange(pos + 4, pos + 4 + len), pos + 4 + len))
        } else {
            None
        }
    } else {
        None
    }
}

/// What decoding an envelope from `b` yields: the envelope's value, or
/// nothing when the bytes are refused. Trailing bytes past the envelope are
/// ignored.
pub open spec fn spec_decode_envelope(b: Seq<u8>) -> Option<EnvData> {
    if b.len() < 4 || b.subrange(0, 4) != spec_magic() {
        None
    } else {
        match spec_take_u16_le(b, 4) {
            None => None,
            Some((ver, p1)) => if ver != PROTOCOL_VERSION {
                None
            } else {
                match spec_take_u16_le(b, p1) {
                    None => None,
                    Some((code, p2)) => if !(1 <= code <= 4) {
                        None
                    } else {
                        match spec_take_bstr(b, p2) {
                            None => None,
                            Some((principal, p3)) => match spec_take_u64_le(b, p3) {
                                None => None,
                                Some((ts_ms, p4)) => match spec_take_bstr(b, p4) {
                                    None => None,
                                    Some((nonce, p5)) => match spec_take_bstr(b, p5) {
                                        None => None,
                                        Some((body, p6)) => match spec_take_bstr(b, p6) {
                                            None => None,
                                            Some((sig, _p7)) => if sig.len() != 64 {
                                                None
                                            } else {
                                                Some(
                                                    EnvData {
                                                        msg_type: spec_message_type_of(code),
                                                        principal,
                                                        ts_ms,
                                                        nonce,
                                                        body,
                                                        sig,
                                                    },
                                                )
                                            },
                                        },
                                    },
                                },
                            },
                        }
                    },
                }
            },
        }
    }
}

/// Read a little-endian `u16` at `pos`.
fn take_u16(b: &[u8], pos: usize) -> (r: Result<(u16, usize), ProtocolError>)
    ensures
        match r {
            Ok((x, np)) => spec_take_u16_le(b@, pos as int) == Some((x, np as int)),
            Err(_) => spec_take_u16_le(b@, pos as int) is None,
        },
{
    if pos > b.len() || b.len() - pos < 2 {
        return Err(ProtocolError::Truncated);
    }
    let x = u16_from_le_bytes(vstd::slice::slice_subrange(b, pos, pos + 2));
    Ok((x, pos + 2))
}

/// Read a little-endian `u64` at `pos`.
fn take_u64(b: &[u8], pos: usize) -> (r: Result<(u64, usize), ProtocolError>)
    ensures
        match r {
            Ok((x, np)) => spec_take_u64_le(b@, pos as int) == Some((x, np as int)),
            Err(_) => spec_take_u64_le(b@, pos as int) is None,
        },
{
    if pos > b.len() || b.len() - pos < 8 {
        return Err(ProtocolError::Truncated);
    }
    let x = u64_from_le_bytes(vstd::slice::slice_subrange(b, pos, pos + 8));
    Ok((x, pos + 8))
}

/// Read a length-prefixed byte string at `pos`.
fn take_bstr(b: &[u8], pos: usize) -> (r: Result<(Vec<u8>, usize), ProtocolError>)
    ensures
        match r {
            Ok((v, np)) => spec_take_bstr(b@, pos as int) == Some((v@, np as int)),
            Err(_) => spec_take_bstr(b@, pos as int) is None,
        },
{
    if pos > b.len() || b.len() - pos < 4 {
        return Err(ProtocolError::Truncated);
    }
    let len_u32 = u32_from_be_at(b, pos);
    let len = len_u32 as usize;
    if len > MAX_FRAME_SIZE {
        return Err(ProtocolError::BadRequest("bstr too large"));
    }
    if b.len() - pos - 4 < len {
        return Err(ProtocolError::Truncated);
    }
    let v = vstd::slice::slice_to_vec(vstd::slice::slice_subrange(b, pos + 4, pos + 4 + len));
    Ok((v, pos + 4 + len))
}

impl Envelope {
    /// Decode an envelope. Succeeds exactly when the bytes parse: right
    /// magic, right version, known type, each byte string within the cap,
    /// 64-byte signature.
    pub fn decode(bytes: &[u8]) -> (r: Result<Envelope, ProtocolError>)
        ensures
            match r {
                Ok(env) => spec_decode_envelope(bytes@) == Some(env@),
                Err(_) => spec_decode_envelope(bytes@) is None,
            },
    {
        if bytes.len() < 4 {
            return Err(ProtocolError::Truncated);
        }
        if !(bytes[0] == 84 && bytes[1] == 82 && bytes[2] == 84 && bytes[3] == 49) {
            proof {
                assert(bytes@.subrange(0, 4) != spec_magic());
            }
            return Err(ProtocolError::BadRequest("bad magic"));
        }
        proof {
            assert(bytes@.subrange(0, 4) =~= spec_magic());
        }
        let (ver, p1) = match take_u16(bytes, 4) {
            Ok(t) => t,
            Err(e) => {
                return Err(e);
            },
        };
        if ver != PROTOCOL_VERSION {
            return Err(ProtocolError::BadRequest("bad version"));
        }
        let (code, p2) = match take_u16(bytes, p1) {
            Ok(t) => t,
            Err(e) => {
                return Err(e);
            },
        };
        let msg_type = match MessageType::from_u16(code) {
            Ok(t) => t,
            Err(e) => {
                return Err(e);
            },
        };
        let (principal, p3) = match take_bstr(bytes, p2) {
            Ok(t) => t,
            Err(e) => {
                return Err(e);
            },
        };
        let (ts_ms, p4) = match take_u64(bytes, p3) {
            Ok(t) => t,
            Err(e) => {
                return Err(e);
            },
        };
        let (nonce, p5) = match take_bstr(bytes, p4) {
            Ok(t) => t,
            Err(e) => {
                return Err(e);
            },
        };
        let (body, p6) = match take_bstr(bytes, p5) {
            Ok(t) => t,
            Err(e) => {
                return Err(e);
            },
        };
        let (sig_bytes, _p7) = match take_bstr(bytes, p6) {
            Ok(t) => t,
            Err(e) => {
                return Err(e);
            },
        };
        if sig_bytes.len() != 64 {
            return Err(ProtocolError::BadRequest("bad signature length"));
        }
        let mut sig: [u8; 64] = [0u8; 64];
        let mut i: usize = 0;
        while i < 64
            invariant
                i <= 64,
                sig_bytes@.len() == 64,
                sig@.len() == 64,
                forall|j: int| 0 <= j < i ==> sig@[j] == sig_bytes@[j],
            decreases 64 - i,
        {
            sig[i] = sig_bytes[i];
            i = i + 1;
        }
        proof {
            assert(sig@ =~= sig_bytes@);
            assert(spec_message_type_of(code) == msg_type);
        }
        Ok(Envelope { msg_type, principal, ts_ms, nonce, body, sig })
    }
}

/// Parsing a byte string where its encoding sits yields the bytes back.
pub proof fn lemma_take_bstr_of_encoded(b: Seq<u8>, pos: int, s: Seq<u8>)
    requires
        s.len() <= MAX_FRAME_SIZE,
        0 <= pos,
        pos + 4 + s.len() <= b.len(),
        b.subrange(pos, pos + 4 + s.len()) == spec_bstr(s),
    ensures
        spec_take_bstr(b, pos) == Some((s, pos + 4 + s.len())),
{
    lemma_u32_be_bytes_roundtrip();
    let chunk = b.subrange(pos, pos + 4 + s.len());
    assert(b.subrange(pos, pos + 4) =~= chunk.subrange(0, 4));
    assert(chunk.subrange(0, 4) =~= spec_u32_to_be_bytes(s.len() as u32));
    assert(b.subrange(pos + 4, pos + 4 + s.len() as int) =~= chunk.subrange(4, 4 + s.len() as int));
    assert(chunk.subrange(4, 4 + s.len() as int) =~= s);
}

/// Parsing a `u16` where its little-endian encoding sits yields it back.
pub proof fn lemma_take_u16_of_encoded(b: Seq<u8>, pos: int, x: u16)
    requires
        0 <= pos,
        pos + 2 <= b.len(),
        b.subrange(pos, pos + 2) == spec_u16_to_le_bytes(x),
    ensures
        spec_take_u16_le(b, pos) == Some((x, pos + 2)),
{
    lemma_auto_spec_u16_to_from_le_bytes();
    assert(spec_u16_to_le_bytes(x).len() == 2);
    assert(spec_u16_from_le_bytes(spec_u16_to_le_bytes(x)) == x);
}

/// Parsing a `u64` where its little-endian encoding sits yields it back.
pub proof fn lemma_take_u64_of_encoded(b: Seq<u8>, pos: int, x: u64)
    requires
        0 <= pos,
        pos + 8 <= b.len(),
        b.subrange(pos, pos + 8) == spec_u64_to_le_bytes(x),
    ensures
        spec_take_u64_le(b, pos) == Some((x, pos + 8)),
{
    lemma_auto_spec_u64_to_from_le_bytes();
    assert(spec_u64_to_le_bytes(x).len() == 8);
    assert(spec_u64_from_le_bytes(spec_u64_to_le_bytes(x)) == x);
}

/// Law: every well-formed envelope decodes from its own encoding, unchanged.
#[verifier::rlimit(60)]
#[verifier::spinoff_prover]
pub proof fn lemma_envelope_roundtrip(e: EnvData)
    requires
        spec_envelope_wf(e),
    ensures
        spec_decode_envelope(spec_encode_envelope(e)) == Some(e),
{
    lemma_auto_spec_u16_to_from_le_bytes();
    lemma_auto_spec_u64_to_from_le_bytes();
    let b = spec_encode_envelope(e);
    assert(spec_u16_to_le_bytes(PROTOCOL_VERSION).len() == 2);
    assert(spec_u16_to_le_bytes(spec_message_type_code(e.msg_type)).len() == 2);
    assert(spec_u64_to_le_bytes(e.ts_ms).len() == 8);
    let plen = e.principal.len() as int;
    let nlen = e.nonce.len() as int;
    let blen = e.body.len() as int;
    let p2: int = 8;
    let p3 = p2 + 4 + plen;
    let p4 = p3 + 8;
    let p5 = p4 + 4 + nlen;
    let p6 = p5 + 4 + blen;
    let p7 = p6 + 4 + 64;
    assert(b.len() == p7);
    assert(b.subrange(0, 4) =~= spec_magic());
    assert(b.subrange(4, 6) =~= spec_u16_to_le_bytes(PROTOCOL_VERSION));
    lemma_take_u16_of_encoded(b, 4, PROTOCOL_VERSION);
    assert(b.subrange(6, 8) =~= spec_u16_to_le_bytes(spec_message_type_code(e.msg_type)));
    lemma_take_u16_of_encoded(b, 6, spec_message_type_code(e.msg_type));
    assert(b.subrange(p2, p3) =~= spec_bstr(e.principal));
    lemma_take_bstr_of_encoded(b, p2, e.principal);
    assert(b.subrange(p3, p4) =~= spec_u64_to_le_bytes(e.ts_ms));
    lemma_take_u64_of_encoded(b, p3, e.ts_ms);
    assert(b.subrange(p4, p5) =~= spec_bstr(e.nonce));
    lemma_take_bstr_of_encoded(b, p4, e.nonce);
    assert(b.subrange(p5, p6) =~= spec_bstr(e.body));
    lemma_take_bstr_of_encoded(b, p5, e.body);
    assert(b.subrange(p6, p7) =~= spec_bstr(e.sig));
    lemma_take_bstr_of_encoded(b, p6, e.sig);
    assert(spec_message_type_of(spec_message_type_code(e.msg_type)) == e.msg_type);
}

/// What a repeater announces: who it is and which actions it serves.
#[derive(Clone, Debug, PartialEq, Eq)]
pub struct RegisterBody {
    pub repeater_id: Vec<u8>,
    pub actions: Vec<Vec<u8>>,
}

/// An agent's request: an opaque request id, the action, opaque parameters.
#[derive(Clone, Debug, PartialEq, Eq)]
pub struct InvokeBody {
    pub request_id: Vec<u8>,
    pub action: Vec<u8>,
    pub params: Vec<u8>,
}

/// A repeater's successful reply.
#[derive(Clone, Debug, PartialEq, Eq)]
pub struct ResultBody {
    pub request_id: Vec<u8>,
    pub result: Vec<u8>,
}

/// A failure reply, from a repeater or synthesized by the broker.
#[derive(Clone, Debug, PartialEq, Eq)]
pub struct ErrorBody {
    pub request_id: Vec<u8>,
    pub code: ErrorCode,
    pub message: Vec<u8>,
}

pub struct RegisterData {
    pub repeater_id: Seq<u8>,
    pub actions: Seq<Seq<u8>>,
}

pub struct InvokeData {
    pub request_id: Seq<u8>,
    pub action: Seq<u8>,
    pub params: Seq<u8>,
}

pub struct ResultData {
    pub request_id: Seq<u8>,
    pub result: Seq<u8>,
}

pub struct ErrorData {
    pub request_id: Seq<u8>,
    pub code: ErrorCode,
    pub message: Seq<u8>,
}

impl View for RegisterBody {
    type V = RegisterData;

    open spec fn view(&self) -> RegisterData {
        RegisterData { repeater_id: self.repeater_id@, actions: self.actions.deep_view() }
    }
}

impl View for InvokeBody {
    type V = InvokeData;

    open spec fn view(&self) -> InvokeData {
        InvokeData { request_id: self.request_id@, action: self.action@, params: self.params@ }
    }
}

impl View for ResultBody {
    type V = ResultData;

    open spec fn view(&self) -> ResultData {
        ResultData { request_id: self.request_id@, result: self.result@ }
    }
}

impl View for ErrorBody {
    type V = ErrorData;

    open spec fn view(&self) -> ErrorData {
        ErrorData { request_id: self.request_id@, code: self.code, message: self.message@ }
    }
}

/// The concatenated encodings of a list of byte strings.
pub open spec fn spec_encode_bstr_seq(items: Seq<Seq<u8>>) -> Seq<u8>
    decreases items.len(),
{
    if items.len() == 0 {
        Seq::empty()
    } else {
        spec_bstr(items[0]) + spec_encode_bstr_seq(items.drop_first())
    }
}

/// Every byte string of the list fits the frame cap.
pub open spec fn spec_bstr_seq_wf(items: Seq<Seq<u8>>) -> bool {
    forall|i: int| 0 <= i < items.len() ==> (#[trigger] items[i]).len() <= MAX_FRAME_SIZE
}

/// Parse `n` length-prefixed byte strings in a row at `pos`.
pub open spec fn spec_take_n_bstrs(b: Seq<u8>, pos: int, n: nat) -> Option<(Seq<Seq<u8>>, int)>
    decreases n,
{
    if n == 0 {
        Some((Seq::empty(), pos))
    } else {
        match spec_take_bstr(b, pos) {
            None => None,
            Some((s, p)) => match spec_take_n_bstrs(b, p, (n - 1) as nat) {
                None => None,
                Some((rest, p2)) => Some((seq![s] + rest, p2)),
            },
        }
    }
}

/// Parse a little-endian `u32` at `pos`.
pub open spec fn spec_take_u32_le(b: Seq<u8>, pos: int) -> Option<(u32, int)> {
    if 0 <= pos && pos + 4 <= b.len() {
        Some((vstd::bytes::spec_u32_from_le_bytes(b.subrange(pos, pos + 4)), pos + 4))
    } else {
        None
    }
}

/// Read a little-endian `u32` at `pos`.
fn take_u32(b: &[u8], pos: usize) -> (r: Result<(u32, usize), ProtocolError>)
    ensures
        match r {
            Ok((x, np)) => spec_take_u32_le(b@, pos as int) == Some((x, np as int)),
            Err(_) => spec_take_u32_le(b@, pos as int) is None,
        },
{
    if pos > b.len() || b.len() - pos < 4 {
        return Err(ProtocolError::Truncated);
    }
    let x = vstd::bytes::u32_from_le_bytes(vstd::slice::slice_subrange(b, pos, pos + 4));
    Ok((x, pos + 4))
}

/// Append a little-endian `u32` to `out`.
fn push_u32_le(out: &mut Vec<u8>, x: u32)
    ensures
        final(out)@ == old(out)@ + vstd::bytes::spec_u32_to_le_bytes(x),
{
    let mut t = vstd::bytes::u32_to_le_bytes(x);
    out.append(&mut t);
}

/// Where a sequence is known to sit inside `b`, each of its bytes is the
/// matching byte of `b`.
pub proof fn lemma_subrange_index(b: Seq<u8>, pos: int, s: Seq<u8>)
    requires
        0 <= pos,
        pos + s.len() <= b.len(),
        b.subrange(pos, pos + s.len() as int) == s,
    ensures
        forall|j: int| 0 <= j < s.len() ==> b[pos + j] == s[j],
{
    assert forall|j: int| 0 <= j < s.len() implies b[pos + j] == s[j] by {
        assert(b.subrange(pos, pos + s.len() as int)[j] == s[j]);
    }
}

/// Appending one byte string to a list appends its encoding.
pub proof fn lemma_encode_bstr_seq_push(items: Seq<Seq<u8>>, x: Seq<u8>)
    ensures
        spec_encode_bstr_seq(items.push(x)) == spec_encode_bstr_seq(items) + spec_bstr(x),
    decreases items.len(),
{
    let l = items.push(x);
    if items.len() == 0 {
        assert(l.len() == 1);
        assert(l[0] == x);
        assert(l.drop_first() =~~= Seq::<Seq<u8>>::empty());
        assert(spec_encode_bstr_seq(l.drop_first()).len() == 0);
        assert(spec_encode_bstr_seq(l) =~= spec_encode_bstr_seq(items) + spec_bstr(x));
    } else {
        assert(l[0] == items[0]);
        assert(l.drop_first() =~~= items.drop_first().push(x));
        lemma_encode_bstr_seq_push(items.drop_first(), x);
        assert(spec_encode_bstr_seq(l) == spec_bstr(l[0]) + spec_encode_bstr_seq(l.drop_first()));
        assert(spec_encode_bstr_seq(l) =~= spec_encode_bstr_seq(items) + spec_bstr(x));
    }
}

/// Parsing `n` byte strings where their concatenated encodings sit yields the
/// list back.
pub proof fn lemma_take_n_bstrs_of_encoded(b: Seq<u8>, pos: int, items: Seq<Seq<u8>>)
    requires
        spec_bstr_seq_wf(items),
        0 <= pos,
        pos + spec_encode_bstr_seq(items).len() <= b.len(),
        b.subrange(pos, pos + spec_encode_bstr_seq(items).len() as int) == spec_encode_bstr_seq(
            items,
        ),
    ensures
        spec_take_n_bstrs(b, pos, items.len()) == Some(
            (items, pos + spec_encode_bstr_seq(items).len() as int),
        ),
    decreases items.len(),
{
    if items.len() == 0 {
        assert(items =~~= Seq::<Seq<u8>>::empty());
    } else {
        let s0 = items[0];
        let rest = items.drop_first();
        let enc = spec_encode_bstr_seq(items);
        let e0: int = 4 + s0.len() as int;
        let renc = spec_encode_bstr_seq(rest);
        assert(enc == spec_bstr(s0) + renc);
        assert(spec_bstr(s0).len() == e0);
        lemma_subrange_index(b, pos, enc);
        assert forall|j: int| 0 <= j < e0 implies b[pos + j] == spec_bstr(s0)[j] by {
            assert(b[pos + j] == enc[j]);
            assert(enc[j] == (spec_bstr(s0) + renc)[j]);
        }
        assert(b.subrange(pos, pos + e0) =~= spec_bstr(s0));
        lemma_take_bstr_of_encoded(b, pos, s0);
        assert forall|j: int| 0 <= j < renc.len() implies b[pos + e0 + j] == renc[j] by {
            assert(b[pos + (e0 + j)] == enc[e0 + j]);
            assert(enc[e0 + j] == (spec_bstr(s0) + renc)[e0 + j]);
        }
        assert(b.subrange(pos + e0, pos + e0 + renc.len() as int) =~= renc);
        lemma_take_n_bstrs_of_encoded(b, pos + e0, rest);
        assert(seq![s0] + rest =~~= items);
    }
}

/// The serialized form of a register body: the repeater id, a `u32`
/// little-endian action count, then each action name.
pub open spec fn spec_encode_register(d: RegisterData) -> Seq<u8> {
    spec_bstr(d.repeater_id) + vstd::bytes::spec_u32_to_le_bytes(d.actions.len() as u32)
        + spec_encode_bstr_seq(d.actions)
}

pub open spec fn spec_register_wf(d: RegisterData) -> bool {
    &&& d.repeater_id.len() <= MAX_FRAME_SIZE
    &&& d.actions.len() <= u32::MAX
    &&& spec_bstr_seq_wf(d.actions)
}

/// What decoding a register body yields; trailing bytes are ignored.
pub open spec fn spec_decode_register(b: Seq<u8>) -> Option<RegisterData> {
    match spec_take_bstr(b, 0) {
        None => None,
        Some((repeater_id, p1)) => match spec_take_u32_le(b, p1) {
            None => None,
            Some((count, p2)) => match spec_take_n_bstrs(b, p2, count as nat) {
                None => None,
                Some((actions, _p3)) => Some(RegisterData { repeater_id, actions }),
            },
        },
    }
}

impl RegisterBody {
    /// Serialize this body; refused when a field exceeds the frame cap or the
    /// action count exceeds `u32`.
    pub fn encode(&self) -> (r: Result<Vec<u8>, ProtocolError>)
        ensures
            spec_register_wf(self@) ==> (r matches Ok(v) && v@ == spec_encode_register(self@)),
            !spec_register_wf(self@) ==> r is Err,
    {
        if self.repeater_id.len() > MAX_FRAME_SIZE {
            return Err(ProtocolError::BadRequest("bstr too large"));
        }
        if self.actions.len() > 0xffff_ffffusize {
            return Err(ProtocolError::BadRequest("too many actions"));
        }
        let mut out: Vec<u8> = Vec::new();
        push_bstr(&mut out, self.repeater_id.as_slice());
        push_u32_le(&mut out, self.actions.len() as u32);
        let ghost base: Seq<u8> = out@;
        let ghost dv: Seq<Seq<u8>> = self.actions.deep_view();
        proof {
            assert(base + spec_encode_bstr_seq(dv.take(0)) =~= base);
        }
        let mut i: usize = 0;
        while i < self.actions.len()
            invariant
                i <= self.actions.len(),
                dv == self.actions.deep_view(),
                dv.len() == self.actions.len(),
                out@ == base + spec_encode_bstr_seq(dv.take(i as int)),
                forall|j: int| 0 <= j < i ==> (#[trigger] dv[j]).len() <= MAX_FRAME_SIZE,
            decreases self.actions.len() - i,
        {
            let a = &self.actions[i];
            proof {
                assert(dv[i as int] =~= a@);
            }
            if a.len() > MAX_FRAME_SIZE {
                proof {
                    assert(self@.actions[i as int].len() > MAX_FRAME_SIZE);
                    assert(!spec_bstr_seq_wf(self@.actions));
                }
                return Err(ProtocolError::BadRequest("bstr too large"));
            }
            push_bstr(&mut out, a.as_slice());
            proof {
                assert(dv.take(i + 1) =~~= dv.take(i as int).push(dv[i as int]));
                lemma_encode_bstr_seq_push(dv.take(i as int), dv[i as int]);
                assert(out@ == base + spec_encode_bstr_seq(dv.take(i + 1)));
            }
            i = i + 1;
        }
        proof {
            assert(dv.take(dv.len() as int) =~~= dv);
            assert(out@ == spec_encode_register(self@));
        }
        Ok(out)
    }

    /// Decode a register body. Succeeds exactly when the bytes parse.
    pub fn decode(b: &[u8]) -> (r: Result<RegisterBody, ProtocolError>)
        ensures
            match r {
                Ok(body) => spec_decode_register(b@) == Some(body@),
                Err(_) => spec_decode_register(b@) is None,
            },
    {
        let (repeater_id, p1) = match take_bstr(b, 0) {
            Ok(t) => t,
            Err(e) => {
                return Err(e);
            },
        };
        let (count, p2) = match take_u32(b, p1) {
            Ok(t) => t,
            Err(e) => {
                return Err(e);
            },
        };
        let mut actions: Vec<Vec<u8>> = Vec::new();
        let mut pos: usize = p2;
        let mut k: u32 = 0;
        proof {
            assert(actions.deep_view() =~~= Seq::<Seq<u8>>::empty());
            match spec_take_n_bstrs(b@, p2 as int, count as nat) {
                None => {},
                Some((rest, p)) => {
                    assert(actions.deep_view() + rest =~~= rest);
                },
            }
        }
        while k < count
            invariant
                k <= count,
                spec_take_bstr(b@, 0) == Some((repeater_id@, p1 as int)),
                spec_take_u32_le(b@, p1 as int) == Some((count, p2 as int)),
                actions.deep_view().len() == k as int,
                spec_take_n_bstrs(b@, p2 as int, count as nat) == (match spec_take_n_bstrs(
                    b@,
                    pos as int,
                    (count - k) as nat,
                ) {
                    None => None::<(Seq<Seq<u8>>, int)>,
                    Some((rest, p)) => Some((actions.deep_view() + rest, p)),
                }),
            decreases count - k,
        {
            let ghost old_actions: Seq<Seq<u8>> = actions.deep_view();
            let (a, np) = match take_bstr(b, pos) {
                Ok(t) => t,
                Err(e) => {
                    proof {
                        assert(spec_take_n_bstrs(b@, pos as int, (count - k) as nat) is None);
                    }
                    return Err(e);
                },
            };
            actions.push(a);
            proof {
                assert(actions.deep_view() =~~= old_actions.push(a@));
                match spec_take_n_bstrs(b@, np as int, (count - k - 1) as nat) {
                    None => {},
                    Some((rest, p)) => {
                        assert(old_actions.push(a@) + rest =~~= old_actions + (seq![a@] + rest));
                    },
                }
            }
            pos = np;
            k = k + 1;
        }
        proof {
            assert(spec_take_n_bstrs(b@, pos as int, 0nat) == Some(
                (Seq::<Seq<u8>>::empty(), pos as int),
            ));
            assert(actions.deep_view() + Seq::<Seq<u8>>::empty() =~~= actions.deep_view());
        }
        Ok(RegisterBody { repeater_id, actions })
    }
}

/// The serialized form of an invoke body: request id, action, parameters.
pub open spec fn spec_encode_invoke(d: InvokeData) -> Seq<u8> {
    spec_bstr(d.request_id) + spec_bstr(d.action) + spec_bstr(d.params)
}

pub open spec fn spec_invoke_wf(d: InvokeData) -> bool {
    &&& d.request_id.len() <= MAX_FRAME_SIZE
    &&& d.action.len() <= MAX_FRAME_SIZE
    &&& d.params.len() <= MAX_FRAME_SIZE
}

/// What decoding an invoke body yields; trailing bytes are ignored.
pub open spec fn spec_decode_invoke(b: Seq<u8>) -> Option<InvokeData> {
    match spec_take_bstr(b, 0) {
        None => None,
        Some((request_id, p1)) => match spec_take_bstr(b, p1) {
            None => None,
            Some((action, p2)) => match spec_take_bstr(b, p2) {
                None => None,
                Some((params, _p3)) => Some(InvokeData { request_id, action, params }),
            },
        },
    }
}

impl InvokeBody {
    /// Serialize this body; refused when a field exceeds the frame cap.
    pub fn encode(&self) -> (r: Result<Vec<u8>, ProtocolError>)
        ensures
            spec_invoke_wf(self@) ==> (r matches Ok(v) && v@ == spec_encode_invoke(self@)),
            !spec_invoke_wf(self@) ==> r is Err,
    {
        if self.request_id.len() > MAX_FRAME_SIZE || self.action.len() > MAX_FRAME_SIZE
            || self.params.len() > MAX_FRAME_SIZE {
            return Err(ProtocolError::BadRequest("bstr too large"));
        }
        let mut out: Vec<u8> = Vec::new();
        push_bstr(&mut out, self.request_id.as_slice());
        push_bstr(&mut out, self.action.as_slice());
        push_bstr(&mut out, self.params.as_slice());
        proof {
            assert(out@ =~= spec_encode_invoke(self@));
        }
        Ok(out)
    }

    /// Decode an invoke body. Succeeds exactly when the bytes parse.
    pub fn decode(b: &[u8]) -> (r: Result<InvokeBody, ProtocolError>)
        ensures
            match r {
                Ok(body) => spec_decode_invoke(b@) == Some(body@),
                Err(_) => spec_decode_invoke(b@) is None,
            },
    {
        let (request_id, p1) = match take_bstr(b, 0) {
            Ok(t) => t,
            Err(e) => {
                return Err(e);
            },
        };
        let (action, p2) = match take_bstr(b, p1) {
            Ok(t) => t,
            Err(e) => {
                return Err(e);
            },
        };
        let (params, _p3) = match take_bstr(b, p2) {
            Ok(t) => t,
            Err(e) => {
                return Err(e);
            },
        };
        Ok(InvokeBody { request_id, action, params })
    }
}

/// Law: every well-formed invoke body decodes from its own encoding.
pub proof fn lemma_invoke_roundtrip(d: InvokeData)
    requires
        spec_invoke_wf(d),
    ensures
        spec_decode_invoke(spec_encode_invoke(d)) == Some(d),
{
    let b = spec_encode_invoke(d);
    let p1: int = 4 + d.request_id.len() as int;
    let p2: int = p1 + 4 + d.action.len() as int;
    let p3: int = p2 + 4 + d.params.len() as int;
    assert(b.subrange(0, p1) =~= spec_bstr(d.request_id));
    lemma_take_bstr_of_encoded(b, 0, d.request_id);
    assert(b.subrange(p1, p2) =~= spec_bstr(d.action));
    lemma_take_bstr_of_encoded(b, p1, d.action);
    assert(b.subrange(p2, p3) =~= spec_bstr(d.params));
    lemma_take_bstr_of_encoded(b, p2, d.params);
}

/// The serialized form of a result body: request id, then the result bytes.
pub open spec fn spec_encode_result(d: ResultData) -> Seq<u8> {
    spec_bstr(d.request_id) + spec_bstr(d.result)
}

pub open spec fn spec_result_wf(d: ResultData) -> bool {
    &&& d.request_id.len() <= MAX_FRAME_SIZE
    &&& d.result.len() <= MAX_FRAME_SIZE
}

/// What decoding a result body yields; trailing bytes are ignored.
pub open spec fn spec_decode_result(b: Seq<u8>) -> Option<ResultData> {
    match spec_take_bstr(b, 0) {
        None => None,
        Some((request_id, p1)) => match spec_take_bstr(b, p1) {
            None => None,
            Some((result, _p2)) => Some(ResultData { request_id, result }),
        },
    }
}

impl ResultBody {
    /// Serialize this body; refused when a field exceeds the frame cap.
    pub fn encode(&self) -> (r: Result<Vec<u8>, ProtocolError>)
        ensures
            spec_result_wf(self@) ==> (r matches Ok(v) && v@ == spec_encode_result(self@)),
            !spec_result_wf(self@) ==> r is Err,
    {
        if self.request_id.len() > MAX_FRAME_SIZE || self.result.len() > MAX_FRAME_SIZE {
            return Err(ProtocolError::BadRequest("bstr too large"));
        }
        let mut out: Vec<u8> = Vec::new();
        push_bstr(&mut out, self.request_id.as_slice());
        push_bstr(&mut out, self.result.as_slice());
        proof {
            assert(out@ =~= spec_encode_result(self@));
        }
        Ok(out)
    }

    /// Decode a result body. Succeeds exactly when the bytes parse.
    pub fn decode(b: &[u8]) -> (r: Result<ResultBody, ProtocolError>)
        ensures
            match r {
                Ok(body) => spec_decode_result(b@) == Some(body@),
                Err(_) => spec_decode_result(b@) is None,
            },
    {
        let (request_id, p1) = match take_bstr(b, 0) {
            Ok(t) => t,
            Err(e) => {
                return Err(e);
            },
        };
        let (result, _p2) = match take_bstr(b, p1) {
            Ok(t) => t,
            Err(e) => {
                return Err(e);
            },
        };
        Ok(ResultBody { request_id, result })
    }
}

/// Law: every well-formed result body decodes from its own encoding.
pub proof fn lemma_result_roundtrip(d: ResultData)
    requires
        spec_result_wf(d),
    ensures
        spec_decode_result(spec_encode_result(d)) == Some(d),
{
    let b = spec_encode_result(d);
    let p1: int = 4 + d.request_id.len() as int;
    let p2: int = p1 + 4 + d.result.len() as int;
    assert(b.subrange(0, p1) =~= spec_bstr(d.request_id));
    lemma_take_bstr_of_encoded(b, 0, d.request_id);
    assert(b.subrange(p1, p2) =~= spec_bstr(d.result));
    lemma_take_bstr_of_encoded(b, p1, d.result);
}

/// The error code carrying a given wire code between 1 and 7.
pub open spec fn spec_error_code_of(v: u16) -> ErrorCode
    recommends
        1 <= v <= 7,
{
    if v == 1 {
        ErrorCode::Unauthenticated
    } else if v == 2 {
        ErrorCode::Replay
    } else if v == 3 {
        ErrorCode::Denied
    } else if v == 4 {
        ErrorCode::UnknownAction
    } else if v == 5 {
        ErrorCode::NoRepeater
    } else if v == 6 {
        ErrorCode::BadRequest
    } else {
        ErrorCode::Internal
    }
}

/// The serialized form of an error body: request id, `u16` little-endian
/// code, then the message.
pub open spec fn spec_encode_error(d: ErrorData) -> Seq<u8> {
    spec_bstr(d.request_id) + spec_u16_to_le_bytes(spec_error_code(d.code)) + spec_bstr(d.message)
}

pub open spec fn spec_error_wf(d: ErrorData) -> bool {
    &&& d.request_id.len() <= MAX_FRAME_SIZE
    &&& d.message.len() <= MAX_FRAME_SIZE
}

/// What decoding an error body yields; trailing bytes are ignored.
pub open spec fn spec_decode_error(b: Seq<u8>) -> Option<ErrorData> {
    match spec_take_bstr(b, 0) {
        None => None,
        Some((request_id, p1)) => match spec_take_u16_le(b, p1) {
            None => None,
            Some((code, p2)) => if !(1 <= code <= 7) {
                None
            } else {
                match spec_take_bstr(b, p2) {
                    None => None,
                    Some((message, _p3)) => Some(
                        ErrorData { request_id, code: spec_error_code_of(code), message },
                    ),
                }
            },
        },
    }
}

impl ErrorBody {
    /// Serialize this body; refused when a field exceeds the frame cap.
    pub fn encode(&self) -> (r: Result<Vec<u8>, ProtocolError>)
        ensures
            spec_error_wf(self@) ==> (r matches Ok(v) && v@ == spec_encode_error(self@)),
            !spec_error_wf(self@) ==> r is Err,
    {
        if self.request_id.len() > MAX_FRAME_SIZE || self.message.len() > MAX_FRAME_SIZE {
            return Err(ProtocolError::BadRequest("bstr too large"));
        }
        let mut out: Vec<u8> = Vec::new();
        push_bstr(&mut out, self.request_id.as_slice());
        push_u16_le(&mut out, self.code.code());
        push_bstr(&mut out, self.message.as_slice());
        proof {
            assert(out@ =~= spec_encode_error(self@));
        }
        Ok(out)
    }

    /// Decode an error body. Succeeds exactly when the bytes parse: the code
    /// must be a known error code.
    pub fn decode(b: &[u8]) -> (r: Result<ErrorBody, ProtocolError>)
        ensures
            match r {
                Ok(body) => spec_decode_error(b@) == Some(body@),
                Err(_) => spec_decode_error(b@) is None,
            },
    {
        let (request_id, p1) = match take_bstr(b, 0) {
            Ok(t) => t,
            Err(e) => {
                return Err(e);
            },
        };
        let (code_raw, p2) = match take_u16(b, p1) {
            Ok(t) => t,
            Err(e) => {
                return Err(e);
            },
        };
        let code = match ErrorCode::from_u16(code_raw) {
            Ok(c) => c,
            Err(e) => {
                return Err(e);
            },
        };
        let (message, _p3) = match take_bstr(b, p2) {
            Ok(t) => t,
            Err(e) => {
                return Err(e);
            },
        };
        proof {
            assert(spec_error_code_of(code_raw) == code);
        }
        Ok(ErrorBody { request_id, code, message })
    }
}

/// Law: every well-formed error body decodes from its own encoding.
pub proof fn lemma_error_roundtrip(d: ErrorData)
    requires
        spec_error_wf(d),
    ensures
        spec_decode_error(spec_encode_error(d)) == Some(d),
{
    lemma_auto_spec_u16_to_from_le_bytes();
    let b = spec_encode_error(d);
    assert(spec_u16_to_le_bytes(spec_error_code(d.code)).len() == 2);
    let p1: int = 4 + d.request_id.len() as int;
    let p2: int = p1 + 2;
    let p3: int = p2 + 4 + d.message.len() as int;
    assert(b.subrange(0, p1) =~= spec_bstr(d.request_id));
    lemma_take_bstr_of_encoded(b, 0, d.request_id);
    assert(b.subrange(p1, p2) =~= spec_u16_to_le_bytes(spec_error_code(d.code)));
    lemma_take_u16_of_encoded(b, p1, spec_error_code(d.code));
    assert(b.subrange(p2, p3) =~= spec_bstr(d.message));
    lemma_take_bstr_of_encoded(b, p2, d.message);
    assert(spec_error_code_of(spec_error_code(d.code)) == d.code);
}

/// Law: every well-formed register body decodes from its own encoding.
pub proof fn lemma_register_roundtrip(d: RegisterData)
    requires
        spec_register_wf(d),
    ensures
        spec_decode_register(spec_encode_register(d)) == Some(d),
{
    vstd::bytes::lemma_auto_spec_u32_to_from_le_bytes();
    let b = spec_encode_register(d);
    let rlen = d.repeater_id.len() as int;
    let p1: int = 4 + rlen;
    let p2: int = p1 + 4;
    let enc = spec_encode_bstr_seq(d.actions);
    assert(vstd::bytes::spec_u32_to_le_bytes(d.actions.len() as u32).len() == 4);
    assert(b.subrange(0, p1) =~= spec_bstr(d.repeater_id));
    lemma_take_bstr_of_encoded(b, 0, d.repeater_id);
    assert(b.subrange(p1, p2) =~= vstd::bytes::spec_u32_to_le_bytes(d.actions.len() as u32));
    assert(spec_take_u32_le(b, p1) == Some((d.actions.len() as u32, p2)));
    assert(b.subrange(p2, p2 + enc.len() as int) =~= enc);
    lemma_take_n_bstrs_of_encoded(b, p2, d.actions);
}

} // verus!
