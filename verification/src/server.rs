//! The broker dispatcher: authenticate each frame, guard it against replay,
//! and route it — `Invoke` frames to the repeater owning the action,
//! `Result`/`Error` replies back to the waiting agent, `Register` frames
//! into the session table. I/O stays outside: connections are named by
//! numeric handles, a frame comes in as bytes, and the outcome says which
//! handle to write which bytes to, if any.

use vstd::prelude::*;

use crate::bunker::{spec_perm_allows, Bunker, BunkerError};
use crate::crypto::{
    ed25519_verifies, spec_canonical_signing_bytes, verify, CryptoError,
};
use crate::framing::FrameError;
use crate::protocol::{
    spec_decode_envelope, spec_decode_error, spec_decode_invoke, spec_decode_register,
    spec_decode_result, spec_encode_envelope, spec_encode_error, Envelope, EnvData, ErrorBody,
    ErrorCode, InvokeBody, MessageType, ProtocolError, RegisterBody, ResultBody,
};
use crate::replay::{
    spec_contains_nonce, spec_cutoff, spec_evict_front, spec_skew, ReplayCache, ReplayError,
};
use crate::table::{
    names_contain, spec_lookup, spec_name_present, spec_remove_key, table_get, table_insert,
    table_take,
};
use crate::wire::bytes_eq;
use crate::MAX_FRAME_SIZE;

verus! {

/// Which endpoint a connection came in on.
#[derive(Clone, Copy, Debug, PartialEq, Eq, Structural)]
pub enum PeerKind {
    Agent,
    Repeater,
}

/// Errors the daemon surfaces to its caller.
#[derive(Clone, Debug, PartialEq, Eq)]
pub enum ServerError {
    Io(String),
    Protocol(ProtocolError),
    Frame(FrameError),
    Bunker(BunkerError),
    Crypto(CryptoError),
}

/// Where the two endpoints live and how wide the replay window is.
#[derive(Clone, Debug, PartialEq, Eq)]
pub struct ServerConfig {
    pub agent_sock: String,
    pub repeater_sock: String,
    pub replay_window_ms: u64,
}

impl Default for ServerConfig {
    /// The stock endpoints and the two-minute replay window.
    fn default() -> (r: ServerConfig)
        ensures
            r.replay_window_ms == 120000,
    {
        ServerConfig {
            agent_sock: "turret-agent.sock".to_string(),
            repeater_sock: "turret-repeater.sock".to_string(),
            replay_window_ms: 120000,
        }
    }
}

/// Live state of one registered repeater: the handle of its connection and
/// the actions it is registered to serve.
#[derive(Clone, Debug)]
pub struct Session {
    pub conn: u64,
    pub actions: Vec<Vec<u8>>,
}

/// Everything the broker shares across connections: the replay cache, the
/// session table keyed by repeater principal, and the pending-request table
/// keyed by request id.
#[derive(Debug)]
pub struct BrokerState {
    pub replay: ReplayCache,
    pub sessions: Vec<(Vec<u8>, Session)>,
    pub pending: Vec<(Vec<u8>, u64)>,
}

/// What one frame asks of the connection layer.
#[derive(Clone, Debug)]
pub enum FrameOutcome {
    /// The sender proved nothing or broke the protocol: drop the connection.
    Close,
    /// Nothing to write back.
    Ignore,
    /// Write `frame` to the connection named `conn`.
    Send { conn: u64, frame: Vec<u8> },
}

/// The verifying key the catalog holds for a principal, agents first.
pub open spec fn spec_lookup_vk(b: Bunker, p: Seq<u8>) -> Option<[u8; 32]> {
    match spec_lookup(b.agents@, p) {
        Some(k) => Some(k),
        None => spec_lookup(b.repeaters@, p),
    }
}

/// Look up a principal's verifying key in `agents` then `repeaters`.
pub fn lookup_vk(b: &Bunker, p: &[u8]) -> (r: Option<[u8; 32]>)
    ensures
        r == spec_lookup_vk(*b, p@),
{
    match table_get(&b.agents, p) {
        Some(k) => Some(*k),
        None => match table_get(&b.repeaters, p) {
            Some(k) => Some(*k),
            None => None,
        },
    }
}

/// Why an `Invoke` cannot be forwarded.
#[derive(Clone, Copy, Debug, PartialEq, Eq, Structural)]
pub enum RouteRefusal {
    /// The agent is not permitted to invoke the action.
    Denied,
    /// The action is not in the catalog.
    UnknownAction,
    /// The owning repeater has no live session.
    NoSession,
    /// The live session did not register this action.
    NotRegistered,
}

/// The error code a refusal is reported under.
pub open spec fn spec_refusal_code(r: RouteRefusal) -> ErrorCode {
    match r {
        RouteRefusal::Denied => ErrorCode::Denied,
        RouteRefusal::UnknownAction => ErrorCode::UnknownAction,
        RouteRefusal::NoSession => ErrorCode::NoRepeater,
        RouteRefusal::NotRegistered => ErrorCode::NoRepeater,
    }
}

/// The byte string `denied`.
pub open spec fn spec_msg_denied() -> Seq<u8> {
    seq![100u8, 101u8, 110u8, 105u8, 101u8, 100u8]
}

/// The byte string `unknown action`.
pub open spec fn spec_msg_unknown_action() -> Seq<u8> {
    seq![117u8, 110u8, 107u8, 110u8, 111u8, 119u8, 110u8, 32u8, 97u8, 99u8, 116u8, 105u8, 111u8, 110u8]
}

/// The byte string `no repeater`.
pub open spec fn spec_msg_no_repeater() -> Seq<u8> {
    seq![110u8, 111u8, 32u8, 114u8, 101u8, 112u8, 101u8, 97u8, 116u8, 101u8, 114u8]
}

/// The byte string `repeater not registered for action`.
pub open spec fn spec_msg_not_registered() -> Seq<u8> {
    seq![114u8, 101u8, 112u8, 101u8, 97u8, 116u8, 101u8, 114u8, 32u8, 110u8, 111u8, 116u8, 32u8, 114u8, 101u8, 103u8, 105u8, 115u8, 116u8, 101u8, 114u8, 101u8, 100u8, 32u8, 102u8, 111u8, 114u8, 32u8, 97u8, 99u8, 116u8, 105u8, 111u8, 110u8]
}

/// The byte string `replay`.
pub open spec fn spec_msg_replay() -> Seq<u8> {
    seq![114u8, 101u8, 112u8, 108u8, 97u8, 121u8]
}

/// The byte string `bad request`.
pub open spec fn spec_msg_bad_request() -> Seq<u8> {
    seq![98u8, 97u8, 100u8, 32u8, 114u8, 101u8, 113u8, 117u8, 101u8, 115u8, 116u8]
}

/// The byte string `turret`, the broker's own principal name on unsigned
/// error envelopes.
pub open spec fn spec_broker_principal() -> Seq<u8> {
    seq![116u8, 117u8, 114u8, 114u8, 101u8, 116u8]
}

/// The message a refusal carries.
pub open spec fn spec_refusal_message(r: RouteRefusal) -> Seq<u8> {
    match r {
        RouteRefusal::Denied => spec_msg_denied(),
        RouteRefusal::UnknownAction => spec_msg_unknown_action(),
        RouteRefusal::NoSession => spec_msg_no_repeater(),
        RouteRefusal::NotRegistered => spec_msg_not_registered(),
    }
}

/// The message a refusal carries, as bytes.
pub fn refusal_message(r: RouteRefusal) -> (m: Vec<u8>)
    ensures
        m@ == spec_refusal_message(r),
{
    let m: Vec<u8> = match r {
        RouteRefusal::Denied => vec![100u8, 101u8, 110u8, 105u8, 101u8, 100u8],
        RouteRefusal::UnknownAction => vec![117u8, 110u8, 107u8, 110u8, 111u8, 119u8, 110u8, 32u8, 97u8, 99u8, 116u8, 105u8, 111u8, 110u8],
        RouteRefusal::NoSession => vec![110u8, 111u8, 32u8, 114u8, 101u8, 112u8, 101u8, 97u8, 116u8, 101u8, 114u8],
        RouteRefusal::NotRegistered => vec![114u8, 101u8, 112u8, 101u8, 97u8, 116u8, 101u8, 114u8, 32u8, 110u8, 111u8, 116u8, 32u8, 114u8, 101u8, 103u8, 105u8, 115u8, 116u8, 101u8, 114u8, 101u8, 100u8, 32u8, 102u8, 111u8, 114u8, 32u8, 97u8, 99u8, 116u8, 105u8, 111u8, 110u8],
    };
    proof {
        match r {
            RouteRefusal::Denied => assert(m@ =~= spec_refusal_message(r)),
            RouteRefusal::UnknownAction => assert(m@ =~= spec_refusal_message(r)),
            RouteRefusal::NoSession => assert(m@ =~= spec_refusal_message(r)),
            RouteRefusal::NotRegistered => assert(m@ =~= spec_refusal_message(r)),
        }
    }
    m
}

/// The routing rule for an authenticated `Invoke`, in order: the permission
/// matrix, the action registry, the live session, the session's action set.
pub open spec fn spec_route_invoke(
    b: Bunker,
    sessions: Seq<(Vec<u8>, Session)>,
    agent: Seq<u8>,
    action: Seq<u8>,
) -> Result<u64, RouteRefusal> {
    if !spec_perm_allows(b.permissions@, agent, action) {
        Err(RouteRefusal::Denied)
    } else {
        match spec_lookup(b.actions@, action) {
            None => Err(RouteRefusal::UnknownAction),
            Some(owner) => match spec_lookup(sessions, owner@) {
                None => Err(RouteRefusal::NoSession),
                Some(sess) => if !spec_name_present(sess.actions@, action) {
                    Err(RouteRefusal::NotRegistered)
                } else {
                    Ok(sess.conn)
                },
            },
        }
    }
}

/// Decide where an `Invoke` goes: the connection handle of the owning
/// repeater's live session, or the refusal to report.
pub fn route_invoke(
    b: &Bunker,
    sessions: &Vec<(Vec<u8>, Session)>,
    agent: &[u8],
    action: &[u8],
) -> (r: Result<u64, RouteRefusal>)
    ensures
        r == spec_route_invoke(*b, sessions@, agent@, action@),
{
    let allowed = match table_get(&b.permissions, agent) {
        Some(l) => names_contain(l, action),
        None => false,
    };
    if !allowed {
        return Err(RouteRefusal::Denied);
    }
    let owner = match table_get(&b.actions, action) {
        Some(o) => o,
        None => {
            return Err(RouteRefusal::UnknownAction);
        },
    };
    let sess = match table_get(sessions, owner.as_slice()) {
        Some(s) => s,
        None => {
            return Err(RouteRefusal::NoSession);
        },
    };
    if !names_contain(&sess.actions, action) {
        return Err(RouteRefusal::NotRegistered);
    }
    Ok(sess.conn)
}

/// The nonce on a broker-synthesized error envelope: sixteen zero bytes.
pub open spec fn spec_zero_nonce() -> Seq<u8> {
    Seq::new(16, |i: int| 0u8)
}

/// The signature on a broker-synthesized error envelope: 64 zero bytes. The
/// broker has no key of its own; agents treat these envelopes as
/// unauthenticated hints.
pub open spec fn spec_zero_sig() -> Seq<u8> {
    Seq::new(64, |i: int| 0u8)
}

/// Whether an error envelope around `(request_id, message)` fits the frame
/// cap.
pub open spec fn spec_error_frame_ok(request_id: Seq<u8>, message: Seq<u8>) -> bool {
    10 + request_id.len() + message.len() <= MAX_FRAME_SIZE
}

/// The unsigned error envelope the broker sends an agent: principal
/// `turret`, the caller's clock, a zero nonce, the error body, a zero
/// signature.
pub open spec fn spec_error_frame(
    now_ms: u64,
    request_id: Seq<u8>,
    code: ErrorCode,
    message: Seq<u8>,
) -> Seq<u8> {
    spec_encode_envelope(
        EnvData {
            msg_type: MessageType::Error,
            principal: spec_broker_principal(),
            ts_ms: now_ms,
            nonce: spec_zero_nonce(),
            body: spec_encode_error(
                crate::protocol::ErrorData { request_id, code, message },
            ),
            sig: spec_zero_sig(),
        },
    )
}

/// Build the unsigned error envelope for `(request_id, code, message)`;
/// nothing can be built when the request id is so large the body would
/// break the frame cap.
pub fn synth_error_frame(now_ms: u64, request_id: &[u8], code: ErrorCode, message: &[u8]) -> (r:
    Option<Vec<u8>>)
    ensures
        r is Some <==> spec_error_frame_ok(request_id@, message@),
        r matches Some(f) ==> f@ == spec_error_frame(now_ms, request_id@, code, message@),
{
    proof {
        vstd::bytes::lemma_auto_spec_u16_to_from_le_bytes();
        assert(vstd::bytes::spec_u16_to_le_bytes(crate::protocol::spec_error_code(code)).len()
            == 2);
    }
    let body = ErrorBody {
        request_id: vstd::slice::slice_to_vec(request_id),
        code,
        message: vstd::slice::slice_to_vec(message),
    };
    let body_bytes = match body.encode() {
        Ok(b) => b,
        Err(_) => {
            return None;
        },
    };
    if body_bytes.len() > MAX_FRAME_SIZE {
        return None;
    }
    let mut nonce: Vec<u8> = Vec::new();
    let mut i: usize = 0;
    while i < 16
        invariant
            i <= 16,
            nonce@.len() == i,
            forall|j: int| 0 <= j < i ==> nonce@[j] == 0u8,
        decreases 16 - i,
    {
        nonce.push(0u8);
        i = i + 1;
    }
    proof {
        assert(nonce@ =~= spec_zero_nonce());
    }
    let env = Envelope {
        msg_type: MessageType::Error,
        principal: vec![116u8, 117u8, 114u8, 114u8, 101u8, 116u8],
        ts_ms: now_ms,
        nonce,
        body: body_bytes,
        sig: [0u8; 64],
    };
    proof {
        assert(env.principal@ =~= spec_broker_principal());
        assert(env.sig@ =~= spec_zero_sig());
    }
    match env.encode() {
        Ok(f) => Some(f),
        Err(_) => None,
    }
}

/// Keep the advertised actions that the catalog says this repeater owns.
fn intersect_owned_actions(b: &Bunker, advertised: &Vec<Vec<u8>>, principal: &[u8]) -> (kept: Vec<
    Vec<u8>,
>)
    ensures
        forall|a: Seq<u8>|
            spec_name_present(kept@, a) <==> (spec_name_present(advertised@, a) && (spec_lookup(
                b.actions@,
                a,
            ) matches Some(o) && o@ == principal@)),
{
    let mut kept: Vec<Vec<u8>> = Vec::new();
    let mut i: usize = 0;
    while i < advertised.len()
        invariant
            i <= advertised@.len(),
            forall|a: Seq<u8>|
                spec_name_present(kept@, a) <==> (spec_name_present(
                    advertised@.subrange(0, i as int),
                    a,
                ) && (spec_lookup(b.actions@, a) matches Some(o) && o@ == principal@)),
        decreases advertised@.len() - i,
    {
        let ghost pre: Seq<Vec<u8>> = kept@;
        let act = &advertised[i];
        let owned = match table_get(&b.actions, act.as_slice()) {
            Some(o) => bytes_eq(o.as_slice(), principal),
            None => false,
        };
        if owned {
            kept.push(vstd::slice::slice_to_vec(act.as_slice()));
        }
        proof {
            let prefix2 = advertised@.subrange(0, i + 1);
            assert(prefix2[i as int] == advertised@[i as int]);
            assert forall|a: Seq<u8>|
                spec_name_present(kept@, a) <==> (spec_name_present(prefix2, a) && (spec_lookup(
                    b.actions@,
                    a,
                ) matches Some(o) && o@ == principal@)) by {
                if spec_name_present(kept@, a) {
                    let x = choose|x: int| 0 <= x < kept@.len() && (#[trigger] kept@[x])@ == a;
                    if x < pre.len() {
                        assert(spec_name_present(pre, a));
                        let y = choose|y: int|
                            0 <= y < advertised@.subrange(0, i as int).len() && (#[trigger]
                            advertised@.subrange(0, i as int)[y])@ == a;
                        assert(prefix2[y] == advertised@.subrange(0, i as int)[y]);
                        assert(spec_name_present(prefix2, a));
                    } else {
                        assert(kept@[x]@ == advertised@[i as int]@);
                        assert(spec_name_present(prefix2, a));
                    }
                }
                if spec_name_present(prefix2, a) && (spec_lookup(b.actions@, a) matches Some(o)
                    && o@ == principal@) {
                    let y = choose|y: int| 0 <= y < prefix2.len() && (#[trigger] prefix2[y])@ == a;
                    if y < i {
                        assert(advertised@.subrange(0, i as int)[y] == prefix2[y]);
                        assert(spec_name_present(advertised@.subrange(0, i as int), a));
                        assert(spec_name_present(pre, a));
                        let x = choose|x: int| 0 <= x < pre.len() && (#[trigger] pre[x])@ == a;
                        assert(kept@[x] == pre[x]);
                        assert(spec_name_present(kept@, a));
                    } else {
                        assert(a == advertised@[i as int]@);
                        assert(owned);
                        assert(kept@[kept@.len() - 1]@ == a);
                        assert(spec_name_present(kept@, a));
                    }
                }
            }
        }
        i = i + 1;
    }
    proof {
        assert(advertised@.subrange(0, advertised@.len() as int) =~= advertised@);
    }
    kept
}

/// Sessions without those owned by connection `conn`.
pub open spec fn spec_drop_conn(s: Seq<(Vec<u8>, Session)>, conn: u64) -> Seq<(Vec<u8>, Session)>
    decreases s.len(),
{
    if s.len() == 0 {
        s
    } else if s[0].1.conn == conn {
        spec_drop_conn(s.drop_first(), conn)
    } else {
        seq![s[0]] + spec_drop_conn(s.drop_first(), conn)
    }
}

/// What holds of the broker after one frame: the outcome and every state
/// change, case by case, as the dispatch rule reads.
pub open spec fn spec_handle_post(
    pre: BrokerState,
    post: BrokerState,
    b: Bunker,
    kind: PeerKind,
    conn: u64,
    now_ms: u64,
    payload: Seq<u8>,
    r: FrameOutcome,
) -> bool {
    let w = pre.replay.window();
    let same_tables = post.sessions@ == pre.sessions@ && post.pending@ == pre.pending@;
    let replay_untouched = post.replay.records() == pre.replay.records();
    post.replay.window() == w && match spec_decode_envelope(payload) {
        None => r == FrameOutcome::Close && same_tables && replay_untouched,
        Some(env) => match spec_lookup_vk(b, env.principal) {
            None => r == FrameOutcome::Close && same_tables && replay_untouched,
            Some(vk) => {
                let cutoff = spec_cutoff(now_ms, w);
                let evicted = spec_evict_front(pre.replay.records(), cutoff);
                let stale = spec_skew(now_ms, env.ts_ms) > w;
                let replayed = !stale && spec_contains_nonce(evicted, env.principal, env.nonce);
                let canonical = spec_canonical_signing_bytes(
                    env.principal,
                    env.ts_ms,
                    env.nonce,
                    env.body,
                );
                &&& post.replay.records() == (if stale {
                    pre.replay.records()
                } else if replayed {
                    evicted
                } else {
                    evicted.push((env.principal, env.nonce, env.ts_ms))
                })
                &&& if stale || replayed {
                    &&& same_tables
                    &&& if kind == PeerKind::Agent && env.msg_type == MessageType::Invoke {
                        match spec_decode_invoke(env.body) {
                            Some(ib) => if spec_error_frame_ok(ib.request_id, spec_msg_replay()) {
                                r matches FrameOutcome::Send { conn: c, frame } && c == conn
                                    && frame@ == spec_error_frame(
                                    now_ms,
                                    ib.request_id,
                                    ErrorCode::Replay,
                                    spec_msg_replay(),
                                )
                            } else {
                                r == FrameOutcome::Close
                            },
                            None => r == FrameOutcome::Ignore,
                        }
                    } else {
                        r == FrameOutcome::Ignore
                    }
                } else if !ed25519_verifies(vk@, canonical, env.sig) {
                    r == FrameOutcome::Close && same_tables
                } else {
                    match (kind, env.msg_type) {
                        (PeerKind::Repeater, MessageType::Register) => match spec_decode_register(
                            env.body,
                        ) {
                            None => r == FrameOutcome::Close && same_tables,
                            Some(reg) => if reg.repeater_id != env.principal
                                || !crate::table::spec_has_key(b.repeaters@, env.principal) {
                                r == FrameOutcome::Ignore && same_tables
                            } else {
                                &&& r == FrameOutcome::Ignore
                                &&& post.pending@ == pre.pending@
                                &&& spec_lookup(post.sessions@, env.principal) matches Some(s)
                                    && s.conn == conn && (forall|a: Seq<u8>|
                                    spec_name_present(s.actions@, a) <==> (reg.actions.contains(a)
                                        && (spec_lookup(b.actions@, a) matches Some(o) && o@
                                        == env.principal)))
                                &&& forall|k: Seq<u8>|
                                    k != env.principal ==> #[trigger] spec_lookup(
                                        post.sessions@,
                                        k,
                                    ) == spec_lookup(pre.sessions@, k)
                            },
                        },
                        (PeerKind::Agent, MessageType::Invoke) => match spec_decode_invoke(
                            env.body,
                        ) {
                            None => same_tables && (r matches FrameOutcome::Send {
                                conn: c,
                                frame,
                            } && c == conn && frame@ == spec_error_frame(
                                now_ms,
                                Seq::empty(),
                                ErrorCode::BadRequest,
                                spec_msg_bad_request(),
                            )),
                            Some(ib) => match spec_route_invoke(
                                b,
                                pre.sessions@,
                                env.principal,
                                ib.action,
                            ) {
                                Err(refusal) => same_tables && (if spec_error_frame_ok(
                                    ib.request_id,
                                    spec_refusal_message(refusal),
                                ) {
                                    r matches FrameOutcome::Send { conn: c, frame } && c == conn
                                        && frame@ == spec_error_frame(
                                        now_ms,
                                        ib.request_id,
                                        spec_refusal_code(refusal),
                                        spec_refusal_message(refusal),
                                    )
                                } else {
                                    r == FrameOutcome::Close
                                }),
                                Ok(rep_conn) => {
                                    &&& post.sessions@ == pre.sessions@
                                    &&& spec_lookup(post.pending@, ib.request_id) == Some(conn)
                                    &&& forall|k: Seq<u8>|
                                        k != ib.request_id ==> #[trigger] spec_lookup(
                                            post.pending@,
                                            k,
                                        ) == spec_lookup(pre.pending@, k)
                                    &&& r matches FrameOutcome::Send { conn: c, frame } && c
                                        == rep_conn && frame@ == payload
                                },
                            },
                        },
                        (PeerKind::Repeater, MessageType::Result) => match spec_decode_result(
                            env.body,
                        ) {
                            None => r == FrameOutcome::Close && same_tables,
                            Some(rb) => {
                                &&& post.sessions@ == pre.sessions@
                                &&& post.pending@ == spec_remove_key(pre.pending@, rb.request_id)
                                &&& match spec_lookup(pre.pending@, rb.request_id) {
                                    None => r == FrameOutcome::Ignore,
                                    Some(agent_conn) => r matches FrameOutcome::Send {
                                        conn: c,
                                        frame,
                                    } && c == agent_conn && frame@ == payload && spec_lookup(
                                        post.pending@,
                                        rb.request_id,
                                    ) is None,
                                }
                            },
                        },
                        (PeerKind::Repeater, MessageType::Error) => match spec_decode_error(
                            env.body,
                        ) {
                            None => r == FrameOutcome::Close && same_tables,
                            Some(eb) => {
                                &&& post.sessions@ == pre.sessions@
                                &&& post.pending@ == spec_remove_key(pre.pending@, eb.request_id)
                                &&& match spec_lookup(pre.pending@, eb.request_id) {
                                    None => r == FrameOutcome::Ignore,
                                    Some(agent_conn) => r matches FrameOutcome::Send {
                                        conn: c,
                                        frame,
                                    } && c == agent_conn && frame@ == payload && spec_lookup(
                                        post.pending@,
                                        eb.request_id,
                                    ) is None,
                                }
                            },
                        },
                        _ => r == FrameOutcome::Ignore && same_tables,
                    }
                }
            },
        },
    }
}

impl BrokerState {
    /// A broker with no sessions, no pending requests, and an empty replay
    /// cache over the given window.
    pub fn new(window_ms: u64) -> (r: BrokerState)
        ensures
            r.replay.window() == window_ms,
            r.replay.records() == Seq::<crate::replay::ReplayRecord>::empty(),
            r.sessions@.len() == 0,
            r.pending@.len() == 0,
    {
        BrokerState { replay: ReplayCache::new(window_ms), sessions: Vec::new(), pending: Vec::new() }
    }

    /// Handle one frame from the connection `conn` on the `kind` endpoint:
    /// decode, authenticate, guard against replay, verify, dispatch. The
    /// contract (`spec_handle_post`) walks the same steps; in particular a
    /// forwarded `Invoke` and a routed reply carry the incoming bytes
    /// verbatim, and a routed reply lands exactly on the pending entry it
    /// closes.
    pub fn handle_frame(
        &mut self,
        bunker: &Bunker,
        kind: PeerKind,
        conn: u64,
        now_ms: u64,
        payload: &[u8],
    ) -> (r: FrameOutcome)
        ensures
            spec_handle_post(*old(self), *final(self), *bunker, kind, conn, now_ms, payload@, r),
    {
        let env = match Envelope::decode(payload) {
            Ok(e) => e,
            Err(_) => {
                return FrameOutcome::Close;
            },
        };
        let vk = match lookup_vk(bunker, env.principal.as_slice()) {
            Some(k) => k,
            None => {
                return FrameOutcome::Close;
            },
        };
        match self.replay.check_and_record(
            now_ms,
            env.ts_ms,
            env.principal.as_slice(),
            env.nonce.as_slice(),
        ) {
            Ok(()) => {},
            Err(_) => {
                if kind == PeerKind::Agent && env.msg_type == MessageType::Invoke {
                    match InvokeBody::decode(env.body.as_slice()) {
                        Ok(ib) => {
                            let msg = vec![114u8, 101u8, 112u8, 108u8, 97u8, 121u8];
                            proof {
                                assert(msg@ =~= spec_msg_replay());
                            }
                            match synth_error_frame(
                                now_ms,
                                ib.request_id.as_slice(),
                                ErrorCode::Replay,
                                msg.as_slice(),
                            ) {
                                Some(frame) => {
                                    return FrameOutcome::Send { conn, frame };
                                },
                                None => {
                                    return FrameOutcome::Close;
                                },
                            }
                        },
                        Err(_) => {
                            return FrameOutcome::Ignore;
                        },
                    }
                }
                return FrameOutcome::Ignore;
            },
        }
        match verify(
            &vk,
            env.principal.as_slice(),
            env.ts_ms,
            env.nonce.as_slice(),
            env.body.as_slice(),
            &env.sig,
        ) {
            Ok(()) => {},
            Err(_) => {
                return FrameOutcome::Close;
            },
        }
        match (kind, env.msg_type) {
            (PeerKind::Repeater, MessageType::Register) => {
                let reg = match RegisterBody::decode(env.body.as_slice()) {
                    Ok(b) => b,
                    Err(_) => {
                        return FrameOutcome::Close;
                    },
                };
                if !bytes_eq(reg.repeater_id.as_slice(), env.principal.as_slice()) {
                    return FrameOutcome::Ignore;
                }
                if !crate::table::table_has_key(&bunker.repeaters, env.principal.as_slice()) {
                    return FrameOutcome::Ignore;
                }
                let kept = intersect_owned_actions(
                    bunker,
                    &reg.actions,
                    env.principal.as_slice(),
                );
                let ghost pre_sessions = self.sessions@;
                table_insert(
                    &mut self.sessions,
                    vstd::slice::slice_to_vec(env.principal.as_slice()),
                    Session { conn, actions: kept },
                );
                proof {
                    assert(self.sessions@[0].0@ == env.principal@);
                    assert(self.sessions@.drop_first() =~= spec_remove_key(
                        pre_sessions,
                        env.principal@,
                    ));
                    assert forall|k: Seq<u8>| k != env.principal@ implies #[trigger] spec_lookup(
                        self.sessions@,
                        k,
                    ) == spec_lookup(pre_sessions, k) by {
                        crate::table::lemma_lookup_remove_key(pre_sessions, env.principal@, k);
                    }
                    assert forall|a: Seq<u8>|
                        spec_name_present(reg.actions@, a) <==> reg@.actions.contains(a) by {
                        if spec_name_present(reg.actions@, a) {
                            let i = choose|i: int|
                                0 <= i < reg.actions@.len() && (#[trigger] reg.actions@[i])@ == a;
                            assert(reg.actions@[i].deep_view() =~= reg.actions@[i]@);
                            assert(reg@.actions[i] == a);
                        }
                        if reg@.actions.contains(a) {
                            let i = choose|i: int|
                                0 <= i < reg@.actions.len() && reg@.actions[i] == a;
                            assert(reg.actions@[i].deep_view() =~= reg.actions@[i]@);
                            assert((reg.actions@[i])@ == a);
                        }
                    }
                }
                FrameOutcome::Ignore
            },
            (PeerKind::Agent, MessageType::Invoke) => {
                let ib = match InvokeBody::decode(env.body.as_slice()) {
                    Ok(b) => b,
                    Err(_) => {
                        let msg = vec![98u8, 97u8, 100u8, 32u8, 114u8, 101u8, 113u8, 117u8, 101u8, 115u8, 116u8];
                        let empty_id: Vec<u8> = Vec::new();
                        proof {
                            assert(msg@ =~= spec_msg_bad_request());
                        }
                        match synth_error_frame(
                            now_ms,
                            empty_id.as_slice(),
                            ErrorCode::BadRequest,
                            msg.as_slice(),
                        ) {
                            Some(frame) => {
                                return FrameOutcome::Send { conn, frame };
                            },
                            None => {
                                return FrameOutcome::Close;
                            },
                        }
                    },
                };
                match route_invoke(
                    bunker,
                    &self.sessions,
                    env.principal.as_slice(),
                    ib.action.as_slice(),
                ) {
                    Ok(rep_conn) => {
                        let ghost pre_pending = self.pending@;
                        table_insert(
                            &mut self.pending,
                            vstd::slice::slice_to_vec(ib.request_id.as_slice()),
                            conn,
                        );
                        proof {
                            assert(self.pending@[0].0@ == ib.request_id@);
                            assert(self.pending@.drop_first() =~= spec_remove_key(
                                pre_pending,
                                ib.request_id@,
                            ));
                            assert forall|k: Seq<u8>| k != ib.request_id@ implies #[trigger]
                            spec_lookup(self.pending@, k) == spec_lookup(pre_pending, k) by {
                                crate::table::lemma_lookup_remove_key(
                                    pre_pending,
                                    ib.request_id@,
                                    k,
                                );
                            }
                        }
                        FrameOutcome::Send {
                            conn: rep_conn,
                            frame: vstd::slice::slice_to_vec(payload),
                        }
                    },
                    Err(refusal) => {
                        let msg = refusal_message(refusal);
                        let code = match refusal {
                            RouteRefusal::Denied => ErrorCode::Denied,
                            RouteRefusal::UnknownAction => ErrorCode::UnknownAction,
                            RouteRefusal::NoSession => ErrorCode::NoRepeater,
                            RouteRefusal::NotRegistered => ErrorCode::NoRepeater,
                        };
                        match synth_error_frame(
                            now_ms,
                            ib.request_id.as_slice(),
                            code,
                            msg.as_slice(),
                        ) {
                            Some(frame) => FrameOutcome::Send { conn, frame },
                            None => FrameOutcome::Close,
                        }
                    },
                }
            },
            (PeerKind::Repeater, MessageType::Result) => {
                let rb = match ResultBody::decode(env.body.as_slice()) {
                    Ok(b) => b,
                    Err(_) => {
                        return FrameOutcome::Close;
                    },
                };
                match table_take(&mut self.pending, rb.request_id.as_slice()) {
                    None => FrameOutcome::Ignore,
                    Some(agent_conn) => {
                        proof {
                            crate::table::lemma_lookup_remove_key(
                                old(self).pending@,
                                rb.request_id@,
                                rb.request_id@,
                            );
                        }
                        FrameOutcome::Send {
                            conn: agent_conn,
                            frame: vstd::slice::slice_to_vec(payload),
                        }
                    },
                }
            },
            (PeerKind::Repeater, MessageType::Error) => {
                let eb = match ErrorBody::decode(env.body.as_slice()) {
                    Ok(b) => b,
                    Err(_) => {
                        return FrameOutcome::Close;
                    },
                };
                match table_take(&mut self.pending, eb.request_id.as_slice()) {
                    None => FrameOutcome::Ignore,
                    Some(agent_conn) => {
                        proof {
                            crate::table::lemma_lookup_remove_key(
                                old(self).pending@,
                                eb.request_id@,
                                eb.request_id@,
                            );
                        }
                        FrameOutcome::Send {
                            conn: agent_conn,
                            frame: vstd::slice::slice_to_vec(payload),
                        }
                    },
                }
            },
            _ => FrameOutcome::Ignore,
        }
    }

    /// A connection closed: drop every session it owned. Pending requests
    /// routed to it stay; their replies will simply never come.
    pub fn on_disconnect(&mut self, conn: u64)
        ensures
            final(self).sessions@ == spec_drop_conn(old(self).sessions@, conn),
            final(self).pending@ == old(self).pending@,
            final(self).replay.records() == old(self).replay.records(),
            final(self).replay.window() == old(self).replay.window(),
    {
        let ghost orig: Seq<(Vec<u8>, Session)> = self.sessions@;
        let mut i: usize = self.sessions.len();
        while i > 0
            invariant
                i <= orig.len(),
                self.sessions@.len() >= i,
                self.sessions@.subrange(0, i as int) == orig.subrange(0, i as int),
                self.sessions@.skip(i as int) == spec_drop_conn(orig.skip(i as int), conn),
                self.pending@ == old(self).pending@,
                self.replay.records() == old(self).replay.records(),
                self.replay.window() == old(self).replay.window(),
            decreases i,
        {
            i = i - 1;
            proof {
                assert(self.sessions@.subrange(0, (i + 1) as int)[i as int]
                    == self.sessions@[i as int]);
                assert(orig.subrange(0, (i + 1) as int)[i as int] == orig[i as int]);
                assert(self.sessions@[i as int] == orig[i as int]);
                assert(orig.skip(i as int)[0] == orig[i as int]);
                assert(orig.skip(i as int).drop_first() =~= orig.skip(i + 1));
            }
            let ghost before: Seq<(Vec<u8>, Session)> = self.sessions@;
            if self.sessions[i].1.conn == conn {
                self.sessions.remove(i);
                proof {
                    assert(self.sessions@.subrange(0, i as int) =~= orig.subrange(0, i as int));
                    assert(self.sessions@.skip(i as int) =~= before.skip(i + 1));
                    assert(self.sessions@.skip(i as int) == spec_drop_conn(
                        orig.skip(i as int),
                        conn,
                    ));
                }
            } else {
                proof {
                    assert(self.sessions@.skip(i as int) =~= seq![orig[i as int]]
                        + self.sessions@.skip(i + 1));
                    assert(self.sessions@.skip(i as int) == spec_drop_conn(
                        orig.skip(i as int),
                        conn,
                    ));
                }
            }
        }
        proof {
            assert(self.sessions@.skip(0) =~= self.sessions@);
            assert(orig.skip(0) =~= orig);
        }
    }
}

} // verus!
