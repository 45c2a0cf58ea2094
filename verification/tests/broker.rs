use rand::rngs::OsRng;
use turret::bunker::Bunker;
use turret::crypto::public_key_of;
use turret::protocol::{
    Envelope, ErrorBody, ErrorCode, InvokeBody, MessageType, RegisterBody, ResultBody,
};
use turret::server::{BrokerState, FrameOutcome, PeerKind};

const WINDOW_MS: u64 = 120_000;
const NOW: u64 = 1_700_000_000_000;
const AGENT_CONN: u64 = 1;
const REP_CONN: u64 = 2;

fn keypair() -> ([u8; 32], [u8; 32]) {
    let sk = ed25519_dalek::SigningKey::generate(&mut OsRng);
    let sk_bytes = sk.to_bytes();
    let vk = public_key_of(&sk_bytes);
    (sk_bytes, vk)
}

fn signed_frame(
    sk: &[u8; 32],
    msg_type: MessageType,
    principal: &[u8],
    ts_ms: u64,
    nonce: &[u8],
    body: Vec<u8>,
) -> Vec<u8> {
    let sig = turret::crypto::sign(sk, principal, ts_ms, nonce, &body);
    let env = Envelope {
        msg_type,
        principal: principal.to_vec(),
        ts_ms,
        nonce: nonce.to_vec(),
        body,
        sig,
    };
    env.encode().unwrap()
}

/// Catalog with agent `agent-1`, repeater `rep-1`, action `echo` owned by
/// `rep-1`, permission `agent-1` -> {echo}.
fn echo_bunker(agent_vk: [u8; 32], rep_vk: [u8; 32]) -> Bunker {
    let mut b = Bunker::new();
    b.add_operator(b"ssh-ed25519 AAAA");
    b.add_agent(b"agent-1".to_vec(), agent_vk);
    b.add_repeater(b"rep-1".to_vec(), rep_vk);
    b.register_action(b"echo".to_vec(), b"rep-1".to_vec());
    b.grant_permission(b"agent-1", b"echo");
    b.validate().unwrap();
    b
}

fn register_frame(rep_sk: &[u8; 32], nonce: &[u8]) -> Vec<u8> {
    let body = RegisterBody {
        repeater_id: b"rep-1".to_vec(),
        actions: vec![b"echo".to_vec()],
    }
    .encode()
    .unwrap();
    signed_frame(rep_sk, MessageType::Register, b"rep-1", NOW, nonce, body)
}

fn invoke_frame(agent_sk: &[u8; 32], ts_ms: u64, nonce: &[u8]) -> Vec<u8> {
    let body = InvokeBody {
        request_id: b"req-1".to_vec(),
        action: b"echo".to_vec(),
        params: b"payload".to_vec(),
    }
    .encode()
    .unwrap();
    signed_frame(agent_sk, MessageType::Invoke, b"agent-1", ts_ms, nonce, body)
}

fn expect_error(outcome: FrameOutcome, to_conn: u64) -> ErrorBody {
    match outcome {
        FrameOutcome::Send { conn, frame } => {
            assert_eq!(conn, to_conn);
            let env = Envelope::decode(&frame).unwrap();
            assert_eq!(env.msg_type, MessageType::Error);
            assert_eq!(env.principal, b"turret".to_vec());
            assert_eq!(env.sig, [0u8; 64]);
            assert_eq!(env.nonce, vec![0u8; 16]);
            ErrorBody::decode(&env.body).unwrap()
        }
        other => panic!("expected an error reply, got {other:?}"),
    }
}

#[test]
fn echo_round_trip() {
    let (agent_sk, agent_vk) = keypair();
    let (rep_sk, rep_vk) = keypair();
    let bunker = echo_bunker(agent_vk, rep_vk);
    let mut broker = BrokerState::new(WINDOW_MS);

    let reg = register_frame(&rep_sk, b"nonce-reg-1");
    let out = broker.handle_frame(&bunker, PeerKind::Repeater, REP_CONN, NOW, &reg);
    assert!(matches!(out, FrameOutcome::Ignore));

    let inv = invoke_frame(&agent_sk, NOW, b"nonce-inv-1");
    let out = broker.handle_frame(&bunker, PeerKind::Agent, AGENT_CONN, NOW, &inv);
    match out {
        FrameOutcome::Send { conn, frame } => {
            assert_eq!(conn, REP_CONN);
            // The repeater sees the agent's signed bytes verbatim.
            assert_eq!(frame, inv);
        }
        other => panic!("expected a forward, got {other:?}"),
    }

    // The repeater echoes the params back under the same request id.
    let reply_body = ResultBody {
        request_id: b"req-1".to_vec(),
        result: b"payload".to_vec(),
    }
    .encode()
    .unwrap();
    let reply = signed_frame(
        &rep_sk,
        MessageType::Result,
        b"rep-1",
        NOW + 5,
        b"nonce-res-1",
        reply_body,
    );
    let out = broker.handle_frame(&bunker, PeerKind::Repeater, REP_CONN, NOW + 5, &reply);
    match out {
        FrameOutcome::Send { conn, frame } => {
            assert_eq!(conn, AGENT_CONN);
            assert_eq!(frame, reply);
            let env = Envelope::decode(&frame).unwrap();
            let body = ResultBody::decode(&env.body).unwrap();
            assert_eq!(body.request_id, b"req-1".to_vec());
            assert_eq!(body.result, b"payload".to_vec());
        }
        other => panic!("expected a routed reply, got {other:?}"),
    }
}

#[test]
fn denied_without_permission() {
    let (agent_sk, agent_vk) = keypair();
    let (rep_sk, rep_vk) = keypair();
    let mut bunker = echo_bunker(agent_vk, rep_vk);
    bunker.revoke_permission(b"agent-1", b"echo");
    bunker.validate().unwrap();
    let mut broker = BrokerState::new(WINDOW_MS);

    let reg = register_frame(&rep_sk, b"nonce-reg-1");
    broker.handle_frame(&bunker, PeerKind::Repeater, REP_CONN, NOW, &reg);

    let inv = invoke_frame(&agent_sk, NOW, b"nonce-inv-1");
    let out = broker.handle_frame(&bunker, PeerKind::Agent, AGENT_CONN, NOW, &inv);
    let err = expect_error(out, AGENT_CONN);
    assert_eq!(err.code, ErrorCode::Denied);
    assert_eq!(err.request_id, b"req-1".to_vec());
}

#[test]
fn unknown_action_with_permission() {
    let (agent_sk, agent_vk) = keypair();
    let (rep_sk, rep_vk) = keypair();
    let mut bunker = echo_bunker(agent_vk, rep_vk);
    // Keep the permission but drop the action from the registry; the
    // permission now names a (locally-executed) target instead so the
    // catalog stays valid.
    bunker.unregister_action(b"echo");
    bunker.add_target(
        b"echo".to_vec(),
        turret::bunker::TargetDef {
            shape: turret::bunker::TargetShape {
                allow: Vec::new(),
                forbid: Vec::new(),
                require: Vec::new(),
                argv_placeholders: None,
            },
            transform: turret::bunker::TargetTransform {
                out_command: b"echo".to_vec(),
                out_argv_replace: Vec::new(),
                out_env: Vec::new(),
                out_stdin_replace: Vec::new(),
            },
        },
    );
    bunker.validate().unwrap();
    let mut broker = BrokerState::new(WINDOW_MS);

    let reg = register_frame(&rep_sk, b"nonce-reg-1");
    broker.handle_frame(&bunker, PeerKind::Repeater, REP_CONN, NOW, &reg);

    let inv = invoke_frame(&agent_sk, NOW, b"nonce-inv-1");
    let out = broker.handle_frame(&bunker, PeerKind::Agent, AGENT_CONN, NOW, &inv);
    let err = expect_error(out, AGENT_CONN);
    assert_eq!(err.code, ErrorCode::UnknownAction);
    assert_eq!(err.request_id, b"req-1".to_vec());
}

#[test]
fn no_repeater_connected() {
    let (agent_sk, agent_vk) = keypair();
    let (_rep_sk, rep_vk) = keypair();
    let bunker = echo_bunker(agent_vk, rep_vk);
    let mut broker = BrokerState::new(WINDOW_MS);

    let inv = invoke_frame(&agent_sk, NOW, b"nonce-inv-1");
    let out = broker.handle_frame(&bunker, PeerKind::Agent, AGENT_CONN, NOW, &inv);
    let err = expect_error(out, AGENT_CONN);
    assert_eq!(err.code, ErrorCode::NoRepeater);
    assert_eq!(err.request_id, b"req-1".to_vec());
}

#[test]
fn no_repeater_after_disconnect() {
    let (agent_sk, agent_vk) = keypair();
    let (rep_sk, rep_vk) = keypair();
    let bunker = echo_bunker(agent_vk, rep_vk);
    let mut broker = BrokerState::new(WINDOW_MS);

    let reg = register_frame(&rep_sk, b"nonce-reg-1");
    broker.handle_frame(&bunker, PeerKind::Repeater, REP_CONN, NOW, &reg);
    broker.on_disconnect(REP_CONN);

    let inv = invoke_frame(&agent_sk, NOW, b"nonce-inv-1");
    let out = broker.handle_frame(&bunker, PeerKind::Agent, AGENT_CONN, NOW, &inv);
    let err = expect_error(out, AGENT_CONN);
    assert_eq!(err.code, ErrorCode::NoRepeater);
}

#[test]
fn replayed_frame_gets_replay_error() {
    let (agent_sk, agent_vk) = keypair();
    let (rep_sk, rep_vk) = keypair();
    let bunker = echo_bunker(agent_vk, rep_vk);
    let mut broker = BrokerState::new(WINDOW_MS);

    let reg = register_frame(&rep_sk, b"nonce-reg-1");
    broker.handle_frame(&bunker, PeerKind::Repeater, REP_CONN, NOW, &reg);

    let inv = invoke_frame(&agent_sk, NOW, b"nonce-inv-1");
    let out = broker.handle_frame(&bunker, PeerKind::Agent, AGENT_CONN, NOW, &inv);
    assert!(matches!(out, FrameOutcome::Send { conn, .. } if conn == REP_CONN));

    // The exact same signed frame again, still inside the window.
    let out = broker.handle_frame(&bunker, PeerKind::Agent, AGENT_CONN, NOW + 10, &inv);
    let err = expect_error(out, AGENT_CONN);
    assert_eq!(err.code, ErrorCode::Replay);
    assert_eq!(err.request_id, b"req-1".to_vec());
}

#[test]
fn outside_window_gets_replay_error_and_no_forward() {
    let (agent_sk, agent_vk) = keypair();
    let (rep_sk, rep_vk) = keypair();
    let bunker = echo_bunker(agent_vk, rep_vk);
    let mut broker = BrokerState::new(WINDOW_MS);

    let reg = register_frame(&rep_sk, b"nonce-reg-1");
    broker.handle_frame(&bunker, PeerKind::Repeater, REP_CONN, NOW, &reg);

    let inv = invoke_frame(&agent_sk, NOW - 121_000, b"nonce-inv-1");
    let out = broker.handle_frame(&bunker, PeerKind::Agent, AGENT_CONN, NOW, &inv);
    let err = expect_error(out, AGENT_CONN);
    assert_eq!(err.code, ErrorCode::Replay);
    assert_eq!(err.request_id, b"req-1".to_vec());
}

#[test]
fn unknown_principal_closes_connection() {
    let (agent_sk, _) = keypair();
    let (_, agent_vk) = keypair();
    let (_, rep_vk) = keypair();
    // The catalog holds a different key for agent-1 than the sender's, but
    // the close here comes before signature checking: make the principal
    // itself unknown.
    let bunker = echo_bunker(agent_vk, rep_vk);
    let body = InvokeBody {
        request_id: b"req-1".to_vec(),
        action: b"echo".to_vec(),
        params: b"p".to_vec(),
    }
    .encode()
    .unwrap();
    let frame = signed_frame(&agent_sk, MessageType::Invoke, b"stranger", NOW, b"n1", body);
    let mut broker = BrokerState::new(WINDOW_MS);
    let out = broker.handle_frame(&bunker, PeerKind::Agent, AGENT_CONN, NOW, &frame);
    assert!(matches!(out, FrameOutcome::Close));
}

#[test]
fn bad_signature_closes_connection() {
    let (agent_sk, _) = keypair();
    let (_, wrong_vk) = keypair();
    let (_, rep_vk) = keypair();
    let bunker = echo_bunker(wrong_vk, rep_vk);
    let inv = invoke_frame(&agent_sk, NOW, b"nonce-inv-1");
    let mut broker = BrokerState::new(WINDOW_MS);
    let out = broker.handle_frame(&bunker, PeerKind::Agent, AGENT_CONN, NOW, &inv);
    assert!(matches!(out, FrameOutcome::Close));
}

#[test]
fn reply_without_pending_entry_is_dropped() {
    let (_agent_sk, agent_vk) = keypair();
    let (rep_sk, rep_vk) = keypair();
    let bunker = echo_bunker(agent_vk, rep_vk);
    let mut broker = BrokerState::new(WINDOW_MS);

    let reply_body = ResultBody {
        request_id: b"req-ghost".to_vec(),
        result: b"x".to_vec(),
    }
    .encode()
    .unwrap();
    let reply = signed_frame(&rep_sk, MessageType::Result, b"rep-1", NOW, b"n-r", reply_body);
    let out = broker.handle_frame(&bunker, PeerKind::Repeater, REP_CONN, NOW, &reply);
    assert!(matches!(out, FrameOutcome::Ignore));
}

#[test]
fn reply_is_delivered_once() {
    let (agent_sk, agent_vk) = keypair();
    let (rep_sk, rep_vk) = keypair();
    let bunker = echo_bunker(agent_vk, rep_vk);
    let mut broker = BrokerState::new(WINDOW_MS);

    broker.handle_frame(
        &bunker,
        PeerKind::Repeater,
        REP_CONN,
        NOW,
        &register_frame(&rep_sk, b"nonce-reg-1"),
    );
    let inv = invoke_frame(&agent_sk, NOW, b"nonce-inv-1");
    broker.handle_frame(&bunker, PeerKind::Agent, AGENT_CONN, NOW, &inv);

    let reply_body = ResultBody {
        request_id: b"req-1".to_vec(),
        result: b"payload".to_vec(),
    }
    .encode()
    .unwrap();
    let r1 = signed_frame(&rep_sk, MessageType::Result, b"rep-1", NOW + 1, b"n-r1", reply_body.clone());
    let out = broker.handle_frame(&bunker, PeerKind::Repeater, REP_CONN, NOW + 1, &r1);
    assert!(matches!(out, FrameOutcome::Send { conn, .. } if conn == AGENT_CONN));

    // The pending entry is gone: a second reply for the same id is dropped.
    let r2 = signed_frame(&rep_sk, MessageType::Result, b"rep-1", NOW + 2, b"n-r2", reply_body);
    let out = broker.handle_frame(&bunker, PeerKind::Repeater, REP_CONN, NOW + 2, &r2);
    assert!(matches!(out, FrameOutcome::Ignore));
}

#[test]
fn register_requires_matching_principal() {
    let (agent_sk, agent_vk) = keypair();
    let (rep_sk, rep_vk) = keypair();
    let bunker = echo_bunker(agent_vk, rep_vk);
    let mut broker = BrokerState::new(WINDOW_MS);

    // A register body claiming someone else's identity is ignored.
    let body = RegisterBody {
        repeater_id: b"rep-2".to_vec(),
        actions: vec![b"echo".to_vec()],
    }
    .encode()
    .unwrap();
    let frame = signed_frame(&rep_sk, MessageType::Register, b"rep-1", NOW, b"n1", body);
    let out = broker.handle_frame(&bunker, PeerKind::Repeater, REP_CONN, NOW, &frame);
    assert!(matches!(out, FrameOutcome::Ignore));

    // No session was created, so the agent still finds no repeater.
    let inv = invoke_frame(&agent_sk, NOW, b"nonce-inv-1");
    let out = broker.handle_frame(&bunker, PeerKind::Agent, AGENT_CONN, NOW, &inv);
    let err = expect_error(out, AGENT_CONN);
    assert_eq!(err.code, ErrorCode::NoRepeater);
}

#[test]
fn register_keeps_only_owned_actions() {
    let (agent_sk, agent_vk) = keypair();
    let (rep_sk, rep_vk) = keypair();
    let bunker = echo_bunker(agent_vk, rep_vk);
    let mut broker = BrokerState::new(WINDOW_MS);

    // The repeater advertises an action the catalog does not give it; the
    // session keeps only `echo`, and an invoke for it still routes.
    let body = RegisterBody {
        repeater_id: b"rep-1".to_vec(),
        actions: vec![b"echo".to_vec(), b"shutdown".to_vec()],
    }
    .encode()
    .unwrap();
    let frame = signed_frame(&rep_sk, MessageType::Register, b"rep-1", NOW, b"n1", body);
    broker.handle_frame(&bunker, PeerKind::Repeater, REP_CONN, NOW, &frame);

    let inv = invoke_frame(&agent_sk, NOW, b"nonce-inv-1");
    let out = broker.handle_frame(&bunker, PeerKind::Agent, AGENT_CONN, NOW, &inv);
    assert!(matches!(out, FrameOutcome::Send { conn, .. } if conn == REP_CONN));
}

#[test]
fn malformed_invoke_body_gets_bad_request() {
    let (agent_sk, agent_vk) = keypair();
    let (_, rep_vk) = keypair();
    let bunker = echo_bunker(agent_vk, rep_vk);
    let mut broker = BrokerState::new(WINDOW_MS);

    // A correctly signed envelope whose body is not an invoke body.
    let frame = signed_frame(
        &agent_sk,
        MessageType::Invoke,
        b"agent-1",
        NOW,
        b"n1",
        b"garbage".to_vec(),
    );
    let out = broker.handle_frame(&bunker, PeerKind::Agent, AGENT_CONN, NOW, &frame);
    let err = expect_error(out, AGENT_CONN);
    assert_eq!(err.code, ErrorCode::BadRequest);
    assert_eq!(err.request_id, Vec::<u8>::new());
}

#[test]
fn agent_port_ignores_register() {
    let (agent_sk, agent_vk) = keypair();
    let (_, rep_vk) = keypair();
    let bunker = echo_bunker(agent_vk, rep_vk);
    let mut broker = BrokerState::new(WINDOW_MS);

    let body = RegisterBody {
        repeater_id: b"agent-1".to_vec(),
        actions: vec![b"echo".to_vec()],
    }
    .encode()
    .unwrap();
    let frame = signed_frame(&agent_sk, MessageType::Register, b"agent-1", NOW, b"n1", body);
    let out = broker.handle_frame(&bunker, PeerKind::Agent, AGENT_CONN, NOW, &frame);
    assert!(matches!(out, FrameOutcome::Ignore));
}

#[test]
fn server_config_default_values() {
    let cfg = turret::server::ServerConfig::default();
    assert_eq!(cfg.replay_window_ms, 120_000);
    assert_eq!(cfg.agent_sock, "turret-agent.sock");
    assert_eq!(cfg.repeater_sock, "turret-repeater.sock");
}
