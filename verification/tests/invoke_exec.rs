use turret::bunker::{Bunker, TargetDef, TargetShape, TargetTransform};
use turret::invoke::{count_placeholders, execute_invoke, replace_all, InvokeError, InvokePayload};

fn catalog() -> Bunker {
    let mut b = Bunker::new();
    b.add_operator(b"ssh-ed25519 AAAA");
    let mut key = [0u8; 32];
    key[0] = 7;
    b.add_agent(b"worker".to_vec(), key);
    b.add_target(
        b"greet".to_vec(),
        TargetDef {
            shape: TargetShape {
                allow: vec![b"argv".to_vec(), b"stdin".to_vec()],
                forbid: vec![b"env".to_vec()],
                require: vec![b"argv".to_vec()],
                argv_placeholders: None,
            },
            transform: TargetTransform {
                out_command: b"echo {prefix}".to_vec(),
                out_argv_replace: vec![(b"WHO".to_vec(), b"{name}".to_vec())],
                out_env: vec![(b"GREETING".to_vec(), b"hello {name}".to_vec())],
                out_stdin_replace: vec![(b"X".to_vec(), b"Y".to_vec())],
            },
        },
    );
    b.add_secret(b"prefix".to_vec(), b"-n".to_vec());
    b.add_secret(b"name".to_vec(), b"world".to_vec());
    b.grant_permission(b"worker", b"greet");
    b.validate().unwrap();
    b
}

fn payload() -> InvokePayload {
    let mut key = [0u8; 32];
    key[0] = 7;
    InvokePayload {
        agent_id: b"worker".to_vec(),
        agent_secret: key.to_vec(),
        target: b"greet".to_vec(),
        command: None,
        argv: Some(vec![b"hi WHO".to_vec()]),
        env: None,
        stdin: Some(b"aXb".to_vec()),
    }
}

#[test]
fn invoke_succeeds_and_transforms() {
    let b = catalog();
    let pc = execute_invoke(&b, payload()).unwrap();
    assert_eq!(pc.command, b"echo -n".to_vec());
    assert_eq!(pc.argv, vec![b"hi world".to_vec()]);
    assert_eq!(pc.stdin, b"aYb".to_vec());
    // The rendered out_env pair sits in front of the request's entries.
    assert_eq!(pc.env[0].0, b"GREETING".to_vec());
    assert_eq!(pc.env[0].1, b"hello world".to_vec());
}

#[test]
fn invoke_rejects_unknown_agent() {
    let b = catalog();
    let mut p = payload();
    p.agent_id = b"nobody".to_vec();
    assert_eq!(execute_invoke(&b, p).unwrap_err(), InvokeError::Unauthenticated);
}

#[test]
fn invoke_rejects_wrong_credential() {
    let b = catalog();
    let mut p = payload();
    p.agent_secret = vec![9u8; 32];
    assert_eq!(execute_invoke(&b, p).unwrap_err(), InvokeError::Unauthenticated);
}

#[test]
fn invoke_rejects_unpermitted_target() {
    let mut b = catalog();
    b.revoke_permission(b"worker", b"greet");
    assert_eq!(execute_invoke(&b, payload()).unwrap_err(), InvokeError::Denied);
}

#[test]
fn invoke_rejects_unknown_target() {
    let mut b = catalog();
    // Permission first: the daemon judges permission before target lookup.
    b.grant_permission(b"worker", b"other");
    let mut p = payload();
    p.target = b"other".to_vec();
    assert_eq!(execute_invoke(&b, p).unwrap_err(), InvokeError::UnknownTarget);
}

#[test]
fn invoke_rejects_forbidden_field() {
    let mut b = catalog();
    // A field that is allowed yet forbidden trips the forbid check; one
    // that is merely absent from `allow` trips the allow check first.
    let mut def = match b.targets.iter().find(|(k, _)| k == b"greet") {
        Some((_, d)) => d.clone(),
        None => panic!("target missing"),
    };
    def.shape.allow.push(b"env".to_vec());
    b.add_target(b"greet".to_vec(), def);
    b.validate().unwrap();
    let mut p = payload();
    p.env = Some(vec![(b"A".to_vec(), b"B".to_vec())]);
    match execute_invoke(&b, p).unwrap_err() {
        InvokeError::BadRequest(m) => {
            assert_eq!(m, b"non-conforming payload: field 'env' is forbidden".to_vec());
        }
        other => panic!("unexpected: {other:?}"),
    }

    let mut p2 = payload();
    p2.command = Some(b"rm".to_vec());
    match execute_invoke(&b, p2).unwrap_err() {
        InvokeError::BadRequest(m) => {
            assert_eq!(m, b"non-conforming payload: field 'command' is not allowed".to_vec());
        }
        other => panic!("unexpected: {other:?}"),
    }
}

#[test]
fn invoke_rejects_missing_required_field() {
    let b = catalog();
    let mut p = payload();
    p.argv = None;
    match execute_invoke(&b, p).unwrap_err() {
        InvokeError::BadRequest(m) => {
            assert_eq!(m, b"non-conforming payload: field 'argv' is required".to_vec());
        }
        other => panic!("unexpected: {other:?}"),
    }
}

#[test]
fn invoke_rejects_disallowed_field() {
    let b = catalog();
    let mut p = payload();
    p.command = Some(b"rm".to_vec());
    match execute_invoke(&b, p).unwrap_err() {
        InvokeError::BadRequest(m) => {
            assert_eq!(m, b"non-conforming payload: field 'command' is not allowed".to_vec());
        }
        other => panic!("unexpected: {other:?}"),
    }
}

#[test]
fn invoke_checks_placeholder_count() {
    let mut b = catalog();
    // Same target but demanding exactly two placeholders in the argv.
    let mut def = match b.targets.iter().find(|(k, _)| k == b"greet") {
        Some((_, d)) => d.clone(),
        None => panic!("target missing"),
    };
    def.shape.argv_placeholders = Some(2);
    b.add_target(b"greet".to_vec(), def);
    b.validate().unwrap();

    let mut p = payload();
    p.argv = Some(vec![b"{a}".to_vec(), b"x".to_vec()]);
    match execute_invoke(&b, p).unwrap_err() {
        InvokeError::BadRequest(m) => {
            assert_eq!(
                m,
                b"non-conforming payload: argv placeholder count is 1, expected 2".to_vec()
            );
        }
        other => panic!("unexpected: {other:?}"),
    }

    let mut p2 = payload();
    p2.argv = Some(vec![b"{a}".to_vec(), b"{b}c".to_vec()]);
    execute_invoke(&b, p2).unwrap();
}

#[test]
fn invoke_reports_unknown_secret() {
    let mut b = catalog();
    b.remove_secret(b"name");
    // The catalog no longer validates, but execution judges the request on
    // the tables as they stand, as the daemon would with a stale snapshot.
    let mut p = payload();
    p.argv = Some(vec![b"WHO".to_vec()]);
    match execute_invoke(&b, p).unwrap_err() {
        InvokeError::BadRequest(m) => {
            assert_eq!(m, b"non-conforming payload: unknown secret 'name'".to_vec());
        }
        other => panic!("unexpected: {other:?}"),
    }
}

#[test]
fn count_placeholders_counts_nonempty_tokens() {
    assert_eq!(count_placeholders(b"a {x} b {} {y}"), 2);
    assert_eq!(count_placeholders(b"no tokens"), 0);
    assert_eq!(count_placeholders(b"{unclosed"), 0);
}

#[test]
fn replace_all_replaces_left_to_right() {
    assert_eq!(replace_all(b"aXbXc", b"X", b"YY"), b"aYYbYYc".to_vec());
    assert_eq!(replace_all(b"aaa", b"aa", b"b"), b"ba".to_vec());
    assert_eq!(replace_all(b"abc", b"", b"z"), b"abc".to_vec());
    assert_eq!(replace_all(b"abc", b"q", b"z"), b"abc".to_vec());
}
