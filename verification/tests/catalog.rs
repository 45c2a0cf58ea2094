use turret::bunker::{Bunker, TargetDef, TargetShape, TargetTransform};

fn base_bunker() -> Bunker {
    let mut b = Bunker::new();
    b.add_operator(b"ssh-ed25519 AAAA");
    b
}

fn shape() -> TargetShape {
    TargetShape {
        allow: vec![b"argv".to_vec(), b"stdin".to_vec()],
        forbid: Vec::new(),
        require: Vec::new(),
        argv_placeholders: None,
    }
}

fn transform(cmd: &[u8]) -> TargetTransform {
    TargetTransform {
        out_command: cmd.to_vec(),
        out_argv_replace: Vec::new(),
        out_env: Vec::new(),
        out_stdin_replace: Vec::new(),
    }
}

#[test]
fn empty_operators_fails_validation() {
    let b = Bunker::new();
    assert!(b.validate().is_err());
}

#[test]
fn minimal_catalog_validates() {
    let b = base_bunker();
    b.validate().unwrap();
}

#[test]
fn permission_must_reference_known_action_or_target() {
    let mut b = base_bunker();
    b.add_agent(b"a".to_vec(), [0u8; 32]);
    b.grant_permission(b"a", b"x");
    assert!(b.validate().is_err());

    // Registering `x` as an action owned by a known repeater mends it.
    b.add_repeater(b"r".to_vec(), [1u8; 32]);
    b.register_action(b"x".to_vec(), b"r".to_vec());
    b.validate().unwrap();
}

#[test]
fn permission_must_reference_known_agent() {
    let mut b = base_bunker();
    b.add_repeater(b"r".to_vec(), [1u8; 32]);
    b.register_action(b"x".to_vec(), b"r".to_vec());
    b.grant_permission(b"ghost", b"x");
    assert!(b.validate().is_err());
}

#[test]
fn action_must_reference_known_repeater() {
    let mut b = base_bunker();
    b.register_action(b"x".to_vec(), b"nobody".to_vec());
    assert!(b.validate().is_err());
}

#[test]
fn removing_sole_operator_is_refused() {
    let mut b = base_bunker();
    assert!(b.remove_operator(b"ssh-ed25519 AAAA").is_err());
    assert_eq!(b.operators.len(), 1);

    b.add_operator(b"age1xyz");
    b.remove_operator(b"ssh-ed25519 AAAA").unwrap();
    assert_eq!(b.operators.len(), 1);
    b.validate().unwrap();
}

#[test]
fn removing_absent_operator_is_refused() {
    let mut b = base_bunker();
    assert!(b.remove_operator(b"who").is_err());
}

#[test]
fn adding_operator_twice_changes_nothing() {
    let mut b = base_bunker();
    b.add_operator(b"ssh-ed25519 AAAA");
    assert_eq!(b.operators.len(), 1);
}

#[test]
fn target_with_blank_command_fails() {
    let mut b = base_bunker();
    b.add_target(
        b"t".to_vec(),
        TargetDef { shape: shape(), transform: transform(b"  \t\n") },
    );
    assert!(b.validate().is_err());
}

#[test]
fn target_with_unknown_shape_field_fails() {
    let mut b = base_bunker();
    let mut s = shape();
    s.allow.push(b"sudo".to_vec());
    b.add_target(b"t".to_vec(), TargetDef { shape: s, transform: transform(b"echo") });
    assert!(b.validate().is_err());
}

#[test]
fn target_requiring_forbidden_field_fails() {
    let mut b = base_bunker();
    let mut s = shape();
    s.forbid.push(b"stdin".to_vec());
    s.require.push(b"stdin".to_vec());
    b.add_target(b"t".to_vec(), TargetDef { shape: s, transform: transform(b"echo") });
    assert!(b.validate().is_err());
}

#[test]
fn target_with_unknown_secret_reference_fails() {
    let mut b = base_bunker();
    b.add_target(
        b"t".to_vec(),
        TargetDef { shape: shape(), transform: transform(b"curl -H {api_key}") },
    );
    assert!(b.validate().is_err());

    b.add_secret(b"api_key".to_vec(), b"SECRET-REDACTED".to_vec());
    b.validate().unwrap();
}

#[test]
fn removing_target_scrubs_permissions() {
    let mut b = base_bunker();
    b.add_agent(b"a".to_vec(), [0u8; 32]);
    b.add_target(b"t".to_vec(), TargetDef { shape: shape(), transform: transform(b"echo") });
    b.grant_permission(b"a", b"t");
    b.validate().unwrap();

    b.remove_target(b"t");
    b.validate().unwrap();
}

#[test]
fn removing_agent_drops_its_permissions() {
    let mut b = base_bunker();
    b.add_agent(b"a".to_vec(), [0u8; 32]);
    b.add_repeater(b"r".to_vec(), [1u8; 32]);
    b.register_action(b"x".to_vec(), b"r".to_vec());
    b.grant_permission(b"a", b"x");
    b.validate().unwrap();

    b.remove_agent(b"a");
    b.validate().unwrap();
    assert!(b.permissions.is_empty());
}

#[test]
fn revoke_permission_removes_only_that_grant() {
    let mut b = base_bunker();
    b.add_agent(b"a".to_vec(), [0u8; 32]);
    b.add_repeater(b"r".to_vec(), [1u8; 32]);
    b.register_action(b"x".to_vec(), b"r".to_vec());
    b.register_action(b"y".to_vec(), b"r".to_vec());
    b.grant_permission(b"a", b"x");
    b.grant_permission(b"a", b"y");
    b.revoke_permission(b"a", b"x");
    b.validate().unwrap();
    let allowed = &b.permissions[0].1;
    assert_eq!(allowed.len(), 1);
    assert_eq!(allowed[0], b"y".to_vec());
}
