use turret::rage::looks_like_age_file;

#[test]
fn age_magic_is_recognised() {
    assert!(looks_like_age_file(b"age-encryption.org/v1\n..."));
    assert!(!looks_like_age_file(b"not an age file"));
    assert!(!looks_like_age_file(b"age-encr"));
    assert!(!looks_like_age_file(b""));
}
