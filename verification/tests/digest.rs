use pastebin::digest::{digest_password, verify_password};

#[test]
fn password() {
    const SALT: &str = "testsalt";
    const USERNAME: &str = "test";
    const PASSWORD: &str = "testpassword";
    const WRONG_PASSWORD: &str = "wrongpassword";

    let credential = digest_password(SALT, USERNAME, PASSWORD);
    assert_eq!(credential.len(), 32);
    assert_eq!(verify_password(SALT, USERNAME, &credential, PASSWORD), true);
    assert_eq!(
        verify_password(SALT, USERNAME, &credential, WRONG_PASSWORD),
        false
    );
}

#[test]
fn digest_depends_on_username_salt() {
    let a = digest_password("salt", "alice", "pw");
    let b = digest_password("salt", "bob", "pw");
    let c = digest_password("other", "alice", "pw");
    assert_ne!(a, b);
    assert_ne!(a, c);
}
