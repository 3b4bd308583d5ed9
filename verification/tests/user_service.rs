use pastebin::digest::digest_password;
use pastebin::users::{RawUpdatedUser, RawUser, UserStore};

const SALT: &str = "testsalt";

fn raw(username: &str, email: &str, password: &str) -> RawUser {
    RawUser {
        username: username.to_string(),
        email: email.to_string(),
        password: password.to_string(),
    }
}

#[test]
fn user_test_create_user() {
    let mut store = UserStore::new();
    let mut new_user = raw("test", "TEST@example.com", "password");

    let user = store.create_user(&new_user, SALT).unwrap();

    assert_eq!(user.username, new_user.username);
    assert_eq!(user.email, new_user.email.to_lowercase());
    // admin flag should be false by default
    assert_eq!(user.admin, false);
    assert_eq!(user.verify_password(SALT, "password"), true);

    // duplicate email
    new_user.username = "test1".to_string();
    assert_eq!(store.create_user(&new_user, SALT).is_err(), true);

    // duplicate username
    new_user.username = "test".to_string();
    new_user.email = "test1@example.com".to_string();
    assert_eq!(store.create_user(&new_user, SALT).is_err(), true);
}

#[test]
fn user_test_update_user() {
    let mut store = UserStore::new();
    let user_id = store
        .create_user(&raw("test", "test@example.com", "password"), SALT)
        .unwrap()
        .id;
    let mut updated_user = RawUpdatedUser {
        username: Some("test22".to_string()),
        email: Some("TEST22@example.com".to_string()),
        password: Some("password22".to_string()),
    };
    let duplicate_user = raw("test222", "test222@example.com", "password222");

    // username, case-sensitive email and password update
    let user = store.update_user(user_id, &updated_user, SALT).unwrap();
    assert_eq!(user.username, "test22");
    assert_eq!(user.email, "test22@example.com");
    assert_eq!(user.verify_password(SALT, "password22"), true);

    // create user for duplicate username and email test
    assert_eq!(store.create_user(&duplicate_user, SALT).is_ok(), true);

    // duplicate username update
    updated_user.username = Some("test222".to_string());
    assert_eq!(store.update_user(user_id, &updated_user, SALT).is_err(), true);

    // duplicate email update
    updated_user.username = Some("NotDuplicateName".to_string());
    updated_user.email = Some("test222@example.com".to_string());
    assert_eq!(store.update_user(user_id, &updated_user, SALT).is_err(), true);
}

#[test]
fn user_test_get_user_by_id() {
    let mut store = UserStore::new();
    let user = store
        .create_user(&raw("test", "test@example.com", "password"), SALT)
        .unwrap();

    let fetched_user = store.get_user_by_id(user.id).unwrap();
    assert_eq!(fetched_user.username, user.username);
    assert_eq!(fetched_user.email, user.email);
    assert_eq!(fetched_user.verify_password(SALT, "password"), true);
}

#[test]
fn test_get_user_by_name() {
    let mut store = UserStore::new();
    let user = store
        .create_user(&raw("test", "test@example.com", "password"), SALT)
        .unwrap();

    let fetched_user = store.get_user_by_name(&user.username).unwrap();
    assert_eq!(fetched_user.id, user.id);
    assert_eq!(fetched_user.email, user.email);
    assert_eq!(fetched_user.verify_password(SALT, "password"), true);
}

#[test]
fn user_test_delete_user() {
    let mut store = UserStore::new();
    let new_user = raw("test2", "TEST2@example.com", "password2");

    let user_id = store.create_user(&new_user, SALT).unwrap().id;
    assert_eq!(store.delete_user(user_id), 1);
    assert_eq!(store.delete_user(user_id), 0);
}

#[test]
fn users_test_create_user() {
    let mut store = UserStore::new();
    let mut new_user = raw("test", "TEST@example.com", "password");

    let user = store.create_user(&new_user, SALT).unwrap();

    assert_eq!(user.username, new_user.username);
    assert_eq!(user.email, new_user.email.to_lowercase());
    // admin flag should be false by default
    assert_eq!(user.admin, false);
    assert_eq!(user.password_digest, digest_password(SALT, "test", "password"));

    // duplicate email
    new_user.username = "test1".to_string();
    assert_eq!(store.create_user(&new_user, SALT).is_err(), true);

    // duplicate username
    new_user.username = "test".to_string();
    new_user.email = "test1@example.com".to_string();
    assert_eq!(store.create_user(&new_user, SALT).is_err(), true);
}

#[test]
fn users_test_update_user() {
    let mut store = UserStore::new();
    let user_id = store
        .create_user(&raw("test", "test@example.com", "password"), SALT)
        .unwrap()
        .id;
    let mut updated_user = RawUpdatedUser {
        username: Some("test22".to_string()),
        email: Some("TEST22@example.com".to_string()),
        password: Some("password22".to_string()),
    };
    let duplicate_user = raw("test222", "test222@example.com", "password222");

    let user = store.update_user(user_id, &updated_user, SALT).unwrap();
    assert_eq!(user.username, "test22");
    assert_eq!(user.email, "test22@example.com");
    assert_eq!(
        user.password_digest,
        digest_password(SALT, "test22", "password22")
    );

    assert_eq!(store.create_user(&duplicate_user, SALT).is_ok(), true);

    // duplicate username update
    updated_user.username = Some("test222".to_string());
    assert_eq!(store.update_user(user_id, &updated_user, SALT).is_err(), true);

    // duplicate email update
    updated_user.username = Some("NotDuplicateName".to_string());
    updated_user.email = Some("test222@example.com".to_string());
    assert_eq!(store.update_user(user_id, &updated_user, SALT).is_err(), true);
}

#[test]
fn users_test_get_user_by_id() {
    let mut store = UserStore::new();
    let user = store
        .create_user(&raw("test", "test@example.com", "password"), SALT)
        .unwrap();

    let fetched_user = store.get_user_by_id(user.id).unwrap();
    assert_eq!(fetched_user.username, user.username);
    assert_eq!(fetched_user.email, user.email);
    assert_eq!(fetched_user.password_digest, user.password_digest);
}

#[test]
fn users_test_delete_user() {
    let mut store = UserStore::new();
    let new_user = raw("test2", "TEST2@example.com", "password2");

    let user_id = store.create_user(&new_user, SALT).unwrap().id;
    assert_eq!(store.delete_user(user_id), 1);
}
