use pastebin::auth::JwtClaims;
use pastebin::codec;
use pastebin::controllers::{self, UpdatePayload, UserPayload};
use pastebin::guard::{Admin, User as UserCap, UserToken};
use pastebin::users::{RawUser, User, UserStore};
use pastebin::Error;

const SALT: &str = "testsalt";
const SECRET: &[u8] = b"test-jwt-secret";
const NOW: i64 = 1_700_000_000;

fn seeded() -> (UserStore, User, User, String, String, String) {
    let mut store = UserStore::new();
    let user = store
        .create_user(
            &RawUser {
                username: "test".to_string(),
                email: "test@example.com".to_string(),
                password: "password".to_string(),
            },
            SALT,
        )
        .unwrap();
    let user_alt = store
        .create_user(
            &RawUser {
                username: "test_alt".to_string(),
                email: "test_alt@example.com".to_string(),
                password: "password".to_string(),
            },
            SALT,
        )
        .unwrap();
    let normal_header = bearer(pastebin::auth::login(&user, SECRET, NOW).unwrap());
    let normal_header_alt = bearer(pastebin::auth::login(&user_alt, SECRET, NOW).unwrap());
    let admin_header = bearer(admin_token(1, "admin"));
    (store, user, user_alt, normal_header, normal_header_alt, admin_header)
}

fn bearer(token: String) -> String {
    format!("Bearer {}", token)
}

fn admin_token(user_id: i32, username: &str) -> String {
    let claims = JwtClaims {
        iat: NOW,
        exp: NOW + 7 * pastebin::auth::DAY,
        user_id,
        username: username.to_string(),
        roles: vec!["admin".to_string()],
    };
    codec::encode(&claims, SECRET).unwrap()
}

fn expired_token() -> String {
    let claims = JwtClaims {
        iat: NOW,
        exp: NOW - 1,
        user_id: 1,
        username: "test user".to_string(),
        roles: vec![],
    };
    codec::encode(&claims, SECRET).unwrap()
}

fn user_cap(header: Option<&str>) -> Result<UserToken<UserCap>, Error> {
    UserToken::<UserCap>::from_header(header, SECRET, NOW)
}

fn admin_cap(header: Option<&str>) -> Result<UserToken<Admin>, Error> {
    UserToken::<Admin>::from_header(header, SECRET, NOW)
}

fn assert_err(err: &Error, code: u16, msg: &str) {
    assert_eq!(err.code, code);
    assert_eq!(err.msg, msg);
}

#[test]
fn test_me() {
    let (store, test_user, _, normal_header, _, _) = seeded();

    let user = controllers::me(user_cap(Some(&normal_header)), &store).unwrap();
    assert_eq!(user.id, test_user.id);
    assert_eq!(user.username, test_user.username);
    assert_eq!(user.email, test_user.email);

    // no credential
    let err = controllers::me(user_cap(None), &store).unwrap_err();
    assert_err(&err, 401, "token not found");

    // invalid credential
    let err = controllers::me(user_cap(Some("Bearer wrongtoken")), &store).unwrap_err();
    assert_err(&err, 401, "invalid token");

    // expired credential
    let expired = bearer(expired_token());
    let err = controllers::me(user_cap(Some(&expired)), &store).unwrap_err();
    assert_err(&err, 401, "expired token");
}

#[test]
fn test_get_users() {
    let (store, test_user, _, normal_header, _, admin_header) = seeded();

    let users = controllers::get_users(admin_cap(Some(&admin_header)), &store).unwrap();
    assert_eq!(users.len(), 2);
    assert_eq!(users[0].id, test_user.id);
    assert_eq!(users[0].username, test_user.username);
    assert_eq!(users[0].email, test_user.email);

    let err = controllers::get_users(admin_cap(None), &store).unwrap_err();
    assert_err(&err, 401, "token not found");
    let err = controllers::get_users(admin_cap(Some("Bearer wrongtoken")), &store).unwrap_err();
    assert_err(&err, 401, "invalid token");
    let expired = bearer(expired_token());
    let err = controllers::get_users(admin_cap(Some(&expired)), &store).unwrap_err();
    assert_err(&err, 401, "expired token");

    // normal user token
    let err = controllers::get_users(admin_cap(Some(&normal_header)), &store).unwrap_err();
    assert_err(&err, 403, "permission denied");
}

fn payload(username: &str, email: &str, password: &str, confirm: &str) -> UserPayload {
    UserPayload {
        username: username.to_string(),
        email: email.to_string(),
        password: password.to_string(),
        confirm_password: confirm.to_string(),
    }
}

#[test]
fn test_create_user() {
    let (mut store, _, _, _, _, _) = seeded();

    let user = controllers::create_user(
        &mut store,
        &payload(
            "test_new_user",
            "test_new_user@example.com",
            "new_user_password",
            "new_user_password",
        ),
        SALT,
    )
    .unwrap();
    assert_eq!(user.username, "test_new_user");
    assert_eq!(user.email, "test_new_user@example.com");

    // mismatch password
    let err = controllers::create_user(
        &mut store,
        &payload(
            "test_new_user",
            "test_new_user@example.com",
            "new_user_password",
            "wrong password",
        ),
        SALT,
    )
    .unwrap_err();
    assert_err(&err, 400, "password mismatch");

    // duplicate username
    let err = controllers::create_user(
        &mut store,
        &payload("test", "fresh@example.com", "pw", "pw"),
        SALT,
    )
    .unwrap_err();
    assert_err(&err, 400, "duplicate username");

    // duplicate email
    let err = controllers::create_user(
        &mut store,
        &payload("justnewuser", "test@example.com", "pw", "pw"),
        SALT,
    )
    .unwrap_err();
    assert_err(&err, 400, "duplicate email");
}

#[test]
fn test_get_user_by_id() {
    let (store, test_user, _, normal_header, _, admin_header) = seeded();

    let user =
        controllers::get_user_by_id(test_user.id, user_cap(Some(&normal_header)), &store).unwrap();
    assert_eq!(user.id, test_user.id);
    assert_eq!(user.username, test_user.username);
    assert_eq!(user.email, test_user.email);

    let err = controllers::get_user_by_id(test_user.id, user_cap(None), &store).unwrap_err();
    assert_err(&err, 401, "token not found");
    let err = controllers::get_user_by_id(test_user.id, user_cap(Some("Bearer wrongtoken")), &store)
        .unwrap_err();
    assert_err(&err, 401, "invalid token");
    let expired = bearer(expired_token());
    let err =
        controllers::get_user_by_id(test_user.id, user_cap(Some(&expired)), &store).unwrap_err();
    assert_err(&err, 401, "expired token");

    // an absent id: denied for a non-owner, not found for an admin
    let err = controllers::get_user_by_id(-1, user_cap(Some(&normal_header)), &store).unwrap_err();
    assert_err(&err, 403, "permission denied");
    let err = controllers::get_user_by_id(-1, user_cap(Some(&admin_header)), &store).unwrap_err();
    assert_err(&err, 404, "data not found");
}

fn update_payload(username: &str, email: &str, password: &str, confirm: &str) -> UpdatePayload {
    UpdatePayload {
        username: Some(username.to_string()),
        email: Some(email.to_string()),
        password: Some(password.to_string()),
        confirm_password: Some(confirm.to_string()),
    }
}

#[test]
fn test_update_user_by_id() {
    let (mut store, test_user, _, normal_header, _, admin_header) = seeded();
    let updated = (
        "update_user",
        "update_user@exmaple.com",
        "updated_password",
        "updated_password",
    );

    let user = controllers::update_user_by_id(
        test_user.id,
        update_payload(updated.0, updated.1, updated.2, updated.3),
        user_cap(Some(&normal_header)),
        &mut store,
        SALT,
    )
    .unwrap();
    assert_eq!(user.username, updated.0);
    assert_eq!(user.email, updated.1);

    // a request without the credential header
    let err = controllers::update_user_by_id(
        test_user.id,
        update_payload(updated.0, updated.1, updated.2, updated.3),
        user_cap(None),
        &mut store,
        SALT,
    )
    .unwrap_err();
    assert_err(&err, 401, "token not found");

    // an absent id: denied for a non-owner, not found for an admin
    let err = controllers::update_user_by_id(
        -1,
        update_payload(updated.0, updated.1, updated.2, updated.3),
        user_cap(Some(&normal_header)),
        &mut store,
        SALT,
    )
    .unwrap_err();
    assert_err(&err, 403, "permission denied");
    let err = controllers::update_user_by_id(
        -1,
        update_payload(updated.0, updated.1, updated.2, updated.3),
        user_cap(Some(&admin_header)),
        &mut store,
        SALT,
    )
    .unwrap_err();
    assert_err(&err, 404, "data not found");
}

#[test]
fn test_delete_user_by_id() {
    let (mut store, _, test_user, _, normal_header, admin_header) = seeded();

    let n = controllers::delete_user_by_id(
        test_user.id,
        user_cap(Some(&normal_header)),
        &mut store,
    )
    .unwrap();
    assert_eq!(n, 1);

    let err =
        controllers::delete_user_by_id(test_user.id, user_cap(None), &mut store).unwrap_err();
    assert_err(&err, 401, "token not found");

    // an absent id: denied for a non-owner, a zero count for an admin
    let err = controllers::delete_user_by_id(-1, user_cap(Some(&normal_header)), &mut store)
        .unwrap_err();
    assert_err(&err, 403, "permission denied");
    let n =
        controllers::delete_user_by_id(-1, user_cap(Some(&admin_header)), &mut store).unwrap();
    assert_eq!(n, 0);
}
