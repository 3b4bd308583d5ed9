use pastebin::auth::JwtClaims;
use pastebin::codec;
use pastebin::controllers;
use pastebin::guard::{Admin, User as UserCap, UserToken};
use pastebin::pastes::{NewPaste, Paste, PasteStore};
use pastebin::users::{RawUser, User, UserStore};
use pastebin::Error;

const SALT: &str = "testsalt";
const SECRET: &[u8] = b"test-jwt-secret";
const NOW: i64 = 1_700_000_000;

fn seeded() -> (PasteStore, User, Paste, String, String) {
    let mut users = UserStore::new();
    let user = users
        .create_user(
            &RawUser {
                username: "test".to_string(),
                email: "test@example.com".to_string(),
                password: "password".to_string(),
            },
            SALT,
        )
        .unwrap();
    let mut store = PasteStore::new();
    let paste = store
        .create_paste(&NewPaste {
            user_id: user.id,
            data: "test paste data".to_string(),
        })
        .unwrap();
    let normal_header = format!("Bearer {}", pastebin::auth::login(&user, SECRET, NOW).unwrap());
    let admin_claims = JwtClaims {
        iat: NOW,
        exp: NOW + 7 * pastebin::auth::DAY,
        user_id: 1000,
        username: "admin".to_string(),
        roles: vec!["admin".to_string()],
    };
    let admin_header = format!("Bearer {}", codec::encode(&admin_claims, SECRET).unwrap());
    (store, user, paste, normal_header, admin_header)
}

fn user_cap(header: Option<&str>) -> Result<UserToken<UserCap>, Error> {
    UserToken::<UserCap>::from_header(header, SECRET, NOW)
}

fn admin_cap(header: Option<&str>) -> Result<UserToken<Admin>, Error> {
    UserToken::<Admin>::from_header(header, SECRET, NOW)
}

fn assert_err(err: &Error, code: u16, msg: &str) {
    assert_eq!(err.code, code);
    assert_eq!(err.msg, msg);
}

#[test]
fn test_get_pastes() {
    let (store, _, test_paste, normal_header, admin_header) = seeded();

    let pastes = controllers::get_pastes(admin_cap(Some(&admin_header)), &store).unwrap();
    assert_eq!(pastes.len(), 1);
    assert_eq!(pastes[0].id, test_paste.id);
    assert_eq!(pastes[0].user_id, test_paste.user_id);
    assert_eq!(pastes[0].data, test_paste.data);

    // normal user token
    let err = controllers::get_pastes(admin_cap(Some(&normal_header)), &store).unwrap_err();
    assert_err(&err, 403, "permission denied");

    // without token
    let err = controllers::get_pastes(admin_cap(None), &store).unwrap_err();
    assert_err(&err, 401, "token not found");

    // invalid token
    let err = controllers::get_pastes(admin_cap(Some("Bearer wrongtoken")), &store).unwrap_err();
    assert_err(&err, 401, "invalid token");
}

#[test]
fn paste_test_create_paste() {
    let (mut store, user, _, normal_header, _) = seeded();

    let paste = controllers::create_paste(
        &NewPaste {
            user_id: user.id,
            data: "test new paste".to_string(),
        },
        user_cap(Some(&normal_header)),
        &mut store,
    )
    .unwrap();
    assert_eq!(paste.user_id, user.id);
    assert_eq!(paste.data, "test new paste");

    // user_id doesn't match with token
    let err = controllers::create_paste(
        &NewPaste {
            user_id: -1,
            data: "test new paste".to_string(),
        },
        user_cap(Some(&normal_header)),
        &mut store,
    )
    .unwrap_err();
    assert_err(&err, 400, "user_id doesn't match jwt token");
}

#[test]
fn paste_test_get_paste_by_id() {
    let (store, _, test_paste, _, _) = seeded();

    let paste = controllers::get_paste_by_id(test_paste.id, &store).unwrap();
    assert_eq!(paste.id, test_paste.id);
    assert_eq!(paste.user_id, test_paste.user_id);
    assert_eq!(paste.data, test_paste.data);

    // invalid paste id
    let err = controllers::get_paste_by_id(-1, &store).unwrap_err();
    assert_err(&err, 404, "data not found");
}

#[test]
fn test_update_paste_by_id() {
    let (mut store, _, test_paste, normal_header, admin_header) = seeded();
    let mut updated_paste = Paste {
        id: test_paste.id,
        user_id: test_paste.user_id,
        data: "test updated paste".to_string(),
    };

    let paste = controllers::update_paste_by_id(
        test_paste.id,
        test_paste.user_id,
        updated_paste.duplicate(),
        user_cap(Some(&normal_header)),
        &mut store,
    )
    .unwrap();
    assert_eq!(paste.id, updated_paste.id);
    assert_eq!(paste.user_id, updated_paste.user_id);
    assert_eq!(paste.data, updated_paste.data);

    // update using admin permission
    updated_paste.data = "update paste by admin".to_string();
    let paste = controllers::update_paste_by_id(
        test_paste.id,
        test_paste.user_id,
        updated_paste.duplicate(),
        user_cap(Some(&admin_header)),
        &mut store,
    )
    .unwrap();
    assert_eq!(paste.data, updated_paste.data);

    // user_id doesn't match
    updated_paste.user_id = -1;
    let err = controllers::update_paste_by_id(
        test_paste.id,
        test_paste.user_id,
        updated_paste.duplicate(),
        user_cap(Some(&admin_header)),
        &mut store,
    )
    .unwrap_err();
    assert_err(&err, 400, "user_id or paste id doesn't match");

    // paste id doesn't match
    updated_paste.user_id = test_paste.user_id;
    updated_paste.id = -1;
    let err = controllers::update_paste_by_id(
        test_paste.id,
        test_paste.user_id,
        updated_paste.duplicate(),
        user_cap(Some(&admin_header)),
        &mut store,
    )
    .unwrap_err();
    assert_err(&err, 400, "user_id or paste id doesn't match");
}

#[test]
fn test_delete_paste_by_id() {
    let (mut store, _, test_paste, normal_header, admin_header) = seeded();

    let n = controllers::delete_paste_by_id(
        test_paste.id,
        test_paste.user_id,
        user_cap(Some(&normal_header)),
        &mut store,
    )
    .unwrap();
    assert_eq!(n, 1);

    // other user's paste
    let err =
        controllers::delete_paste_by_id(-1, -1, user_cap(Some(&normal_header)), &mut store)
            .unwrap_err();
    assert_err(&err, 403, "permission denied");

    // use admin permission
    let n = controllers::delete_paste_by_id(-1, -1, user_cap(Some(&admin_header)), &mut store)
        .unwrap();
    assert_eq!(n, 0);
}

#[test]
fn test_get_pastes_by_user_id() {
    let (store, user, test_paste, normal_header, admin_header) = seeded();

    let pastes =
        controllers::get_pastes_by_user_id(user.id, user_cap(Some(&normal_header)), &store)
            .unwrap();
    assert_eq!(pastes.len(), 1);
    assert_eq!(pastes[0].id, test_paste.id);
    assert_eq!(pastes[0].data, test_paste.data);

    // use admin permission
    let pastes =
        controllers::get_pastes_by_user_id(user.id, user_cap(Some(&admin_header)), &store)
            .unwrap();
    assert_eq!(pastes.len(), 1);
    assert_eq!(pastes[0].id, test_paste.id);

    // other user_id without permission
    let err = controllers::get_pastes_by_user_id(-1, user_cap(Some(&normal_header)), &store)
        .unwrap_err();
    assert_err(&err, 403, "permission denied");
}
