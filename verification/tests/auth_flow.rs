use pastebin::auth::{DAY, JwtClaims};
use pastebin::codec;
use pastebin::controllers::{self, LoginPayload};
use pastebin::users::{RawUser, UserStore};

const SALT: &str = "testsalt";
const SECRET: &[u8] = b"test-jwt-secret";
const NOW: i64 = 1_700_000_000;

fn seeded() -> UserStore {
    let mut store = UserStore::new();
    store
        .create_user(
            &RawUser {
                username: "test".to_string(),
                email: "test@example.com".to_string(),
                password: "password".to_string(),
            },
            SALT,
        )
        .unwrap();
    store
}

fn login_req(store: &UserStore, username: &str, password: &str) -> Result<String, pastebin::Error> {
    controllers::login(
        store,
        &LoginPayload {
            username: username.to_string(),
            password: password.to_string(),
        },
        SALT,
        SECRET,
        NOW,
    )
}

#[test]
fn test_login() {
    let store = seeded();

    let token = login_req(&store, "test", "password");
    assert!(token.is_ok());
    assert!(!token.unwrap().is_empty());

    // wrong username
    let err = login_req(&store, "wrong_user", "password").unwrap_err();
    assert_eq!(err.code, 400);
    assert_eq!(err.msg, "wrong username or password");

    // wrong password
    let err = login_req(&store, "test", "wrong password").unwrap_err();
    assert_eq!(err.code, 400);
    assert_eq!(err.msg, "wrong username or password");
}

#[test]
fn login_scenario_issues_token() {
    let mut store = UserStore::new();
    store
        .create_user(
            &RawUser {
                username: "test".to_string(),
                email: "test@example.com".to_string(),
                password: "testpassword".to_string(),
            },
            SALT,
        )
        .unwrap();

    let token = login_req(&store, "test", "testpassword").unwrap();
    // the token decodes back to the claims issued at login
    let claims = codec::decode(&token, SECRET).unwrap();
    assert_eq!(claims.user_id, 1);
    assert_eq!(claims.username, "test");
    assert_eq!(claims.iat, NOW);
    assert_eq!(claims.exp, NOW + 7 * DAY);
    assert!(claims.roles.is_empty());

    let err = login_req(&store, "test", "wrongpassword").unwrap_err();
    assert_eq!(err.code, 400);
    assert_eq!(err.msg, "wrong username or password");
    assert_eq!(
        err.body_json(),
        "{\"code\":400,\"msg\":\"wrong username or password\"}"
    );
}

#[test]
fn codec_round_trip() {
    let claims = JwtClaims {
        iat: NOW,
        exp: NOW + DAY,
        user_id: 42,
        username: "carol".to_string(),
        roles: vec!["admin".to_string(), "editor".to_string()],
    };
    let token = codec::encode(&claims, SECRET).unwrap();
    let decoded = codec::decode(&token, SECRET).unwrap();
    assert_eq!(decoded.iat, NOW);
    assert_eq!(decoded.exp, NOW + DAY);
    assert_eq!(decoded.user_id, 42);
    assert_eq!(decoded.username, "carol");
    assert_eq!(decoded.roles, vec!["admin".to_string(), "editor".to_string()]);
}

#[test]
fn decode_rejects_foreign_and_tampered_tokens() {
    let claims = JwtClaims {
        iat: NOW,
        exp: NOW + DAY,
        user_id: 1,
        username: "test".to_string(),
        roles: vec![],
    };
    let token = codec::encode(&claims, SECRET).unwrap();

    // a different signing secret must not validate the token
    assert!(codec::decode(&token, b"another-secret").is_err());

    // flipping one digit of the payload must not validate
    let mut tampered: Vec<char> = token.chars().collect();
    tampered[0] = if tampered[0] == '0' { '1' } else { '0' };
    let tampered: String = tampered.into_iter().collect();
    assert!(codec::decode(&tampered, SECRET).is_err());

    // arbitrary strings must not validate
    assert!(codec::decode("wrongtoken", SECRET).is_err());
    assert!(codec::decode("", SECRET).is_err());
    assert!(codec::decode("a.b.c", SECRET).is_err());
}
