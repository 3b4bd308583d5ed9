use pastebin::auth::JwtClaims;
use pastebin::codec;
use pastebin::controllers;
use pastebin::errors::{classify_store_error, StoreError};
use pastebin::guard::{evaluate, User as UserCap, UserToken};
use pastebin::users::{RawUser, UserStore};
use pastebin::Error;

const SALT: &str = "testsalt";
const SECRET: &[u8] = b"test-jwt-secret";
const NOW: i64 = 1_700_000_000;

fn principal(user_id: i32, admin: bool) -> UserToken<UserCap> {
    let roles = if admin {
        vec!["admin".to_string()]
    } else {
        vec![]
    };
    UserToken::<UserCap>::new(user_id, "someone".to_string(), roles)
}

fn user_cap(header: Option<&str>) -> Result<UserToken<UserCap>, Error> {
    UserToken::<UserCap>::from_header(header, SECRET, NOW)
}

#[test]
fn ownership_check() {
    // the owner is allowed
    assert!(evaluate(42, Ok(principal(42, false))).is_ok());

    // a different, non-admin subject is denied
    let err = evaluate(42, Ok(principal(7, false))).unwrap_err();
    assert_eq!(err.code, 403);
    assert_eq!(err.msg, "permission denied");
}

#[test]
fn admin_override() {
    // a different subject with the administrator role is allowed
    assert!(evaluate(42, Ok(principal(7, true))).is_ok());
}

#[test]
fn evaluation_propagates_resolution_failures() {
    // a missing or malformed credential keeps its own classification even
    // where ownership evaluation would not be satisfied
    let err = evaluate(42, user_cap(None)).unwrap_err();
    assert_eq!(err.code, 401);
    assert_eq!(err.msg, "token not found");

    let err = evaluate(42, user_cap(Some("Bearer wrongtoken"))).unwrap_err();
    assert_eq!(err.code, 401);
    assert_eq!(err.msg, "invalid token");
}

#[test]
fn token_roles_and_identity() {
    let token = principal(5, true);
    assert!(token.match_user_id(5));
    assert!(!token.match_user_id(6));
    assert!(token.has_role("admin"));
    assert!(!token.has_role("editor"));
}

#[test]
fn resolution_is_idempotent() {
    let mut users = UserStore::new();
    let user = users
        .create_user(
            &RawUser {
                username: "test".to_string(),
                email: "test@example.com".to_string(),
                password: "password".to_string(),
            },
            SALT,
        )
        .unwrap();
    let header = format!("Bearer {}", pastebin::auth::login(&user, SECRET, NOW).unwrap());

    let t1 = user_cap(Some(&header)).unwrap();
    let t2 = user_cap(Some(&header)).unwrap();
    assert_eq!(t1.user_id, t2.user_id);
    assert_eq!(t1.username, t2.username);
    assert_eq!(t1.roles, t2.roles);
}

#[test]
fn bare_token_resolves_without_scheme_prefix() {
    let claims = JwtClaims {
        iat: NOW,
        exp: NOW + pastebin::auth::DAY,
        user_id: 9,
        username: "bare".to_string(),
        roles: vec![],
    };
    let token = codec::encode(&claims, SECRET).unwrap();
    let t = user_cap(Some(&token)).unwrap();
    assert_eq!(t.user_id, 9);
    assert_eq!(t.username, "bare");
}

#[test]
fn claims_expiry_boundary() {
    let claims = JwtClaims {
        iat: 0,
        exp: NOW,
        user_id: 1,
        username: "x".to_string(),
        roles: vec![],
    };
    // the expiry instant itself already counts as expired
    assert!(claims.is_expired(NOW));
    assert!(claims.is_expired(NOW + 1));
    assert!(!claims.is_expired(NOW - 1));
}

#[test]
fn expired_claims_always_expire() {
    // an otherwise perfectly signed credential whose expiry has passed is
    // rejected as expired, not as invalid
    let claims = JwtClaims {
        iat: NOW - 10,
        exp: NOW,
        user_id: 3,
        username: "late".to_string(),
        roles: vec!["admin".to_string()],
    };
    let header = format!("Bearer {}", codec::encode(&claims, SECRET).unwrap());
    let err = user_cap(Some(&header)).unwrap_err();
    assert_eq!(err.code, 401);
    assert_eq!(err.msg, "expired token");
}

#[test]
fn get_user_without_header() {
    let store = UserStore::new();
    let err = controllers::get_user_by_id(42, user_cap(None), &store).unwrap_err();
    assert_eq!(err.code, 401);
    assert_eq!(err.msg, "token not found");
    assert_eq!(err.body_json(), "{\"code\":401,\"msg\":\"token not found\"}");
}

#[test]
fn delete_user_permission_bodies() {
    let mut store = UserStore::new();
    for i in 1..9 {
        store
            .create_user(
                &RawUser {
                    username: format!("user{}", i),
                    email: format!("user{}@example.com", i),
                    password: "password".to_string(),
                },
                SALT,
            )
            .unwrap();
    }
    let subject8 = store.get_user_by_id(8).unwrap();
    let header = format!("Bearer {}", pastebin::auth::login(&subject8, SECRET, NOW).unwrap());

    // a valid token for subject 8 (non-admin) may not delete user 7
    let err = controllers::delete_user_by_id(7, user_cap(Some(&header)), &mut store).unwrap_err();
    assert_eq!(err.code, 403);
    assert_eq!(err.msg, "permission denied");
    assert_eq!(err.body_json(), "{\"code\":403,\"msg\":\"permission denied\"}");

    // a valid admin token proceeds to the operation
    let admin_claims = JwtClaims {
        iat: NOW,
        exp: NOW + pastebin::auth::DAY,
        user_id: 1000,
        username: "admin".to_string(),
        roles: vec!["admin".to_string()],
    };
    let admin_header = format!("Bearer {}", codec::encode(&admin_claims, SECRET).unwrap());
    let n = controllers::delete_user_by_id(7, user_cap(Some(&admin_header)), &mut store).unwrap();
    assert_eq!(n, 1);
}

#[test]
fn classifier_taxonomy() {
    let e = classify_store_error(&StoreError::NotFound);
    assert_eq!(e.code, 404);
    assert_eq!(e.msg, "data not found");
    assert_eq!(e.body_json(), "{\"code\":404,\"msg\":\"data not found\"}");

    let e = classify_store_error(&StoreError::UniqueViolation {
        table: Some("users".to_string()),
        constraint: Some("users_username_key".to_string()),
    });
    assert_eq!(e.code, 400);
    assert_eq!(e.msg, "duplicate username");

    let e = classify_store_error(&StoreError::UniqueViolation {
        table: Some("users".to_string()),
        constraint: Some("users_email_key".to_string()),
    });
    assert_eq!(e.msg, "duplicate email");

    // unknown naming conventions fall back to a generic message
    let e = classify_store_error(&StoreError::UniqueViolation {
        table: None,
        constraint: None,
    });
    assert_eq!(e.code, 400);
    assert_eq!(e.msg, "duplicate data");

    let e = classify_store_error(&StoreError::Other);
    assert_eq!(e.code, 500);
    assert_eq!(e.msg, "database operation failure");
}
