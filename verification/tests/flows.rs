//! The account flows end to end against an in-memory store: registration,
//! login, the session check, listing, password update and deletion,
//! following one user's life cycle.

use auth_core::auth_routes::login_api;
use auth_core::auth_routes::register_api;
use auth_core::auth_routes::LoginRequestBody;
use auth_core::auth_routes::RegisterRequestBody;
use auth_core::error::status_of;
use auth_core::error::AppError;
use auth_core::jwt::TOKEN_LIFETIME_SECS;
use auth_core::session::authenticate;
use auth_core::store::CredentialStore;
use auth_core::user_routes::delete_user_api;
use auth_core::user_routes::get_user_api;
use auth_core::user_routes::get_users_api;
use auth_core::user_routes::update_user_password_api;
use auth_core::user_routes::DeleteUserParams;
use auth_core::user_routes::GetUserParams;
use auth_core::user_routes::GetUsersAPIQuery;
use auth_core::user_routes::UpdateUserPasswordBody;
use auth_core::user_routes::UpdateUserPasswordParams;

const SECRET: &str = "a-test-signing-secret";
const NOW: i64 = 1_700_000_000;
const COST: u32 = 4;

fn register(store: &mut CredentialStore, name: &str, pw: &str, confirm: &str) -> Result<String, AppError> {
    let input = RegisterRequestBody {
        name: name.to_owned(),
        password: pw.to_owned(),
        password_confirm: confirm.to_owned(),
    };
    register_api(store, &input, COST).map(|resp| {
        assert_eq!(resp.code, "200");
        assert_eq!(resp.message, "OK");
        resp.data
    })
}

fn login(store: &CredentialStore, name: &str, pw: &str) -> Result<(String, u64), AppError> {
    let input = LoginRequestBody { name: name.to_owned(), password: pw.to_owned() };
    login_api(store, &input, NOW, SECRET, false).map(|(cookie, resp)| {
        assert_eq!(resp.code, "200");
        assert_eq!(resp.message, "Login Success");
        assert_eq!(resp.data.name, name);
        (cookie.value, resp.data.id)
    })
}

#[test]
fn register_login_list_scenario() {
    let mut store = CredentialStore::new();

    // Registration succeeds once.
    let id_str = register(&mut store, "alice", "pw1", "pw1").expect("first registration");

    // A second registration under the same name conflicts: 409.
    let r = register(&mut store, "alice", "pw2", "pw2");
    assert_eq!(r, Err(AppError::Conflict));
    assert_eq!(status_of(&AppError::Conflict), 409);

    // A wrong password is refused: 401.
    let r = login(&store, "alice", "wrong");
    assert_eq!(r.clone().err(), Some(AppError::WrongCredentials));
    assert_eq!(status_of(&r.err().unwrap()), 401);

    // The right password logs in and sets the session cookie.
    let (token, id) = login(&store, "alice", "pw1").expect("login");
    assert_eq!(id_str, id.to_string());

    // Without a cookie the session check refuses: 401.
    let r = authenticate(None, NOW + 1, SECRET);
    assert_eq!(r, Err(AppError::Unauthenticated));
    assert_eq!(status_of(&AppError::Unauthenticated), 401);

    // With the cookie it resolves the logged-in identity.
    let claims = authenticate(Some(&token), NOW + 1, SECRET).expect("session");
    assert_eq!(claims.sub, id);
    assert_eq!(claims.exp, claims.iat + TOKEN_LIFETIME_SECS);

    // The listing then shows alice.
    let query = GetUsersAPIQuery { page: None, page_size: None, status: None };
    let resp = get_users_api(&claims, &store, &query).expect("listing");
    assert_eq!(resp.code, "200");
    assert_eq!(resp.data.count, 1);
    assert_eq!(resp.data.list.len(), 1);
    assert_eq!(resp.data.list[0].name, "alice");
    assert_eq!(resp.data.list[0].id, id);
}

#[test]
fn unknown_name_and_wrong_password_fail_alike() {
    let mut store = CredentialStore::new();
    register(&mut store, "alice", "pw1", "pw1").expect("registration");
    let unknown = login(&store, "nobody", "pw1");
    let wrong = login(&store, "alice", "wrong");
    assert_eq!(unknown, Err(AppError::WrongCredentials));
    assert_eq!(wrong, Err(AppError::WrongCredentials));
    assert_eq!(unknown, wrong);
}

#[test]
fn register_mismatch_fails_before_any_store_access() {
    let mut store = CredentialStore::new();
    let r = register(&mut store, "bob", "pw1", "pw2");
    assert_eq!(r, Err(AppError::ValidationFailed));
    assert_eq!(status_of(&AppError::ValidationFailed), 400);
    assert_eq!(store.records.len(), 0);
}

#[test]
fn register_surfaces_hash_failure_as_store_error() {
    let mut store = CredentialStore::new();
    let input = RegisterRequestBody {
        name: "judy".to_owned(),
        password: "pw".to_owned(),
        password_confirm: "pw".to_owned(),
    };
    // A cost outside bcrypt's allowed range makes hashing fail.
    let r = register_api(&mut store, &input, 1);
    assert_eq!(r.err(), Some(AppError::StoreError));
    assert_eq!(status_of(&AppError::StoreError), 400);
    assert_eq!(store.records.len(), 0);
}

#[test]
fn second_registration_of_a_name_loses() {
    let mut store = CredentialStore::new();
    assert!(register(&mut store, "carol", "pw", "pw").is_ok());
    let r = register(&mut store, "carol", "other", "other");
    assert_eq!(r, Err(AppError::Conflict));
    assert_eq!(store.records.len(), 1);
}

#[test]
fn login_token_resolves_to_the_identity() {
    let mut store = CredentialStore::new();
    register(&mut store, "dave", "pw", "pw").expect("registration");
    let (token, id) = login(&store, "dave", "pw").expect("login");
    let claims = authenticate(Some(&token), NOW + 10, SECRET).expect("session");
    assert_eq!(claims.sub, id);
    let fetched = get_user_api(&claims, &store, &GetUserParams { user_id: claims.sub })
        .expect("fetch");
    assert_eq!(fetched.data.name, "dave");
}

#[test]
fn get_user_absent_is_not_found() {
    let mut store = CredentialStore::new();
    register(&mut store, "erin", "pw", "pw").expect("registration");
    let (token, _) = login(&store, "erin", "pw").expect("login");
    let claims = authenticate(Some(&token), NOW + 1, SECRET).expect("session");
    let r = get_user_api(&claims, &store, &GetUserParams { user_id: 999 });
    assert!(r.is_err());
    assert_eq!(status_of(&AppError::NotFound), 404);
}

#[test]
fn update_password_flow() {
    let mut store = CredentialStore::new();
    register(&mut store, "frank", "old-pw", "old-pw").expect("frank");
    register(&mut store, "grace", "pw", "pw").expect("grace");
    let (token, frank_id) = login(&store, "frank", "old-pw").expect("login");
    let claims = authenticate(Some(&token), NOW + 1, SECRET).expect("session");
    let grace_id = login(&store, "grace", "pw").expect("login").1;

    // The caller's own account is off limits.
    let own = update_user_password_api(
        &claims,
        &mut store,
        &UpdateUserPasswordParams { user_id: frank_id },
        &UpdateUserPasswordBody {
            password: "x".to_owned(),
            password_confirm: "x".to_owned(),
        },
        COST,
    );
    assert_eq!(own.err(), Some(AppError::OperationConflict));

    // A mismatched confirmation is refused.
    let mismatch = update_user_password_api(
        &claims,
        &mut store,
        &UpdateUserPasswordParams { user_id: grace_id },
        &UpdateUserPasswordBody {
            password: "new-pw".to_owned(),
            password_confirm: "other".to_owned(),
        },
        COST,
    );
    assert_eq!(mismatch.err(), Some(AppError::ValidationFailed));

    // An absent target is a typed error, never a crash.
    let absent = update_user_password_api(
        &claims,
        &mut store,
        &UpdateUserPasswordParams { user_id: 999 },
        &UpdateUserPasswordBody {
            password: "new-pw".to_owned(),
            password_confirm: "new-pw".to_owned(),
        },
        COST,
    );
    assert_eq!(absent.err(), Some(AppError::NotFound));
    assert_eq!(status_of(&AppError::NotFound), 404);
    assert_eq!(store.records.len(), 2);

    // The update persists: the old password stops working, the new one works.
    let ok = update_user_password_api(
        &claims,
        &mut store,
        &UpdateUserPasswordParams { user_id: grace_id },
        &UpdateUserPasswordBody {
            password: "new-pw".to_owned(),
            password_confirm: "new-pw".to_owned(),
        },
        COST,
    )
    .expect("update");
    assert_eq!(ok.code, "200");
    assert!(login(&store, "grace", "pw").is_err());
    assert!(login(&store, "grace", "new-pw").is_ok());
}

#[test]
fn delete_flow() {
    let mut store = CredentialStore::new();
    register(&mut store, "henry", "pw", "pw").expect("henry");
    register(&mut store, "iris", "pw", "pw").expect("iris");
    let (token, henry_id) = login(&store, "henry", "pw").expect("login");
    let claims = authenticate(Some(&token), NOW + 1, SECRET).expect("session");
    let iris_id = login(&store, "iris", "pw").expect("login").1;

    let own = delete_user_api(&claims, &mut store, &DeleteUserParams { user_id: henry_id });
    assert_eq!(own.err(), Some(AppError::OperationConflict));

    let absent = delete_user_api(&claims, &mut store, &DeleteUserParams { user_id: 999 });
    assert_eq!(absent.err(), Some(AppError::NotFound));

    let gone = delete_user_api(&claims, &mut store, &DeleteUserParams { user_id: iris_id })
        .expect("delete");
    assert_eq!(gone.code, "200");
    assert_eq!(gone.message, "User Deleted");
    assert_eq!(store.records.len(), 1);
    assert!(login(&store, "iris", "pw").is_err());
}
