//! Listing with status filter and pagination, against directly built
//! stores, and the error translator's fixed envelope.

use auth_core::error::error_response;
use auth_core::error::message_of;
use auth_core::error::status_of;
use auth_core::error::AppError;
use auth_core::jwt::Claims;
use auth_core::session::session_cookie_name;
use auth_core::session::SessionCookie;
use auth_core::store::CredentialRecord;
use auth_core::store::CredentialStore;
use auth_core::user_routes::get_users_api;
use auth_core::user_routes::GetUsersAPIQuery;

fn record(id: u64, name: &str, status: i32) -> CredentialRecord {
    CredentialRecord {
        id,
        name: name.to_owned(),
        password: "not-a-real-hash".to_owned(),
        status,
    }
}

fn store_of(records: Vec<CredentialRecord>) -> CredentialStore {
    let next_id = records.iter().map(|r| r.id + 1).max().unwrap_or(0);
    CredentialStore { records, next_id }
}

fn claims() -> Claims {
    Claims { sub: 1, iat: 0, exp: 10 }
}

fn names(store: &CredentialStore, query: &GetUsersAPIQuery) -> (Vec<String>, i64) {
    let resp = get_users_api(&claims(), store, query).expect("listing");
    (resp.data.list.iter().map(|u| u.name.clone()).collect(), resp.data.count)
}

#[test]
fn listing_defaults_to_ten_per_page() {
    let mut recs = Vec::new();
    for i in 0..12u64 {
        recs.push(record(i, &format!("user{}", i), 0));
    }
    let store = store_of(recs);
    let (page1, count) = names(&store, &GetUsersAPIQuery { page: None, page_size: None, status: None });
    assert_eq!(count, 12);
    assert_eq!(page1.len(), 10);
    assert_eq!(page1[0], "user0");
    assert_eq!(page1[9], "user9");
    let (page2, count2) = names(
        &store,
        &GetUsersAPIQuery { page: Some(2), page_size: None, status: None },
    );
    assert_eq!(count2, 12);
    assert_eq!(page2, vec!["user10".to_owned(), "user11".to_owned()]);
}

#[test]
fn listing_filters_by_status_and_counts_before_paging() {
    let store = store_of(vec![
        record(0, "a", 1),
        record(1, "b", 2),
        record(2, "c", 1),
        record(3, "d", 1),
    ]);
    let q = GetUsersAPIQuery { page: Some(1), page_size: Some(2), status: Some(1) };
    let (page, count) = names(&store, &q);
    assert_eq!(count, 3);
    assert_eq!(page, vec!["a".to_owned(), "c".to_owned()]);
    // The sentinel and anything above it disable the filter.
    let q = GetUsersAPIQuery { page: Some(1), page_size: Some(10), status: Some(99) };
    let (page, count) = names(&store, &q);
    assert_eq!(count, 4);
    assert_eq!(page.len(), 4);
}

#[test]
fn listing_clamps_degenerate_pages() {
    let store = store_of(vec![record(0, "a", 0), record(1, "b", 0)]);
    // A page beyond the end is empty.
    let (page, count) = names(
        &store,
        &GetUsersAPIQuery { page: Some(5), page_size: Some(10), status: None },
    );
    assert_eq!(count, 2);
    assert_eq!(page.len(), 0);
    // Negative sizes yield nothing rather than failing.
    let (page, _) = names(
        &store,
        &GetUsersAPIQuery { page: Some(1), page_size: Some(-3), status: None },
    );
    assert_eq!(page.len(), 0);
    // A page number below one starts at the beginning.
    let (page, _) = names(
        &store,
        &GetUsersAPIQuery { page: Some(0), page_size: Some(1), status: None },
    );
    assert_eq!(page, vec!["a".to_owned()]);
}

#[test]
fn error_translation_is_fixed() {
    let cases: Vec<(AppError, u16, &str)> = vec![
        (AppError::Unauthenticated, 401, "Login Error"),
        (AppError::WrongCredentials, 401, "Username/password incorrect"),
        (AppError::NotFound, 404, "Record not found"),
        (AppError::Conflict, 409, "Record existed"),
        (AppError::ValidationFailed, 400, "Passwords don't match"),
        (AppError::OperationConflict, 409, "Operation not allowed on own account"),
        (AppError::StoreError, 400, "Query Error"),
    ];
    for (e, code, msg) in cases {
        assert_eq!(status_of(&e), code);
        assert_eq!(message_of(&e), msg);
        let envelope = error_response(&e);
        assert_eq!(envelope.code, code.to_string());
        assert_eq!(envelope.message, msg);
        assert_eq!(envelope.data, "");
    }
}

#[test]
fn session_cookie_renders_its_header() {
    assert_eq!(session_cookie_name(), "user");
    let plain = SessionCookie { value: "tok".to_owned(), secure: false };
    assert_eq!(plain.header_value(), "user=tok; Path=/; HttpOnly");
    let secure = SessionCookie { value: "tok".to_owned(), secure: true };
    assert_eq!(secure.header_value(), "user=tok; Path=/; HttpOnly; Secure");
}
