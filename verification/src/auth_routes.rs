//! The unauthenticated account flows: login and registration.

use vstd::prelude::*;
use crate::decimal::dec_nat;
use crate::decimal::u64_to_dec;
use crate::error::AppError;
use crate::jwt::Claims;
use crate::jwt::TOKEN_LIFETIME_SECS;
use crate::jwt::lemma_sign_verify_roundtrip;
use crate::jwt::sign;
use crate::jwt::token_wf;
use crate::password::bcrypt_matches;
use crate::password::hash_password;
use crate::password::verify_password;
use crate::session::SessionCookie;
use crate::store::CredentialStore;
use crate::store::Identity;
use crate::store::RecordModel;
use crate::store::id_present;
use crate::store::identity_of;
use crate::store::name_taken;
use crate::store::record_with_name;

verus! {

pub struct LoginRequestBody {
    pub name: String,
    pub password: String,
}

pub struct LoginResponse {
    pub code: String,
    pub message: String,
    pub data: Identity,
}

pub struct RegisterRequestBody {
    pub name: String,
    pub password: String,
    pub password_confirm: String,
}

pub struct RegisterResponse {
    pub code: String,
    pub message: String,
    pub data: String,
}

/// Whether a login with this name and password succeeds against this store:
/// the name resolves to a record whose stored hash the password matches.
pub open spec fn login_ok(s: Seq<RecordModel>, name: Seq<char>, password: Seq<char>) -> bool {
    name_taken(s, name) && bcrypt_matches(password, record_with_name(s, name).password)
}

/// Login: resolves the name, checks the password against the stored hash,
/// and on success signs a session token for the record's id and sets it
/// into a session cookie. An unknown name and a wrong password fail alike
/// with `WrongCredentials`, deliberately: a caller cannot tell the two
/// apart to enumerate account names. The returned identity carries no
/// password hash.
pub fn login_api(
    store: &CredentialStore,
    input: &LoginRequestBody,
    now: i64,
    secret: &str,
    secure: bool,
) -> (r: Result<(SessionCookie, LoginResponse), AppError>)
    requires
        store.wf(),
        now + TOKEN_LIFETIME_SECS <= i64::MAX,
    ensures
        r matches Ok(_) <==> login_ok(store@, input.name@, input.password@),
        r matches Err(e) ==> e == AppError::WrongCredentials,
        r matches Ok(p) ==> ({
            let rec = record_with_name(store@, input.name@);
            &&& p.1.data@ == identity_of(rec)
            &&& p.1.code@ == "200"@
            &&& p.1.message@ == "Login Success"@
            &&& token_wf(Claims::spec_new(rec.id, now), secret@, p.0.value@)
            &&& p.0.secure == secure
        }),
{
    let user = match store.find_by_name(&input.name) {
        None => {
            return Err(AppError::WrongCredentials);
        },
        Some(u) => u,
    };
    if !verify_password(input.password.as_str(), user.password.as_str()) {
        return Err(AppError::WrongCredentials);
    }
    let token = sign(user.id, now, secret);
    let cookie = SessionCookie { value: token, secure };
    let resp = LoginResponse {
        code: "200".to_owned(),
        message: "Login Success".to_owned(),
        data: Identity::of_record(&user),
    };
    Ok((cookie, resp))
}

/// Registration: rejects a mismatched confirmation before any store access,
/// checks the name (advisorily) and defers to the store's uniqueness guard,
/// hashes the password, and creates the record with a fresh id. The one
/// outcome the inputs do not determine is a hashing failure, surfaced as
/// `StoreError`; every error leaves the store untouched.
pub fn register_api(store: &mut CredentialStore, input: &RegisterRequestBody, cost: u32) -> (r:
    Result<RegisterResponse, AppError>)
    requires
        old(store).wf(),
        old(store).can_assign_id(),
    ensures
        final(store).wf(),
        r matches Err(_) ==> final(store)@ == old(store)@ && final(store).next_id == old(
            store,
        ).next_id,
        (r == Err::<RegisterResponse, AppError>(AppError::ValidationFailed)) <==> input.password@
            != input.password_confirm@,
        (r == Err::<RegisterResponse, AppError>(AppError::Conflict)) <==> (input.password@
            == input.password_confirm@ && name_taken(old(store)@, input.name@)),
        r == Err::<RegisterResponse, AppError>(AppError::StoreError) ==> input.password@
            == input.password_confirm@ && !name_taken(old(store)@, input.name@),
        r matches Err(e) ==> (e == AppError::ValidationFailed || e == AppError::Conflict || e
            == AppError::StoreError),
        cost < 4 || cost > 31 ==> !(r matches Ok(_)),
        r matches Ok(resp) ==> ({
            &&& input.password@ == input.password_confirm@
            &&& !name_taken(old(store)@, input.name@)
            &&& final(store)@.len() == old(store)@.len() + 1
            &&& final(store)@.subrange(0, old(store)@.len() as int) == old(store)@
            &&& ({
                let nr = final(store)@.last();
                &&& nr.name == input.name@
                &&& bcrypt_matches(input.password@, nr.password)
                &&& nr.status == 0
                &&& !id_present(old(store)@, nr.id)
                &&& resp.data@ == dec_nat(nr.id as nat)
                &&& resp.code@ == "200"@
                &&& resp.message@ == "OK"@
            })
        }),
{
    if !input.password.eq(&input.password_confirm) {
        return Err(AppError::ValidationFailed);
    }
    // Advisory pre-check; the store's constraint is the authoritative guard.
    match store.find_by_name(&input.name) {
        Some(_) => {
            return Err(AppError::Conflict);
        },
        None => {},
    }
    let hash = match hash_password(input.password.as_str(), cost) {
        None => {
            return Err(AppError::StoreError);
        },
        Some(h) => h,
    };
    match store.create(input.name.clone(), hash, 0) {
        Err(e) => Err(e),
        Ok(id) => {
            proof {
                assert(store@.subrange(0, old(store)@.len() as int) =~= old(store)@);
            }
            let resp = RegisterResponse {
                code: "200".to_owned(),
                message: "OK".to_owned(),
                data: u64_to_dec(id),
            };
            Ok(resp)
        },
    }
}

/// A token issued by a successful login resolves, on verification, to the
/// very identity the credentials named: the claims carry that record's id.
/// The hypotheses are what `login_api` ensures of the cookie's value and
/// what `verify` ensures of its result.
pub proof fn lemma_login_token_resolves(
    s: Seq<RecordModel>,
    name: Seq<char>,
    now: i64,
    later: i64,
    secret: Seq<char>,
    t: Seq<char>,
    r: Result<Claims, AppError>,
)
    requires
        token_wf(Claims::spec_new(record_with_name(s, name).id, now), secret, t),
        forall|c: Claims| token_wf(c, secret, t) && later < c.exp ==> r == Ok::<Claims, AppError>(c),
        now + TOKEN_LIFETIME_SECS <= i64::MAX,
        later < now + TOKEN_LIFETIME_SECS,
    ensures
        r matches Ok(c) && c.sub == record_with_name(s, name).id,
{
    lemma_sign_verify_roundtrip(record_with_name(s, name).id, now, later, secret, t, r);
}

} // verus!
