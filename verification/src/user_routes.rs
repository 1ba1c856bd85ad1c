//! The protected user-administration flows: listing, fetching, password
//! update, and deletion. All of them run only behind the session check; the
//! claims parameter is the identity the check resolved.

use vstd::prelude::*;
use crate::decimal::dec_nat;
use crate::decimal::u64_to_dec;
use crate::error::AppError;
use crate::jwt::Claims;
use crate::password::bcrypt_matches;
use crate::password::hash_password;
use crate::store::CredentialStore;
use crate::store::Identity;
use crate::store::RecordModel;
use crate::store::id_present;
use crate::store::identity_of;
use crate::store::record_with_id;

verus! {

pub struct GetUsersAPIQuery {
    pub page: Option<i32>,
    pub page_size: Option<i32>,
    pub status: Option<i32>,
}

pub struct UsersData {
    pub list: Vec<Identity>,
    pub count: i64,
}

pub struct GetUsersAPIResponse {
    pub code: String,
    pub message: String,
    pub data: UsersData,
}

pub struct GetUserParams {
    pub user_id: u64,
}

pub struct GetUserAPIResponse {
    pub code: String,
    pub message: String,
    pub data: Identity,
}

pub struct UpdateUserPasswordParams {
    pub user_id: u64,
}

pub struct UpdateUserPasswordBody {
    pub password: String,
    pub password_confirm: String,
}

pub struct UpdateUserPasswordResponse {
    pub code: String,
    pub message: String,
    pub data: String,
}

pub struct DeleteUserParams {
    pub user_id: u64,
}

pub struct DeleteUserResponse {
    pub code: String,
    pub message: String,
    pub data: String,
}

/// Whether a record passes the status filter: below the sentinel 99 the
/// filter selects one status; at or above it, everything passes.
pub open spec fn keeps(r: RecordModel, status_ind: i32) -> bool {
    status_ind >= 99 || r.status == status_ind
}

/// The records that pass the status filter, in store order.
pub open spec fn filtered(s: Seq<RecordModel>, status_ind: i32) -> Seq<RecordModel>
    decreases s.len(),
{
    if s.len() == 0 {
        Seq::empty()
    } else {
        let rest = filtered(s.drop_last(), status_ind);
        if keeps(s.last(), status_ind) {
            rest + seq![s.last()]
        } else {
            rest
        }
    }
}

pub proof fn lemma_filtered_len(s: Seq<RecordModel>, status_ind: i32)
    ensures
        filtered(s, status_ind).len() <= s.len(),
    decreases s.len(),
{
    if s.len() > 0 {
        lemma_filtered_len(s.drop_last(), status_ind);
    }
}

/// Appending one identity appends its model to the mapped view.
proof fn lemma_identity_map_push(pre: Seq<Identity>, post: Seq<Identity>)
    requires
        post.len() == pre.len() + 1,
        forall|j: int| 0 <= j < pre.len() ==> post[j] == pre[j],
    ensures
        post.map_values(|x: Identity| x@) =~= pre.map_values(|x: Identity| x@).push(
            post.last()@,
        ),
{
    let m1 = post.map_values(|x: Identity| x@);
    let m2 = pre.map_values(|x: Identity| x@).push(post.last()@);
    assert forall|j: int| 0 <= j < m1.len() implies m1[j] == m2[j] by {
        if j < pre.len() {
            assert(post[j] == pre[j]);
        } else {
            assert(post[j] == post.last());
        }
    }
}

/// Appending one record appends its identity to the mapped view.
proof fn lemma_record_map_push(pre: Seq<RecordModel>, post: Seq<RecordModel>)
    requires
        post.len() == pre.len() + 1,
        forall|j: int| 0 <= j < pre.len() ==> post[j] == pre[j],
    ensures
        post.map_values(|m: RecordModel| identity_of(m)) =~= pre.map_values(
            |m: RecordModel| identity_of(m),
        ).push(identity_of(post.last())),
{
    let m1 = post.map_values(|m: RecordModel| identity_of(m));
    let m2 = pre.map_values(|m: RecordModel| identity_of(m)).push(identity_of(post.last()));
    assert forall|j: int| 0 <= j < m1.len() implies m1[j] == m2[j] by {
        if j < pre.len() {
            assert(post[j] == pre[j]);
        } else {
            assert(post[j] == post.last());
        }
    }
}

/// Where the requested page starts in a list of `len` entries: the skip,
/// clamped into the list.
pub open spec fn page_start(len: int, page: i32, page_size: i32) -> int {
    let skip = (page_size as int) * ((page as int) - 1);
    if skip < 0 {
        0
    } else if skip > len {
        len
    } else {
        skip
    }
}

/// Where the requested page ends: one page size after its start, clamped.
pub open spec fn page_end(len: int, page: i32, page_size: i32) -> int {
    let start = page_start(len, page, page_size);
    let take: int = if page_size < 0 {
        0
    } else {
        page_size as int
    };
    if start + take > len {
        len
    } else {
        start + take
    }
}

/// Lists accounts: optionally filtered to one status, paginated with a
/// defaulted page and page size, and counted before pagination. Identities
/// only: no password hash leaves the store.
pub fn get_users_api(
    _claims: &Claims,
    store: &CredentialStore,
    query: &GetUsersAPIQuery,
) -> (r: Result<GetUsersAPIResponse, AppError>)
    requires
        store.wf(),
        store@.len() <= i64::MAX,
    ensures
        r matches Ok(_),
        r matches Ok(resp) ==> ({
            let st = match query.status {
                Some(v) => v,
                None => 99,
            };
            let ps = match query.page_size {
                Some(v) => v,
                None => 10,
            };
            let pg = match query.page {
                Some(v) => v,
                None => 1,
            };
            let f = filtered(store@, st);
            let lo = page_start(f.len() as int, pg, ps);
            let hi = page_end(f.len() as int, pg, ps);
            &&& resp.data.count == f.len()
            &&& resp.data.list@.map_values(|x: Identity| x@) == f.subrange(lo, hi).map_values(|m: RecordModel| identity_of(m))
            &&& resp.code@ == "200"@
            &&& resp.message@ == "OK"@
        }),
{
    let st: i32 = match query.status {
        Some(v) => v,
        None => 99,
    };
    let ps: i32 = match query.page_size {
        Some(v) => v,
        None => 10,
    };
    let pg: i32 = match query.page {
        Some(v) => v,
        None => 1,
    };
    let ghost fspec = filtered(store@, st);
    let n = store.records.len();
    let mut flt: Vec<Identity> = Vec::new();
    let mut i: usize = 0;
    proof {
        assert(store@.subrange(0, 0) =~= Seq::<RecordModel>::empty());
        assert(flt@.map_values(|x: Identity| x@) =~= filtered(
            store@.subrange(0, 0),
            st,
        ).map_values(|m: RecordModel| identity_of(m)));
    }
    while i < n
        invariant
            i <= n,
            n == store.records@.len(),
            flt@.map_values(|x: Identity| x@) == filtered(store@.subrange(0, i as int), st)
                .map_values(|m: RecordModel| identity_of(m)),
            flt@.len() == filtered(store@.subrange(0, i as int), st).len(),
        decreases n - i,
    {
        let ghost pre = store@.subrange(0, i as int);
        let keep = st >= 99 || store.records[i].status == st;
        proof {
            assert(store@[i as int] == store.records@[i as int]@);
            assert(keep == keeps(store@[i as int], st));
        }
        let ghost fpre = flt@;
        if keep {
            flt.push(Identity::of_record(&store.records[i]));
        }
        i = i + 1;
        proof {
            let cur = store@.subrange(0, i as int);
            assert(cur.drop_last() =~= pre);
            assert(cur.last() == store@[i as int - 1]);
            if keeps(store@[i as int - 1], st) {
                assert(filtered(cur, st) =~= filtered(pre, st).push(cur.last()));
                lemma_record_map_push(filtered(pre, st), filtered(cur, st));
                lemma_identity_map_push(fpre, flt@);
                assert(flt@.last()@ == identity_of(store@[i as int - 1]));
                assert(identity_of(filtered(cur, st).last()) == identity_of(
                    store@[i as int - 1],
                ));
                assert(flt@.map_values(|x: Identity| x@) =~= filtered(cur, st).map_values(
                    |m: RecordModel| identity_of(m),
                ));
            } else {
                assert(filtered(cur, st) =~= filtered(pre, st));
                assert(flt@.map_values(|x: Identity| x@) =~= filtered(cur, st).map_values(
                    |m: RecordModel| identity_of(m),
                ));
            }
        }
    }
    proof {
        assert(store@.subrange(0, n as int) =~= store@);
        lemma_filtered_len(store@, st);
    }
    let flen = flt.len();
    let count: i64 = flen as i64;
    // The page window, computed without overflow: the skip in 64 bits, both
    // bounds clamped into the filtered list.
    let psi: i64 = ps as i64;
    let pgi: i64 = pg as i64;
    proof {
        assert(i64::MIN <= (psi as int) * ((pgi as int) - 1) <= i64::MAX) by (nonlinear_arith)
            requires
                -2147483648 <= psi as int <= 2147483647,
                -2147483648 <= pgi as int <= 2147483647,
        ;
    }
    let skip: i64 = psi * (pgi - 1);
    let flen_i: i64 = flen as i64;
    let start_i: i64 = if skip < 0 {
        0
    } else if skip > flen_i {
        flen_i
    } else {
        skip
    };
    let take_i: i64 = if ps < 0 {
        0
    } else {
        psi
    };
    let end_i: i64 = if take_i > flen_i - start_i {
        flen_i
    } else {
        start_i + take_i
    };
    let start: usize = start_i as usize;
    let end: usize = end_i as usize;
    proof {
        assert(start_i as int == page_start(fspec.len() as int, pg, ps));
        assert(end_i as int == page_end(fspec.len() as int, pg, ps));
    }
    let mut list: Vec<Identity> = Vec::new();
    let mut k: usize = start;
    proof {
        let fm = flt@.map_values(|x: Identity| x@);
        assert(list@.map_values(|x: Identity| x@) =~= fm.subrange(
            start as int,
            start as int,
        ));
    }
    while k < end
        invariant
            start <= k <= end,
            end <= flt@.len(),
            list@.map_values(|x: Identity| x@) == flt@.map_values(|x: Identity| x@).subrange(
                start as int,
                k as int,
            ),
        decreases end - k,
    {
        let ghost lpre = list@;
        list.push(flt[k].duplicate());
        k = k + 1;
        proof {
            let fm = flt@.map_values(|x: Identity| x@);
            lemma_identity_map_push(lpre, list@);
            assert(list@.last()@ == fm[k as int - 1]);
            assert(fm.subrange(start as int, k as int) =~= fm.subrange(
                start as int,
                k as int - 1,
            ).push(fm[k as int - 1]));
            assert(list@.map_values(|x: Identity| x@) =~= fm.subrange(start as int, k as int));
        }
    }
    proof {
        let fm = flt@.map_values(|x: Identity| x@);
        let lo = page_start(fspec.len() as int, pg, ps);
        let hi = page_end(fspec.len() as int, pg, ps);
        assert(fm.subrange(lo, hi) =~= fspec.subrange(lo, hi).map_values(|m: RecordModel| identity_of(m)));
        assert(list@.map_values(|x: Identity| x@) == fspec.subrange(lo, hi).map_values(
            |m: RecordModel| identity_of(m),
        ));
    }
    Ok(
        GetUsersAPIResponse {
            code: "200".to_owned(),
            message: "OK".to_owned(),
            data: UsersData { list, count },
        },
    )
}

/// Fetches one account by id: the identity when it exists, `NotFound` when
/// it does not.
pub fn get_user_api(_claims: &Claims, store: &CredentialStore, params: &GetUserParams) -> (r:
    Result<GetUserAPIResponse, AppError>)
    requires
        store.wf(),
    ensures
        r matches Ok(_) <==> id_present(store@, params.user_id),
        r matches Err(e) ==> e == AppError::NotFound,
        r matches Ok(resp) ==> resp.data@ == identity_of(record_with_id(store@, params.user_id))
            && resp.code@ == "200"@ && resp.message@ == "OK"@,
{
    match store.find_by_id(params.user_id) {
        None => Err(AppError::NotFound),
        Some(rec) => Ok(
            GetUserAPIResponse {
                code: "200".to_owned(),
                message: "OK".to_owned(),
                data: Identity::of_record(&rec),
            },
        ),
    }
}

/// Updates an account's password: refused on the caller's own account,
/// refused on a mismatched confirmation before any store access, `NotFound`
/// when the target does not exist, otherwise hashed and persisted on the
/// target record. A hashing failure surfaces as `StoreError`; every error
/// leaves the store untouched.
pub fn update_user_password_api(
    claims: &Claims,
    store: &mut CredentialStore,
    params: &UpdateUserPasswordParams,
    body: &UpdateUserPasswordBody,
    cost: u32,
) -> (r: Result<UpdateUserPasswordResponse, AppError>)
    requires
        old(store).wf(),
    ensures
        final(store).wf(),
        r matches Err(_) ==> final(store)@ == old(store)@ && final(store).next_id == old(
            store,
        ).next_id,
        (r == Err::<UpdateUserPasswordResponse, AppError>(AppError::OperationConflict))
            <==> claims.sub == params.user_id,
        (r == Err::<UpdateUserPasswordResponse, AppError>(AppError::ValidationFailed)) <==> (
        claims.sub != params.user_id && body.password@ != body.password_confirm@),
        (r == Err::<UpdateUserPasswordResponse, AppError>(AppError::NotFound)) <==> (claims.sub
            != params.user_id && body.password@ == body.password_confirm@ && !id_present(
            old(store)@,
            params.user_id,
        )),
        r == Err::<UpdateUserPasswordResponse, AppError>(AppError::StoreError) ==> claims.sub
            != params.user_id && body.password@ == body.password_confirm@ && id_present(
            old(store)@,
            params.user_id,
        ),
        cost < 4 || cost > 31 ==> !(r matches Ok(_)),
        r matches Err(e) ==> (e == AppError::OperationConflict || e == AppError::ValidationFailed
            || e == AppError::NotFound || e == AppError::StoreError),
        r matches Ok(resp) ==> ({
            &&& claims.sub != params.user_id
            &&& body.password@ == body.password_confirm@
            &&& exists|k: int|
                {
                    &&& 0 <= k < old(store)@.len()
                    &&& old(store)@[k].id == params.user_id
                    &&& final(store)@ == old(store)@.update(
                        k,
                        RecordModel {
                            id: old(store)@[k].id,
                            name: old(store)@[k].name,
                            password: final(store)@[k].password,
                            status: old(store)@[k].status,
                        },
                    )
                    &&& bcrypt_matches(body.password@, final(store)@[k].password)
                }
            &&& resp.data@ == dec_nat(params.user_id as nat)
            &&& resp.code@ == "200"@
            &&& resp.message@ == "OK"@
        }),
{
    // The operation may not target the caller's own account.
    if claims.sub == params.user_id {
        return Err(AppError::OperationConflict);
    }
    if !body.password.eq(&body.password_confirm) {
        return Err(AppError::ValidationFailed);
    }
    match store.find_by_id(params.user_id) {
        None => {
            return Err(AppError::NotFound);
        },
        Some(_) => {},
    }
    let hash = match hash_password(body.password.as_str(), cost) {
        None => {
            return Err(AppError::StoreError);
        },
        Some(h) => h,
    };
    let ghost gh = hash@;
    let ghost pre = old(store)@;
    let id = store.set_password(params.user_id, hash);
    proof {
        let k = choose|k: int|
            0 <= k < pre.len() && pre[k].id == params.user_id && store@ =~= pre.update(
                k,
                RecordModel {
                    id: pre[k].id,
                    name: pre[k].name,
                    password: gh,
                    status: pre[k].status,
                },
            );
        assert(store@[k].password == gh);
        assert(0 <= k < old(store)@.len() && old(store)@[k].id == params.user_id && store@ == old(
            store,
        )@.update(
            k,
            RecordModel {
                id: old(store)@[k].id,
                name: old(store)@[k].name,
                password: store@[k].password,
                status: old(store)@[k].status,
            },
        ) && bcrypt_matches(body.password@, store@[k].password));
    }
    Ok(
        UpdateUserPasswordResponse {
            code: "200".to_owned(),
            message: "OK".to_owned(),
            data: u64_to_dec(id),
        },
    )
}

/// Deletes an account: refused on the caller's own account, `NotFound` when
/// the target does not exist, otherwise removed.
pub fn delete_user_api(
    claims: &Claims,
    store: &mut CredentialStore,
    params: &DeleteUserParams,
) -> (r: Result<DeleteUserResponse, AppError>)
    requires
        old(store).wf(),
    ensures
        final(store).wf(),
        r matches Err(_) ==> final(store)@ == old(store)@ && final(store).next_id == old(
            store,
        ).next_id,
        (r == Err::<DeleteUserResponse, AppError>(AppError::OperationConflict)) <==> claims.sub
            == params.user_id,
        (r == Err::<DeleteUserResponse, AppError>(AppError::NotFound)) <==> (claims.sub
            != params.user_id && !id_present(old(store)@, params.user_id)),
        r matches Ok(_) <==> (claims.sub != params.user_id && id_present(
            old(store)@,
            params.user_id,
        )),
        r matches Ok(resp) ==> ({
            &&& !id_present(final(store)@, params.user_id)
            &&& exists|k: int|
                {
                    &&& 0 <= k < old(store)@.len()
                    &&& old(store)@[k].id == params.user_id
                    &&& final(store)@ == old(store)@.subrange(0, k) + old(store)@.subrange(
                        k + 1,
                        old(store)@.len() as int,
                    )
                }
            &&& resp.data@ == dec_nat(params.user_id as nat)
            &&& resp.code@ == "200"@
            &&& resp.message@ == "User Deleted"@
        }),
{
    // The operation may not target the caller's own account.
    if claims.sub == params.user_id {
        return Err(AppError::OperationConflict);
    }
    match store.find_by_id(params.user_id) {
        None => {
            return Err(AppError::NotFound);
        },
        Some(_) => {},
    }
    store.remove_by_id(params.user_id);
    Ok(
        DeleteUserResponse {
            code: "200".to_owned(),
            message: "User Deleted".to_owned(),
            data: u64_to_dec(params.user_id),
        },
    )
}

} // verus!
