//! The session layer: the cookie a token travels in, and the check that
//! guards every protected route. A request either presents a cookie whose
//! token verifies, and proceeds with the resolved claims bound to it, or it
//! is refused before any handler logic runs.

use vstd::prelude::*;
use crate::error::AppError;
use crate::error::spec_status_of;
use crate::jwt::Claims;
use crate::jwt::token_wf;
use crate::jwt::verify;

verus! {

/// The fixed name of the session cookie.
pub fn session_cookie_name() -> (r: &'static str)
    ensures
        r@ == "user"@,
{
    "user"
}

/// A session cookie: fixed name, the token as value, root path, http-only;
/// the secure flag follows the deployment environment.
pub struct SessionCookie {
    pub value: String,
    pub secure: bool,
}

/// The `Set-Cookie` header line a session cookie renders to.
pub open spec fn spec_cookie_header(value: Seq<char>, secure: bool) -> Seq<char> {
    "user="@ + value + "; Path=/; HttpOnly"@ + if secure {
        "; Secure"@
    } else {
        Seq::<char>::empty()
    }
}

impl SessionCookie {
    pub fn header_value(&self) -> (r: String)
        ensures
            r@ == spec_cookie_header(self.value@, self.secure),
    {
        let mut s = String::new();
        s.append("user=");
        s.append(self.value.as_str());
        s.append("; Path=/; HttpOnly");
        if self.secure {
            s.append("; Secure");
        }
        proof {
            assert(s@ =~= spec_cookie_header(self.value@, self.secure));
        }
        s
    }
}

/// The session check. A missing cookie is refused outright; a present one
/// is accepted exactly when its token verifies against the secret and the
/// clock. Every refusal is `Unauthenticated`: the raw token value appears
/// nowhere in the result.
pub fn authenticate(cookie: Option<&String>, now: i64, secret: &str) -> (r: Result<
    Claims,
    AppError,
>)
    ensures
        cookie matches None ==> r == Err::<Claims, AppError>(AppError::Unauthenticated),
        cookie matches Some(t) ==> {
            &&& (r matches Ok(c) ==> token_wf(c, secret@, t@) && now < c.exp)
            &&& (forall|c: Claims|
                token_wf(c, secret@, t@) && now < c.exp ==> r == Ok::<Claims, AppError>(c))
            &&& (r matches Err(e) ==> e == AppError::Unauthenticated)
        },
{
    match cookie {
        None => Err(AppError::Unauthenticated),
        Some(t) => verify(t.as_str(), now, secret),
    }
}

/// A request the session check refuses is answered with status 401, and the
/// downstream handler never sees it: the check's failure is the response.
pub proof fn lemma_refused_session_is_401(r: Result<Claims, AppError>)
    requires
        r matches Err(e) ==> e == AppError::Unauthenticated,
        r matches Err(_),
    ensures
        r matches Err(e) && spec_status_of(e) == 401,
{
}

} // verus!
