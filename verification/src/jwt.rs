//! The token service: identity claims, their canonical JSON form, and the
//! signed, stateless session token built over it.
//!
//! A token is `header.payload.signature`: the base64url JWT header for
//! HS256, the base64url claims JSON, and the base64url HMAC-SHA256 of
//! everything before the last dot. Claims carry the subject identifier, the
//! issue time and the expiry, a fixed lifetime after issue.

use vstd::prelude::*;
use crate::crypto::b64url_decode;
use crate::crypto::b64url_encode;
use crate::crypto::b64url_of;
use crate::crypto::dotfree;
use crate::crypto::hs256_b64_of;
use crate::crypto::hs256_sign;
use crate::crypto::hs256_verify;
use crate::decimal::dec_int;
use crate::decimal::dec_nat;
use crate::decimal::digit_run_end;
use crate::decimal::i64_to_dec;
use crate::decimal::is_digit;
use crate::decimal::lemma_dec_nat_canonical;
use crate::decimal::lemma_digit_run_end_of;
use crate::decimal::parse_i64;
use crate::decimal::parse_u64;
use crate::decimal::u64_to_dec;
use crate::decimal::val_of;
use crate::error::AppError;
use crate::strutil::match_at;
use crate::strutil::str_chars;

verus! {

/// How long a token stays valid, in seconds: twenty-four hours.
pub const TOKEN_LIFETIME_SECS: i64 = 86400;

/// The identity claims a session token carries: the subject's stable
/// identifier, when the token was issued, and when it expires. Immutable
/// once created.
#[derive(Clone, Copy, PartialEq, Eq, Structural, Debug)]
pub struct Claims {
    pub sub: u64,
    pub iat: i64,
    pub exp: i64,
}

impl Claims {
    /// The claims issued at `iat` for subject `sub`.
    pub open spec fn spec_new(sub: u64, iat: i64) -> Claims {
        Claims { sub, iat, exp: (iat + TOKEN_LIFETIME_SECS) as i64 }
    }

    /// Builds claims issued at `now`, expiring one lifetime later.
    pub fn new(sub: u64, now: i64) -> (c: Claims)
        requires
            now + TOKEN_LIFETIME_SECS <= i64::MAX,
        ensures
            c == Claims::spec_new(sub, now),
            c.sub == sub && c.iat == now && c.exp == now + TOKEN_LIFETIME_SECS,
    {
        Claims { sub, iat: now, exp: now + TOKEN_LIFETIME_SECS }
    }
}

/// The canonical JSON form of the claims: fixed field order, no spaces, the
/// subject rendered as a quoted decimal string, the times as numbers.
pub open spec fn claims_json(c: Claims) -> Seq<char> {
    "{\"sub\":\""@ + dec_nat(c.sub as nat) + "\",\"iat\":"@ + dec_int(c.iat as int) + ",\"exp\":"@
        + dec_int(c.exp as int) + "}"@
}

/// Where each piece of the canonical JSON stands: the literal delimiters,
/// the three number runs and their run ends, and the closing brace.
pub proof fn lemma_claims_json_shape(c: Claims)
    ensures
        ({
            let j = claims_json(c);
            let ds = dec_nat(c.sub as nat);
            let di = dec_int(c.iat as int);
            let de = dec_int(c.exp as int);
            let q1 = 8 + ds.len() as int;
            let p2 = q1 + 8;
            let q2 = p2 + di.len();
            let p3 = q2 + 7;
            let q3 = p3 + de.len();
            &&& j.len() == q3 + 1
            &&& j.subrange(0, 8) == "{\"sub\":\""@
            &&& j.subrange(8, q1) == ds
            &&& digit_run_end(j, 8) == q1
            &&& j.subrange(q1, p2) == "\",\"iat\":"@
            &&& j.subrange(p2, q2) == di
            &&& (c.iat < 0 ==> j[p2] == '-' && digit_run_end(j, p2 + 1) == q2)
            &&& (c.iat >= 0 ==> j[p2] != '-' && digit_run_end(j, p2) == q2)
            &&& j.subrange(q2, p3) == ",\"exp\":"@
            &&& j.subrange(p3, q3) == de
            &&& (c.exp < 0 ==> j[p3] == '-' && digit_run_end(j, p3 + 1) == q3)
            &&& (c.exp >= 0 ==> j[p3] != '-' && digit_run_end(j, p3) == q3)
            &&& j[q3] == '}'
        }),
{
    reveal_strlit("{\"sub\":\"");
    reveal_strlit("\",\"iat\":");
    reveal_strlit(",\"exp\":");
    reveal_strlit("}");
    let j = claims_json(c);
    let ds = dec_nat(c.sub as nat);
    let di = dec_int(c.iat as int);
    let de = dec_int(c.exp as int);
    let q1 = 8 + ds.len() as int;
    let p2 = q1 + 8;
    let q2 = p2 + di.len();
    let p3 = q2 + 7;
    let q3 = p3 + de.len();
    lemma_dec_nat_canonical(c.sub as nat);
    lemma_dec_nat_canonical((if c.iat >= 0 {
        c.iat as int
    } else {
        -(c.iat as int)
    }) as nat);
    lemma_dec_nat_canonical((if c.exp >= 0 {
        c.exp as int
    } else {
        -(c.exp as int)
    }) as nat);
    assert(j.len() == q3 + 1);
    assert(j.subrange(0, 8) =~= "{\"sub\":\""@);
    assert(j.subrange(8, q1) =~= ds);
    assert(j.subrange(q1, p2) =~= "\",\"iat\":"@);
    assert(j.subrange(p2, q2) =~= di);
    assert(j.subrange(q2, p3) =~= ",\"exp\":"@);
    assert(j.subrange(p3, q3) =~= de);
    assert(j[q3] == '}');
    // The subject digits end exactly at the quote that follows them.
    assert(j[q1] == '"');
    assert(!is_digit('"'));
    assert(forall|k: int| 8 <= k < q1 ==> is_digit(#[trigger] j[k])) by {
        assert(forall|k: int| 8 <= k < q1 ==> j[k] == ds[k - 8]);
    }
    lemma_digit_run_end_of(j, 8, q1);
    // The issue-time digits end at the comma, the expiry digits at the brace.
    assert(j[q2] == ',');
    assert(!is_digit(','));
    assert(j[q3] == '}');
    assert(!is_digit('}'));
    if c.iat < 0 {
        let m = dec_nat((-(c.iat as int)) as nat);
        assert(di =~= seq!['-'] + m);
        assert(j[p2] == di[0]);
        assert(forall|k: int| p2 + 1 <= k < q2 ==> j[k] == m[k - (p2 + 1)]);
        assert(forall|k: int| p2 + 1 <= k < q2 ==> is_digit(#[trigger] j[k]));
        lemma_digit_run_end_of(j, p2 + 1, q2);
    } else {
        let m = dec_nat(c.iat as nat);
        assert(di =~= m);
        assert(j[p2] == m[0]);
        assert(is_digit(j[p2]));
        assert(forall|k: int| p2 <= k < q2 ==> j[k] == m[k - p2]);
        assert(forall|k: int| p2 <= k < q2 ==> is_digit(#[trigger] j[k]));
        lemma_digit_run_end_of(j, p2, q2);
    }
    if c.exp < 0 {
        let m = dec_nat((-(c.exp as int)) as nat);
        assert(de =~= seq!['-'] + m);
        assert(j[p3] == de[0]);
        assert(forall|k: int| p3 + 1 <= k < q3 ==> j[k] == m[k - (p3 + 1)]);
        assert(forall|k: int| p3 + 1 <= k < q3 ==> is_digit(#[trigger] j[k]));
        lemma_digit_run_end_of(j, p3 + 1, q3);
    } else {
        let m = dec_nat(c.exp as nat);
        assert(de =~= m);
        assert(j[p3] == m[0]);
        assert(is_digit(j[p3]));
        assert(forall|k: int| p3 <= k < q3 ==> j[k] == m[k - p3]);
        assert(forall|k: int| p3 <= k < q3 ==> is_digit(#[trigger] j[k]));
        lemma_digit_run_end_of(j, p3, q3);
    }
}

/// Two values never share a decimal rendering.
pub proof fn lemma_dec_int_inj(x: int, y: int)
    requires
        dec_int(x) == dec_int(y),
    ensures
        x == y,
{
    if x >= 0 {
        lemma_dec_nat_canonical(x as nat);
    } else {
        lemma_dec_nat_canonical((-x) as nat);
    }
    if y >= 0 {
        lemma_dec_nat_canonical(y as nat);
    } else {
        lemma_dec_nat_canonical((-y) as nat);
    }
    if x >= 0 && y >= 0 {
        assert(val_of(dec_nat(x as nat)) == val_of(dec_nat(y as nat)));
    } else if x < 0 && y < 0 {
        let mx = dec_nat((-x) as nat);
        let my = dec_nat((-y) as nat);
        assert(mx =~= dec_int(x).subrange(1, dec_int(x).len() as int));
        assert(my =~= dec_int(y).subrange(1, dec_int(y).len() as int));
        assert(val_of(mx) == val_of(my));
    } else if x >= 0 {
        // A nonnegative rendering opens with a digit, a negative one with
        // the sign.
        assert(dec_int(x)[0] == dec_nat(x as nat)[0]);
        assert(is_digit(dec_int(x)[0]));
        assert(dec_int(y)[0] == '-');
        assert(!is_digit('-'));
    } else {
        assert(dec_int(y)[0] == dec_nat(y as nat)[0]);
        assert(is_digit(dec_int(y)[0]));
        assert(dec_int(x)[0] == '-');
        assert(!is_digit('-'));
    }
}

/// Distinct claims have distinct canonical JSON: the form can be parsed
/// back unambiguously.
pub proof fn lemma_claims_json_injective(a: Claims, b: Claims)
    requires
        claims_json(a) == claims_json(b),
    ensures
        a == b,
{
    lemma_claims_json_shape(a);
    lemma_claims_json_shape(b);
    let j = claims_json(a);
    let dsa = dec_nat(a.sub as nat);
    let dsb = dec_nat(b.sub as nat);
    assert(digit_run_end(j, 8) == 8 + dsa.len());
    assert(digit_run_end(j, 8) == 8 + dsb.len());
    let q1 = 8 + dsa.len() as int;
    assert(dsa == j.subrange(8, q1) && dsb == j.subrange(8, q1));
    lemma_dec_nat_canonical(a.sub as nat);
    lemma_dec_nat_canonical(b.sub as nat);
    assert(a.sub == b.sub);
    let p2 = q1 + 8;
    let dia = dec_int(a.iat as int);
    let dib = dec_int(b.iat as int);
    if a.iat < 0 && b.iat >= 0 {
        assert(j[p2] == '-' && j[p2] != '-');
    }
    if a.iat >= 0 && b.iat < 0 {
        assert(j[p2] == '-' && j[p2] != '-');
    }
    if a.iat < 0 {
        assert(digit_run_end(j, p2 + 1) == p2 + dia.len());
        assert(digit_run_end(j, p2 + 1) == p2 + dib.len());
    } else {
        assert(digit_run_end(j, p2) == p2 + dia.len());
        assert(digit_run_end(j, p2) == p2 + dib.len());
    }
    let q2 = p2 + dia.len();
    assert(dia == j.subrange(p2, q2) && dib == j.subrange(p2, q2));
    lemma_dec_int_inj(a.iat as int, b.iat as int);
    let p3 = q2 + 7;
    let dea = dec_int(a.exp as int);
    let deb = dec_int(b.exp as int);
    if a.exp < 0 && b.exp >= 0 {
        assert(j[p3] == '-' && j[p3] != '-');
    }
    if a.exp >= 0 && b.exp < 0 {
        assert(j[p3] == '-' && j[p3] != '-');
    }
    if a.exp < 0 {
        assert(digit_run_end(j, p3 + 1) == p3 + dea.len());
        assert(digit_run_end(j, p3 + 1) == p3 + deb.len());
    } else {
        assert(digit_run_end(j, p3) == p3 + dea.len());
        assert(digit_run_end(j, p3) == p3 + deb.len());
    }
    let q3 = p3 + dea.len();
    assert(dea == j.subrange(p3, q3) && deb == j.subrange(p3, q3));
    lemma_dec_int_inj(a.exp as int, b.exp as int);
}

/// Renders the claims in their canonical JSON form.
pub fn claims_to_json(c: &Claims) -> (r: String)
    ensures
        r@ == claims_json(*c),
{
    let mut s = String::new();
    s.append("{\"sub\":\"");
    let ds = u64_to_dec(c.sub);
    s.append(ds.as_str());
    s.append("\",\"iat\":");
    let di = i64_to_dec(c.iat);
    s.append(di.as_str());
    s.append(",\"exp\":");
    let de = i64_to_dec(c.exp);
    s.append(de.as_str());
    s.append("}");
    proof {
        assert(s@ =~= claims_json(*c));
    }
    s
}

/// Parses the canonical claims JSON back: accepts exactly the strings
/// `claims_json` produces, and returns the claims they render.
pub fn parse_claims(s: &str) -> (r: Option<Claims>)
    ensures
        match r {
            Some(c) => s@ == claims_json(c),
            None => forall|c: Claims| s@ != claims_json(c),
        },
{
    proof {
        reveal_strlit("{\"sub\":\"");
        reveal_strlit("\",\"iat\":");
        reveal_strlit(",\"exp\":");
        reveal_strlit("}");
    }
    let v = str_chars(s);
    let n = v.len();
    let l1 = "{\"sub\":\"";
    if !match_at(&v, 0, l1) {
        proof {
            assert forall|c: Claims| s@ != claims_json(c) by {
                if s@ == claims_json(c) {
                    lemma_claims_json_shape(c);
                    assert(s@.subrange(0, 8) == l1@);
                }
            }
        }
        return None;
    }
    let p1 = l1.unicode_len();
    let (sub, q1) = match parse_u64(&v, p1) {
        Some(p) => p,
        None => {
            proof {
                assert forall|c: Claims| s@ != claims_json(c) by {
                    if s@ == claims_json(c) {
                        lemma_claims_json_shape(c);
                        lemma_dec_nat_canonical(c.sub as nat);
                        let ds = dec_nat(c.sub as nat);
                        let e = digit_run_end(v@, 8);
                        assert(e == 8 + ds.len());
                        assert(v@.subrange(8, e) == ds);
                    }
                }
            }
            return None;
        },
    };
    let l2 = "\",\"iat\":";
    if !match_at(&v, q1, l2) {
        proof {
            assert forall|c: Claims| s@ != claims_json(c) by {
                if s@ == claims_json(c) {
                    lemma_claims_json_shape(c);
                    let ds = dec_nat(c.sub as nat);
                    assert(q1 == 8 + ds.len());
                    assert(s@.subrange(q1 as int, q1 + 8) == l2@);
                }
            }
        }
        return None;
    }
    let p2 = q1 + l2.unicode_len();
    let (iat, q2) = match parse_i64(&v, p2) {
        Some(p) => p,
        None => {
            proof {
                assert forall|c: Claims| s@ != claims_json(c) by {
                    if s@ == claims_json(c) {
                        lemma_claims_json_shape(c);
                        let ds = dec_nat(c.sub as nat);
                        let di = dec_int(c.iat as int);
                        assert(p2 == 16 + ds.len());
                        assert(s@.subrange(p2 as int, p2 + di.len()) == di);
                        if c.iat < 0 {
                            let m = (-(c.iat as int)) as nat;
                            lemma_dec_nat_canonical(m);
                            assert(di =~= seq!['-'] + dec_nat(m));
                            assert(v@[p2 as int] == '-');
                            let e = digit_run_end(v@, p2 + 1);
                            assert(e == p2 + di.len());
                            assert(v@.subrange(p2 + 1, e) =~= dec_nat(m));
                            assert(m >= 1);
                            assert(m <= i64::MAX as nat + 1);
                        } else {
                            let m = c.iat as nat;
                            lemma_dec_nat_canonical(m);
                            assert(di =~= dec_nat(m));
                            assert(v@[p2 as int] != '-');
                            let e = digit_run_end(v@, p2 as int);
                            assert(e == p2 + di.len());
                            assert(v@.subrange(p2 as int, e) =~= dec_nat(m));
                            assert(m <= i64::MAX as nat);
                        }
                    }
                }
            }
            return None;
        },
    };
    let l3 = ",\"exp\":";
    if !match_at(&v, q2, l3) {
        proof {
            assert forall|c: Claims| s@ != claims_json(c) by {
                if s@ == claims_json(c) {
                    lemma_claims_json_shape(c);
                    lemma_json_positions(c, v@, p2 as int, q2 as int);
                    assert(s@.subrange(q2 as int, q2 + 7) == l3@);
                }
            }
        }
        return None;
    }
    let p3 = q2 + l3.unicode_len();
    let (exp, q3) = match parse_i64(&v, p3) {
        Some(p) => p,
        None => {
            proof {
                assert forall|c: Claims| s@ != claims_json(c) by {
                    if s@ == claims_json(c) {
                        lemma_claims_json_shape(c);
                        lemma_json_positions(c, v@, p2 as int, q2 as int);
                        let ds = dec_nat(c.sub as nat);
                        let di = dec_int(c.iat as int);
                        let de = dec_int(c.exp as int);
                        assert(p3 == 23 + ds.len() + di.len());
                        assert(s@.subrange(p3 as int, p3 + de.len()) == de);
                        if c.exp < 0 {
                            let m = (-(c.exp as int)) as nat;
                            lemma_dec_nat_canonical(m);
                            assert(de =~= seq!['-'] + dec_nat(m));
                            assert(v@[p3 as int] == '-');
                            let e = digit_run_end(v@, p3 + 1);
                            assert(e == p3 + de.len());
                            assert(v@.subrange(p3 + 1, e) =~= dec_nat(m));
                            assert(m >= 1);
                            assert(m <= i64::MAX as nat + 1);
                        } else {
                            let m = c.exp as nat;
                            lemma_dec_nat_canonical(m);
                            assert(de =~= dec_nat(m));
                            assert(v@[p3 as int] != '-');
                            let e = digit_run_end(v@, p3 as int);
                            assert(e == p3 + de.len());
                            assert(v@.subrange(p3 as int, e) =~= dec_nat(m));
                            assert(m <= i64::MAX as nat);
                        }
                    }
                }
            }
            return None;
        },
    };
    if !(q3 < n && v[q3] == '}' && q3 + 1 == n) {
        proof {
            assert forall|c: Claims| s@ != claims_json(c) by {
                if s@ == claims_json(c) {
                    lemma_claims_json_shape(c);
                    lemma_json_positions(c, v@, p2 as int, q2 as int);
                    let ds = dec_nat(c.sub as nat);
                    let di = dec_int(c.iat as int);
                    let de = dec_int(c.exp as int);
                    assert(q3 == 23 + ds.len() + di.len() + de.len()) by {
                        if c.exp < 0 {
                            assert(digit_run_end(v@, p3 + 1) == p3 + de.len());
                        } else {
                            assert(digit_run_end(v@, p3 as int) == p3 + de.len());
                        }
                    }
                    assert(v@[q3 as int] == '}');
                    assert(v@.len() == q3 + 1);
                }
            }
        }
        return None;
    }
    let c = Claims { sub, iat, exp };
    proof {
        let j = claims_json(c);
        assert("}"@ =~= seq!['}']);
        assert(v@.subrange(q3 as int, n as int) =~= seq!['}']);
        assert(s@ =~= v@.subrange(0, 8) + v@.subrange(8, q1 as int) + v@.subrange(
            q1 as int,
            p2 as int,
        ) + v@.subrange(p2 as int, q2 as int) + v@.subrange(q2 as int, p3 as int) + v@.subrange(
            p3 as int,
            q3 as int,
        ) + v@.subrange(q3 as int, n as int));
        assert(s@ =~= j);
    }
    Some(c)
}

/// The JWT header this service signs and accepts: HS256, fixed field order.
pub open spec fn header_json() -> Seq<char> {
    "{\"typ\":\"JWT\",\"alg\":\"HS256\"}"@
}

/// The encoded header, the first of a token's three parts.
pub open spec fn header_b64() -> Seq<char> {
    b64url_of(header_json())
}

/// What the signature covers: encoded header, a dot, encoded claims.
pub open spec fn signing_input(c: Claims) -> Seq<char> {
    header_b64() + seq!['.'] + b64url_of(claims_json(c))
}

/// The token for the given claims under the given secret.
pub open spec fn spec_token(c: Claims, secret: Seq<char>) -> Seq<char> {
    signing_input(c) + seq!['.'] + hs256_b64_of(signing_input(c), secret)
}

/// `t` is the token for `c` under `secret`, with each base64url part free of
/// dots, as every encoder's output is: what `sign` guarantees of its result,
/// and what lets `verify` recover `c` from `t` alone.
pub open spec fn token_wf(c: Claims, secret: Seq<char>, t: Seq<char>) -> bool {
    &&& t == spec_token(c, secret)
    &&& dotfree(header_b64())
    &&& dotfree(b64url_of(claims_json(c)))
    &&& dotfree(hs256_b64_of(signing_input(c), secret))
}

/// Where a well-formed token's parts stand: header to the first dot, payload
/// to the second, signature after it.
pub proof fn lemma_token_parts(c: Claims, secret: Seq<char>, t: Seq<char>)
    requires
        token_wf(c, secret, t),
    ensures
        ({
            let hb = header_b64();
            let pb = b64url_of(claims_json(c));
            let sig = hs256_b64_of(signing_input(c), secret);
            let la = hb.len() as int;
            let lb = pb.len() as int;
            &&& t.len() == la + 1 + lb + 1 + sig.len()
            &&& t.subrange(0, la) == hb
            &&& t[la] == '.'
            &&& t.subrange(la + 1, la + 1 + lb) == pb
            &&& t[la + 1 + lb] == '.'
            &&& t.subrange(la + 2 + lb, t.len() as int) == sig
            &&& t.subrange(0, la + 1 + lb) == signing_input(c)
        }),
{
    let hb = header_b64();
    let pb = b64url_of(claims_json(c));
    let sig = hs256_b64_of(signing_input(c), secret);
    let la = hb.len() as int;
    let lb = pb.len() as int;
    assert(t.subrange(0, la) =~= hb);
    assert(t.subrange(la + 1, la + 1 + lb) =~= pb);
    assert(t.subrange(la + 2 + lb, t.len() as int) =~= sig);
    assert(t.subrange(0, la + 1 + lb) =~= signing_input(c));
}

/// A dot at a known position behind a dot-free stretch is exactly where a
/// left-to-right scan from `from` stops.
proof fn lemma_first_dot(t: Seq<char>, from: int, dotpos: int, found: int)
    requires
        0 <= from <= dotpos < t.len(),
        t[dotpos] == '.',
        forall|k: int| from <= k < dotpos ==> t[k] != '.',
        from <= found <= t.len(),
        forall|k: int| from <= k < found ==> t[k] != '.',
        found < t.len() ==> t[found] == '.',
    ensures
        found == dotpos,
{
    if found < dotpos {
        assert(t[found] != '.');
    }
    if found > dotpos {
        assert(t[dotpos] != '.');
    }
}

/// A dot-free subrange keeps its positions in the whole sequence dot-free.
proof fn lemma_subrange_dotfree(t: Seq<char>, a: int, b: int)
    requires
        0 <= a <= b <= t.len(),
        dotfree(t.subrange(a, b)),
    ensures
        forall|k: int| a <= k < b ==> t[k] != '.',
{
    assert forall|k: int| a <= k < b implies t[k] != '.' by {
        assert(t[k] == t.subrange(a, b)[k - a]);
    }
}

/// Under well-formedness, a scan for the first two dots lands exactly on
/// the part boundaries, so the scanned regions are the token's parts.
proof fn lemma_wf_scan(c: Claims, secret: Seq<char>, t: Seq<char>, d1: int, d2: int)
    requires
        token_wf(c, secret, t),
        0 <= d1 <= t.len(),
        forall|k: int| 0 <= k < d1 ==> t[k] != '.',
        d1 < t.len() ==> t[d1] == '.',
        d1 < t.len(),
        d1 + 1 <= d2 <= t.len(),
        forall|k: int| d1 + 1 <= k < d2 ==> t[k] != '.',
        d2 < t.len() ==> t[d2] == '.',
    ensures
        d1 == header_b64().len(),
        d2 == d1 + 1 + b64url_of(claims_json(c)).len(),
        d2 < t.len(),
        t.subrange(0, d1) == header_b64(),
        t.subrange(d1 + 1, d2) == b64url_of(claims_json(c)),
        t.subrange(d2 + 1, t.len() as int) == hs256_b64_of(signing_input(c), secret),
        t.subrange(0, d2) == signing_input(c),
{
    lemma_token_parts(c, secret, t);
    let la = header_b64().len() as int;
    let lb = b64url_of(claims_json(c)).len() as int;
    assert(dotfree(t.subrange(0, la)));
    lemma_subrange_dotfree(t, 0, la);
    lemma_first_dot(t, 0, la, d1);
    assert(dotfree(t.subrange(la + 1, la + 1 + lb)));
    lemma_subrange_dotfree(t, la + 1, la + 1 + lb);
    lemma_first_dot(t, la + 1, la + 1 + lb, d2);
}

/// First position at or after `from` that holds a dot, or the length.
fn find_dot(v: &Vec<char>, from: usize) -> (r: usize)
    requires
        from <= v@.len(),
    ensures
        from <= r <= v@.len(),
        forall|k: int| from <= k < r ==> v@[k] != '.',
        r < v@.len() ==> v@[r as int] == '.',
{
    let n = v.len();
    let mut i = from;
    while i < n && v[i] != '.'
        invariant
            from <= i <= n,
            n == v@.len(),
            forall|k: int| from <= k < i ==> v@[k] != '.',
        decreases n - i,
    {
        i = i + 1;
    }
    i
}

/// Signs the claims issued for `user_id` at `now`: the returned token is the
/// well-formed token for exactly those claims under `secret`.
pub fn sign(user_id: u64, now: i64, secret: &str) -> (t: String)
    requires
        now + TOKEN_LIFETIME_SECS <= i64::MAX,
    ensures
        token_wf(Claims::spec_new(user_id, now), secret@, t@),
{
    let claims = Claims::new(user_id, now);
    let payload = claims_to_json(&claims);
    let hb = b64url_encode("{\"typ\":\"JWT\",\"alg\":\"HS256\"}");
    let pb = b64url_encode(payload.as_str());
    let mut si = hb;
    si.append(".");
    si.append(pb.as_str());
    proof {
        reveal_strlit(".");
        assert("."@ =~= seq!['.']);
        assert(si@ =~= signing_input(claims));
    }
    let sig = hs256_sign(si.as_str(), secret);
    let mut t = si;
    t.append(".");
    t.append(sig.as_str());
    proof {
        assert(t@ =~= spec_token(claims, secret@));
    }
    t
}

/// Checks a token against the secret and the clock. Returns the claims it
/// carries exactly when it is the well-formed token for some claims under
/// this secret and the expiry lies ahead of `now`; fails with
/// `Unauthenticated` otherwise.
pub fn verify(token: &str, now: i64, secret: &str) -> (r: Result<Claims, AppError>)
    ensures
        r matches Ok(c) ==> token_wf(c, secret@, token@) && now < c.exp,
        forall|c: Claims|
            token_wf(c, secret@, token@) && now < c.exp ==> r == Ok::<Claims, AppError>(c),
        r matches Err(e) ==> e == AppError::Unauthenticated,
        forall|c1: Claims, c2: Claims|
            token_wf(c1, secret@, token@) && token_wf(c2, secret@, token@) ==> c1 == c2,
{
    let v = str_chars(token);
    let n = v.len();
    let d1 = find_dot(&v, 0);
    if d1 == n {
        proof {
            assert forall|c: Claims| !token_wf(c, secret@, token@) by {
                if token_wf(c, secret@, token@) {
                    lemma_token_parts(c, secret@, token@);
                    assert(token@[header_b64().len() as int] == '.');
                }
            }
        }
        return Err(AppError::Unauthenticated);
    }
    let d2 = find_dot(&v, d1 + 1);
    let d3 = find_dot(&v, if d2 < n { d2 + 1 } else { n });
    if d2 == n || d3 < n {
        proof {
            assert forall|c: Claims| !token_wf(c, secret@, token@) by {
                if token_wf(c, secret@, token@) {
                    lemma_wf_scan(c, secret@, token@, d1 as int, d2 as int);
                    if d3 < n {
                        let la = d1 as int;
                        let lb = b64url_of(claims_json(c)).len() as int;
                        assert(dotfree(token@.subrange(la + 2 + lb, token@.len() as int)));
                        lemma_subrange_dotfree(token@, la + 2 + lb, token@.len() as int);
                        assert(token@[d3 as int] != '.');
                    }
                }
            }
        }
        return Err(AppError::Unauthenticated);
    }
    let hb = b64url_encode("{\"typ\":\"JWT\",\"alg\":\"HS256\"}");
    let hbn = hb.unicode_len();
    if !(d1 == hbn && match_at(&v, 0, hb.as_str())) {
        proof {
            assert forall|c: Claims| !token_wf(c, secret@, token@) by {
                if token_wf(c, secret@, token@) {
                    lemma_wf_scan(c, secret@, token@, d1 as int, d2 as int);
                }
            }
        }
        return Err(AppError::Unauthenticated);
    }
    let msg = token.substring_char(0, d2);
    let sigp = token.substring_char(d2 + 1, n);
    if !hs256_verify(sigp, msg, secret) {
        proof {
            assert forall|c: Claims| !token_wf(c, secret@, token@) by {
                if token_wf(c, secret@, token@) {
                    lemma_wf_scan(c, secret@, token@, d1 as int, d2 as int);
                    assert(sigp@ == hs256_b64_of(msg@, secret@));
                }
            }
        }
        return Err(AppError::Unauthenticated);
    }
    let pl = token.substring_char(d1 + 1, d2);
    let json = match b64url_decode(pl) {
        Some(j) => j,
        None => {
            proof {
                assert forall|c: Claims| !token_wf(c, secret@, token@) by {
                    if token_wf(c, secret@, token@) {
                        lemma_wf_scan(c, secret@, token@, d1 as int, d2 as int);
                        assert(pl@ == b64url_of(claims_json(c)));
                    }
                }
            }
            return Err(AppError::Unauthenticated);
        },
    };
    let c0 = match parse_claims(json.as_str()) {
        Some(c) => c,
        None => {
            proof {
                assert forall|c: Claims| !token_wf(c, secret@, token@) by {
                    if token_wf(c, secret@, token@) {
                        lemma_wf_scan(c, secret@, token@, d1 as int, d2 as int);
                        assert(pl@ == b64url_of(claims_json(c)));
                        assert(json@ == claims_json(c));
                    }
                }
            }
            return Err(AppError::Unauthenticated);
        },
    };
    proof {
        // Whatever claims this token is well-formed for, they are the ones
        // just parsed.
        assert forall|c: Claims| token_wf(c, secret@, token@) implies c == c0 by {
            lemma_wf_scan(c, secret@, token@, d1 as int, d2 as int);
            assert(pl@ == b64url_of(claims_json(c)));
            assert(json@ == claims_json(c));
            lemma_claims_json_injective(c, c0);
        }
    }
    if now < c0.exp {
        proof {
            // The parts this run established assemble back into exactly the
            // token for the parsed claims.
            let la = d1 as int;
            assert(token@.subrange(0, la) == header_b64());
            assert(pl@ == token@.subrange(la + 1, d2 as int));
            assert(pl@ == b64url_of(claims_json(c0)));
            assert(msg@ == token@.subrange(0, d2 as int));
            assert(msg@ =~= signing_input(c0)) by {
                assert(forall|k: int|
                    0 <= k < la ==> token@[k] == token@.subrange(0, la)[k]);
                assert(forall|k: int|
                    la + 1 <= k < d2 ==> token@[k] == token@.subrange(la + 1, d2 as int)[k - la
                        - 1]);
                assert(forall|k: int|
                    0 <= k < d2 ==> msg@[k] == token@[k]);
            }
            assert(sigp@ == token@.subrange(d2 as int + 1, n as int));
            assert(sigp@ == hs256_b64_of(signing_input(c0), secret@));
            assert(token@ =~= spec_token(c0, secret@)) by {
                assert(forall|k: int|
                    0 <= k < d2 ==> token@[k] == msg@[k]);
                assert(forall|k: int|
                    d2 + 1 <= k < n ==> token@[k] == sigp@[k - d2 - 1]);
            }
            assert(dotfree(b64url_of(claims_json(c0)))) by {
                assert(forall|k: int|
                    0 <= k < pl@.len() ==> pl@[k] == token@[la + 1 + k]);
            }
            assert(dotfree(hs256_b64_of(signing_input(c0), secret@))) by {
                assert(forall|k: int|
                    0 <= k < sigp@.len() ==> sigp@[k] == token@[d2 as int + 1 + k]);
            }
            assert(token_wf(c0, secret@, token@));
        }
        Ok(c0)
    } else {
        Err(AppError::Unauthenticated)
    }
}

/// One token never decomposes two ways: whatever claims and secrets it is
/// well-formed for, the parts and the signed input are the same.
pub proof fn lemma_wf_same_token(
    c1: Claims,
    s1: Seq<char>,
    c2: Claims,
    s2: Seq<char>,
    t: Seq<char>,
)
    requires
        token_wf(c1, s1, t),
        token_wf(c2, s2, t),
    ensures
        b64url_of(claims_json(c1)) == b64url_of(claims_json(c2)),
        signing_input(c1) == signing_input(c2),
        hs256_b64_of(signing_input(c1), s1) == hs256_b64_of(signing_input(c2), s2),
{
    lemma_token_parts(c1, s1, t);
    lemma_token_parts(c2, s2, t);
    let la = header_b64().len() as int;
    let lb1 = b64url_of(claims_json(c1)).len() as int;
    let lb2 = b64url_of(claims_json(c2)).len() as int;
    if lb1 < lb2 {
        assert(dotfree(t.subrange(la + 1, la + 1 + lb2)));
        lemma_subrange_dotfree(t, la + 1, la + 1 + lb2);
        assert(t[la + 1 + lb1] == '.');
    }
    if lb2 < lb1 {
        assert(dotfree(t.subrange(la + 1, la + 1 + lb1)));
        lemma_subrange_dotfree(t, la + 1, la + 1 + lb1);
        assert(t[la + 1 + lb2] == '.');
    }
    assert(lb1 == lb2);
}

/// Verifying what was signed yields exactly the signed claims: the same
/// subject, and an expiry one lifetime after issue. The hypotheses are what
/// `sign` ensures of the token and what `verify` ensures of its result.
pub proof fn lemma_sign_verify_roundtrip(
    sub: u64,
    iat: i64,
    now: i64,
    secret: Seq<char>,
    t: Seq<char>,
    r: Result<Claims, AppError>,
)
    requires
        token_wf(Claims::spec_new(sub, iat), secret, t),
        forall|c: Claims| token_wf(c, secret, t) && now < c.exp ==> r == Ok::<Claims, AppError>(c),
        iat + TOKEN_LIFETIME_SECS <= i64::MAX,
        now < iat + TOKEN_LIFETIME_SECS,
    ensures
        r == Ok::<Claims, AppError>(Claims::spec_new(sub, iat)),
        r matches Ok(c) && c.sub == sub && c.iat == iat && c.exp == iat + TOKEN_LIFETIME_SECS,
{
    let c = Claims::spec_new(sub, iat);
    assert(now < c.exp);
}

/// A token outlives its validity only on the clock's sufferance: once `now`
/// reaches the embedded expiry, verification fails. The hypotheses are what
/// `sign` ensures of the token and what `verify` ensures of its result.
pub proof fn lemma_expired_token_rejected(
    c: Claims,
    now: i64,
    secret: Seq<char>,
    t: Seq<char>,
    r: Result<Claims, AppError>,
)
    requires
        token_wf(c, secret, t),
        now >= c.exp,
        r matches Ok(cc) ==> token_wf(cc, secret, t) && now < cc.exp,
        forall|c1: Claims, c2: Claims|
            token_wf(c1, secret, t) && token_wf(c2, secret, t) ==> c1 == c2,
    ensures
        r matches Err(_),
{
    match r {
        Ok(cc) => {
            assert(token_wf(cc, secret, t) && token_wf(c, secret, t));
            assert(cc == c);
        },
        Err(_) => {},
    }
}

/// A token signed under one secret does not verify under another whose
/// signature of the same input differs; only secrets whose HMAC-SHA256
/// signatures coincide on this very input escape this, and no pair is known
/// to. The hypotheses are what `sign` ensures under the signing secret and
/// what `verify` ensures under the checking one.
pub proof fn lemma_wrong_secret_rejected(
    c1: Claims,
    s1: Seq<char>,
    s2: Seq<char>,
    t: Seq<char>,
    r: Result<Claims, AppError>,
)
    requires
        token_wf(c1, s1, t),
        hs256_b64_of(signing_input(c1), s1) != hs256_b64_of(signing_input(c1), s2),
        r matches Ok(c) ==> token_wf(c, s2, t),
    ensures
        r matches Err(_),
{
    match r {
        Ok(c) => {
            lemma_wf_same_token(c1, s1, c, s2, t);
        },
        Err(_) => {},
    }
}

/// Fixes where the issue-time run ends: the parser's position after that
/// run agrees with the canonical layout.
proof fn lemma_json_positions(c: Claims, t: Seq<char>, p2: int, q2: int)
    requires
        t == claims_json(c),
        p2 == 16 + dec_nat(c.sub as nat).len(),
        q2 == if (p2 < t.len() && t[p2] == '-') {
            digit_run_end(t, p2 + 1)
        } else {
            digit_run_end(t, p2)
        },
    ensures
        q2 == p2 + dec_int(c.iat as int).len(),
{
    lemma_claims_json_shape(c);
    let di = dec_int(c.iat as int);
    if c.iat < 0 {
        assert(t[p2] == '-');
        assert(p2 < t.len());
        assert(digit_run_end(t, p2 + 1) == p2 + di.len());
    } else {
        assert(t[p2] != '-');
        assert(digit_run_end(t, p2) == p2 + di.len());
    }
}

} // verus!
