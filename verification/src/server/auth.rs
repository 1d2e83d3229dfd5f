//! Access-token verification.
//!
//! Five accepted transports:
//!   1. `Authorization: Bearer <token>`  (extracted here)
//!   2. `X-Api-Key: <token>`             (extracted here)
//!   3. `?access_token=<token>`          (recommended for SSE)
//!   4. `?token=<token>`                 (alias of 3)
//!   5. the same two keys inside a POST JSON body
//!
//! Transports 3-5 arrive through the merged request params; header values come in as
//! texts, `None` where a header is absent or not text.

use vstd::prelude::*;

use crate::text::{
    chars_of, opt_str_view, opt_view, starts_with, starts_with_seq, string_of_range, trim, trim_seq,
};

verus! {

/// The token of an `Authorization` value: what follows "Bearer ", trimmed.
pub open spec fn bearer_token(value: Option<Seq<char>>) -> Option<Seq<char>> {
    match value {
        Some(v) => if starts_with_seq(v, "Bearer "@) {
            Some(trim_seq(v.skip("Bearer "@.len() as int)))
        } else {
            None
        },
        None => None,
    }
}

/// The token of an `X-Api-Key` value, trimmed, where it is not blank.
pub open spec fn api_key_token(value: Option<Seq<char>>) -> Option<Seq<char>> {
    match value {
        Some(v) => if trim_seq(v).len() > 0 {
            Some(trim_seq(v))
        } else {
            None
        },
        None => None,
    }
}

/// The token that the headers carry: a bearer token wins.
pub open spec fn header_token(
    authorization: Option<Seq<char>>,
    api_key: Option<Seq<char>>,
) -> Option<Seq<char>> {
    if bearer_token(authorization) is Some {
        bearer_token(authorization)
    } else {
        api_key_token(api_key)
    }
}

fn bearer(value: Option<&str>) -> (r: Option<String>)
    ensures
        opt_view(r) == bearer_token(opt_str_view(value)),
{
    match value {
        Some(v) => {
            if !starts_with(v, "Bearer ") {
                return None;
            }
            let vv = chars_of(v);
            let n: usize = chars_of("Bearer ").len();
            let rest = string_of_range(&vv, n, vv.len());
            assert(rest@ =~= v@.skip("Bearer "@.len() as int));
            Some(trim(rest.as_str()))
        },
        None => None,
    }
}

fn api_key(value: Option<&str>) -> (r: Option<String>)
    ensures
        opt_view(r) == api_key_token(opt_str_view(value)),
{
    match value {
        Some(v) => {
            let t = trim(v);
            if t.as_str().is_empty() {
                None
            } else {
                Some(t)
            }
        },
        None => None,
    }
}

/// Token from either accepted header, in check order.
pub fn from_headers(authorization: Option<&str>, x_api_key: Option<&str>) -> (r: Option<String>)
    ensures
        opt_view(r) == header_token(opt_str_view(authorization), opt_str_view(x_api_key)),
{
    match bearer(authorization) {
        Some(t) => Some(t),
        None => api_key(x_api_key),
    }
}

/// A bearer token is what follows the word and its blank, without the blanks around it; it
/// goes before the key header, which counts only where it is not blank.
pub proof fn law_header_tokens(t: Seq<char>, key: Seq<char>, other: Seq<char>)
    ensures
        header_token(Some("Bearer "@ + t), None) == Some(trim_seq(t)),
        header_token(Some("Bearer "@ + t), Some(key)) == Some(trim_seq(t)),
        trim_seq(key).len() > 0 ==> header_token(None, Some(key)) == Some(trim_seq(key)),
        trim_seq(key).len() == 0 ==> header_token(None, Some(key)) is None,
        header_token(None, None) is None,
        (forall|rest: Seq<char>| other != #[trigger] ("Bearer "@ + rest)) ==> header_token(
            Some(other),
            None,
        ) is None && header_token(Some(other), Some(key)) == header_token(None, Some(key)),
{
    let v = "Bearer "@ + t;
    crate::text::law_starts_and_ends(v, "Bearer "@);
    crate::text::law_starts_and_ends(other, "Bearer "@);
    assert(v.skip("Bearer "@.len() as int) =~= t);
}

} // verus!
