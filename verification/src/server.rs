//! Checks made by the REST service: the bearer token it is started with and
//! the authorization header of each request.
use vstd::prelude::*;
use crate::text::{chars_of, chars_eq, strip_prefix, strip_prefix_chars, trim, trim_chars};

verus! {

/// The token a request supplies: the authorization header after `Bearer `,
/// trimmed; empty when there is no header or it does not start so.
pub open spec fn supplied_token(header: Option<Seq<char>>) -> Seq<char> {
    let h = match header {
        Some(h) => h,
        None => Seq::empty(),
    };
    match strip_prefix(h, "Bearer "@) {
        Some(rest) => trim(rest),
        None => Seq::empty(),
    }
}

/// Whether a request is authorized: it supplies a non-empty token equal to
/// the service's token.
pub fn authorized(header: Option<&str>, token: &str) -> (r: bool)
    ensures
        r == ({
            let s = supplied_token(
                match header {
                    Some(h) => Some(h@),
                    None => None,
                },
            );
            s.len() > 0 && s == token@
        }),
{
    let h = match header {
        Some(h) => chars_of(h),
        None => Vec::new(),
    };
    let supplied = match strip_prefix_chars(&h, &chars_of("Bearer ")) {
        Some(rest) => trim_chars(&rest),
        None => Vec::new(),
    };
    supplied.len() > 0 && chars_eq(&supplied, &chars_of(token))
}

/// Whether a service token is long enough: at least 16 bytes.
pub fn token_long_enough(token: &str) -> (r: bool)
    ensures
        r == (token.len() >= 16),
{
    token.len() >= 16
}

} // verus!
