use vstd::prelude::*;
use crate::digits::{digits_value, is_canonical_digits, parse_u64_range, spec_u64_digits};
use crate::errors::AuthError;
use crate::roles::Role;
use crate::secrets::SecretDomain;
use crate::token::{parse_and_verify, spec_verify};

verus! {

/// The guard in front of a protected route that expects `role`: a missing
/// bearer credential is rejected outright; a present one is verified under
/// the role's access secret, with every token failure merged into the same
/// rejection so nothing leaks; on success the subject must be a decimal
/// principal id, which is handed to the route.
pub fn authorize(
    role: Role,
    bearer: Option<&Vec<u8>>,
    now: u64,
    dom: &SecretDomain,
) -> (r: Result<u64, AuthError>)
    ensures
        bearer is None ==> r == Err::<u64, AuthError>(AuthError::Unauthenticated),
        bearer is Some ==> ({
            let v = spec_verify(dom.access(), role, now, bearer->0@);
            match r {
                Ok(id) => v is Ok && v->Ok_0.sub == spec_u64_digits(id as nat),
                Err(AuthError::Unauthenticated) => v is Err,
                Err(AuthError::MalformedSubject) => v is Ok && !(is_canonical_digits(v->Ok_0.sub)
                    && digits_value(v->Ok_0.sub) <= u64::MAX),
                Err(_) => false,
            }
        }),
{
    let token = match bearer {
        None => {
            return Err(AuthError::Unauthenticated);
        },
        Some(t) => t,
    };
    let claims = match parse_and_verify(dom.access_secret(), role, now, token) {
        Err(_) => {
            return Err(AuthError::Unauthenticated);
        },
        Ok(c) => c,
    };
    proof {
        assert(claims.sub@.subrange(0, claims.sub@.len() as int) =~= claims.sub@);
    }
    match parse_u64_range(&claims.sub, 0, claims.sub.len()) {
        None => Err(AuthError::MalformedSubject),
        Some(id) => Ok(id),
    }
}

} // verus!
