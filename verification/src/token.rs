use vstd::prelude::*;
use crate::base64url::{
    b64_decode, b64_encode, lemma_b64_chars_valid, lemma_b64_injective, spec_b64,
};
use crate::claims::{
    append_bytes, encode_payload, lemma_payload_injective, match_at, parse_payload, spec_payload,
    vecs_equal, wf_claims, Claims, ClaimsSpec,
};
use crate::errors::TokenError;
use crate::mac::{hmac_sha256, mac_of};
use crate::roles::Role;

verus! {

/// The fixed token header `{"alg":"HS256","typ":"JWT"}`.
pub open spec fn spec_header() -> Seq<u8> {
    seq![
        '{' as u8, '"' as u8, 'a' as u8, 'l' as u8, 'g' as u8, '"' as u8, ':' as u8, '"' as u8,
        'H' as u8, 'S' as u8, '2' as u8, '5' as u8, '6' as u8, '"' as u8, ',' as u8, '"' as u8,
        't' as u8, 'y' as u8, 'p' as u8, '"' as u8, ':' as u8, '"' as u8, 'J' as u8, 'W' as u8,
        'T' as u8, '"' as u8, '}' as u8,
    ]
}

fn header_vec() -> (v: Vec<u8>)
    ensures
        v@ == spec_header(),
{
    let mut v: Vec<u8> = Vec::new();
    v.push('{' as u8);
    v.push('"' as u8);
    v.push('a' as u8);
    v.push('l' as u8);
    v.push('g' as u8);
    v.push('"' as u8);
    v.push(':' as u8);
    v.push('"' as u8);
    v.push('H' as u8);
    v.push('S' as u8);
    v.push('2' as u8);
    v.push('5' as u8);
    v.push('6' as u8);
    v.push('"' as u8);
    v.push(',' as u8);
    v.push('"' as u8);
    v.push('t' as u8);
    v.push('y' as u8);
    v.push('p' as u8);
    v.push('"' as u8);
    v.push(':' as u8);
    v.push('"' as u8);
    v.push('J' as u8);
    v.push('W' as u8);
    v.push('T' as u8);
    v.push('"' as u8);
    v.push('}' as u8);
    proof {
        assert(v@ =~= spec_header());
    }
    v
}

/// What the signature is computed over: base64url(header), a dot,
/// base64url(payload).
pub open spec fn spec_signing_input(c: ClaimsSpec) -> Seq<u8> {
    spec_b64(spec_header()) + seq![46u8] + spec_b64(spec_payload(c))
}

/// A complete three-part token carrying claims `c` and signature bytes
/// `sig`: the signing input, a dot, base64url(sig).
pub open spec fn spec_assemble(c: ClaimsSpec, sig: Seq<u8>) -> Seq<u8> {
    spec_signing_input(c) + seq![46u8] + spec_b64(sig)
}

/// The token `issue` produces for claims `c` under `secret`.
pub open spec fn spec_token(secret: Seq<u8>, c: ClaimsSpec) -> Seq<u8> {
    spec_assemble(c, mac_of(secret, spec_signing_input(c)))
}

/// Whether a byte string decomposes into header, well-formed claims and a
/// signature at all.
pub open spec fn has_token_shape(t: Seq<u8>) -> bool {
    exists|c: ClaimsSpec, sig: Seq<u8>| wf_claims(c) && t == spec_assemble(c, sig)
}

/// The claims of a token that has the shape of one (unique by
/// `lemma_shape_unique`).
pub open spec fn shape_claims(t: Seq<u8>) -> ClaimsSpec {
    (choose|c: ClaimsSpec, sig: Seq<u8>| wf_claims(c) && t == spec_assemble(c, sig)).0
}

/// The signature bytes of a token that has the shape of one.
pub open spec fn shape_sig(t: Seq<u8>) -> Seq<u8> {
    (choose|c: ClaimsSpec, sig: Seq<u8>| wf_claims(c) && t == spec_assemble(c, sig)).1
}

/// The verdict on a token, checked under `secret` for a route that expects
/// `role`, at time `now`: the claims if the token is exactly an assembled
/// token whose signature is the tag of its own signing input, scoped to the
/// expected role, and not yet expired; otherwise the first failing check.
pub open spec fn spec_verify(secret: Seq<u8>, role: Role, now: u64, t: Seq<u8>) -> Result<
    ClaimsSpec,
    TokenError,
> {
    if !has_token_shape(t) {
        Err(TokenError::Malformed)
    } else if shape_sig(t) != mac_of(secret, spec_signing_input(shape_claims(t))) {
        Err(TokenError::BadSignature)
    } else if shape_claims(t).role != role {
        Err(TokenError::BadSignature)
    } else if now >= shape_claims(t).exp {
        Err(TokenError::Expired)
    } else {
        Ok(shape_claims(t))
    }
}

/// Where each part of an assembled token sits.
proof fn lemma_assemble_segments(c: ClaimsSpec, sig: Seq<u8>)
    ensures
        ({
            let t = spec_assemble(c, sig);
            let hl = spec_b64(spec_header()).len() as int;
            let pl = spec_b64(spec_payload(c)).len() as int;
            &&& t.len() == hl + 1 + pl + 1 + spec_b64(sig).len()
            &&& t.subrange(0, hl) == spec_b64(spec_header())
            &&& t[hl] == 46
            &&& t.subrange(hl + 1, hl + 1 + pl) == spec_b64(spec_payload(c))
            &&& t[hl + 1 + pl] == 46
            &&& t.subrange(hl + 2 + pl, t.len() as int) == spec_b64(sig)
            &&& forall|k: int| hl + 1 <= k < hl + 1 + pl ==> #[trigger] t[k] != 46
        }),
{
    let t = spec_assemble(c, sig);
    let hl = spec_b64(spec_header()).len() as int;
    let pl = spec_b64(spec_payload(c)).len() as int;
    assert(t.subrange(0, hl) =~= spec_b64(spec_header()));
    assert(t.subrange(hl + 1, hl + 1 + pl) =~= spec_b64(spec_payload(c)));
    assert(t.subrange(hl + 2 + pl, t.len() as int) =~= spec_b64(sig));
    lemma_b64_chars_valid(spec_payload(c));
    assert(forall|k: int|
        hl + 1 <= k < hl + 1 + pl ==> #[trigger] t[k] == spec_b64(spec_payload(c))[k - (hl + 1)]);
}

/// An assembled token decomposes in only one way.
pub proof fn lemma_assemble_injective(c1: ClaimsSpec, sig1: Seq<u8>, c2: ClaimsSpec, sig2: Seq<u8>)
    requires
        wf_claims(c1),
        wf_claims(c2),
        spec_assemble(c1, sig1) == spec_assemble(c2, sig2),
    ensures
        c1 == c2,
        sig1 == sig2,
{
    let t = spec_assemble(c1, sig1);
    let hl = spec_b64(spec_header()).len() as int;
    let pl1 = spec_b64(spec_payload(c1)).len() as int;
    let pl2 = spec_b64(spec_payload(c2)).len() as int;
    lemma_assemble_segments(c1, sig1);
    lemma_assemble_segments(c2, sig2);
    assert(t[hl + 1 + pl1] == 46);
    assert(t[hl + 1 + pl2] == 46);
    assert(pl1 == pl2);
    assert(spec_b64(spec_payload(c1)) == spec_b64(spec_payload(c2)));
    lemma_b64_injective(spec_payload(c1), spec_payload(c2));
    lemma_payload_injective(c1, c2);
    assert(spec_b64(sig1) == spec_b64(sig2));
    lemma_b64_injective(sig1, sig2);
}

/// A token built from well-formed claims has that shape, and nothing else.
pub proof fn lemma_shape_unique(t: Seq<u8>, c: ClaimsSpec, sig: Seq<u8>)
    requires
        wf_claims(c),
        t == spec_assemble(c, sig),
    ensures
        has_token_shape(t),
        shape_claims(t) == c,
        shape_sig(t) == sig,
{
    assert(wf_claims(c) && t == spec_assemble(c, sig));
    assert(has_token_shape(t));
    let (c2, s2) = choose|c2: ClaimsSpec, s2: Seq<u8>| wf_claims(c2) && t == spec_assemble(c2, s2);
    lemma_assemble_injective(c, sig, c2, s2);
}

/// Issues the signed token for `claims` under `secret`: the canonical
/// payload, signed with HMAC-SHA-256 over the dotted base64url parts.
pub fn issue(secret: &Vec<u8>, claims: &Claims) -> (r: Vec<u8>)
    ensures
        r@ == spec_token(secret@, claims@),
{
    let header = header_vec();
    let h64 = b64_encode(&header);
    let payload = encode_payload(claims);
    let p64 = b64_encode(&payload);
    let mut input = h64;
    input.push(46);
    append_bytes(&mut input, &p64);
    proof {
        assert(input@ =~= spec_signing_input(claims@));
    }
    let tag = hmac_sha256(secret, &input);
    let s64 = b64_encode(&tag);
    let mut out = input;
    out.push(46);
    append_bytes(&mut out, &s64);
    proof {
        assert(out@ =~= spec_token(secret@, claims@));
    }
    out
}

/// The first dot at or after `from`.
fn find_dot(b: &Vec<u8>, from: usize) -> (r: Option<usize>)
    requires
        from <= b@.len(),
    ensures
        match r {
            Some(d) => from <= d < b@.len() && b@[d as int] == 46 && forall|k: int|
                from <= k < d ==> #[trigger] b@[k] != 46,
            None => forall|k: int| from <= k < b@.len() ==> #[trigger] b@[k] != 46,
        },
{
    let mut i: usize = from;
    while i < b.len()
        invariant
            from <= i <= b@.len(),
            forall|k: int| from <= k < i ==> #[trigger] b@[k] != 46,
        decreases b@.len() - i,
    {
        if b[i] == 46 {
            return Some(i);
        }
        i = i + 1;
    }
    None
}

/// A copy of `b[from..to]`.
fn sub_vec(b: &Vec<u8>, from: usize, to: usize) -> (r: Vec<u8>)
    requires
        from <= to <= b@.len(),
    ensures
        r@ == b@.subrange(from as int, to as int),
{
    let mut out: Vec<u8> = Vec::new();
    let mut k: usize = from;
    while k < to
        invariant
            from <= k <= to <= b@.len(),
            out@ == b@.subrange(from as int, k as int),
        decreases to - k,
    {
        out.push(b[k]);
        proof {
            assert(b@.subrange(from as int, k + 1) =~= b@.subrange(from as int, k as int).push(
                b@[k as int],
            ));
        }
        k = k + 1;
    }
    out
}

/// Parses and verifies a token under `secret` for a route expecting
/// `expected_role` at time `now`, per `spec_verify`: `Malformed` when the
/// token is not an assembled token at all, `BadSignature` when the signature
/// or the role scope is wrong, `Expired` when `now` is at or past the
/// embedded expiry, and the claims otherwise.
#[verifier::rlimit(100)]
pub fn parse_and_verify(secret: &Vec<u8>, expected_role: Role, now: u64, token: &Vec<u8>) -> (r:
    Result<Claims, TokenError>)
    ensures
        match r {
            Ok(c) => spec_verify(secret@, expected_role, now, token@) == Ok::<
                ClaimsSpec,
                TokenError,
            >(c@),
            Err(e) => spec_verify(secret@, expected_role, now, token@) == Err::<
                ClaimsSpec,
                TokenError,
            >(e),
        },
{
    let header = header_vec();
    let h64 = b64_encode(&header);
    let hl = h64.len();
    if !(match_at(token, 0, &h64) && hl < token.len() && token[hl] == 46) {
        proof {
            assert forall|c: ClaimsSpec, sig: Seq<u8>|
                !(wf_claims(c) && token@ == spec_assemble(c, sig)) by {
                if wf_claims(c) && token@ == spec_assemble(c, sig) {
                    lemma_assemble_segments(c, sig);
                }
            }
            assert(!has_token_shape(token@));
        }
        return Err(TokenError::Malformed);
    }
    let d2_opt = find_dot(token, hl + 1);
    if d2_opt.is_none() {
        proof {
            assert forall|c: ClaimsSpec, sig: Seq<u8>|
                !(wf_claims(c) && token@ == spec_assemble(c, sig)) by {
                if wf_claims(c) && token@ == spec_assemble(c, sig) {
                    lemma_assemble_segments(c, sig);
                    let pl = spec_b64(spec_payload(c)).len() as int;
                    assert(token@[hl + 1 + pl] == 46);
                }
            }
            assert(!has_token_shape(token@));
        }
        return Err(TokenError::Malformed);
    }
    let d2 = d2_opt.unwrap();
    proof {
        assert forall|c: ClaimsSpec, sig: Seq<u8>|
            wf_claims(c) && token@ == spec_assemble(c, sig) implies d2 == hl + 1 + spec_b64(
            spec_payload(c),
        ).len() by {
            lemma_assemble_segments(c, sig);
            let pl = spec_b64(spec_payload(c)).len() as int;
            assert(token@[hl + 1 + pl] == 46);
        }
    }
    let mid = sub_vec(token, hl + 1, d2);
    let pay_opt = b64_decode(&mid);
    if pay_opt.is_none() {
        proof {
            assert forall|c: ClaimsSpec, sig: Seq<u8>|
                !(wf_claims(c) && token@ == spec_assemble(c, sig)) by {
                if wf_claims(c) && token@ == spec_assemble(c, sig) {
                    lemma_assemble_segments(c, sig);
                    assert(mid@ == spec_b64(spec_payload(c)));
                }
            }
            assert(!has_token_shape(token@));
        }
        return Err(TokenError::Malformed);
    }
    let pay = pay_opt.unwrap();
    let claims_opt = parse_payload(&pay);
    if claims_opt.is_none() {
        proof {
            assert forall|c: ClaimsSpec, sig: Seq<u8>|
                !(wf_claims(c) && token@ == spec_assemble(c, sig)) by {
                if wf_claims(c) && token@ == spec_assemble(c, sig) {
                    lemma_assemble_segments(c, sig);
                    assert(mid@ == spec_b64(spec_payload(c)));
                    lemma_b64_injective(pay@, spec_payload(c));
                }
            }
            assert(!has_token_shape(token@));
        }
        return Err(TokenError::Malformed);
    }
    let claims = claims_opt.unwrap();
    let tail = sub_vec(token, d2 + 1, token.len());
    let sig_opt = b64_decode(&tail);
    if sig_opt.is_none() {
        proof {
            assert forall|c: ClaimsSpec, sig: Seq<u8>|
                !(wf_claims(c) && token@ == spec_assemble(c, sig)) by {
                if wf_claims(c) && token@ == spec_assemble(c, sig) {
                    lemma_assemble_segments(c, sig);
                    assert(tail@ =~= spec_b64(sig));
                }
            }
            assert(!has_token_shape(token@));
        }
        return Err(TokenError::Malformed);
    }
    let sig = sig_opt.unwrap();
    proof {
        assert(token@ =~= spec_assemble(claims@, sig@));
        lemma_shape_unique(token@, claims@, sig@);
    }
    let input = sub_vec(token, 0, d2);
    proof {
        assert(input@ =~= spec_signing_input(claims@));
    }
    let tag = hmac_sha256(secret, &input);
    if !vecs_equal(&tag, &sig) {
        return Err(TokenError::BadSignature);
    }
    if !(claims.role == expected_role) {
        return Err(TokenError::BadSignature);
    }
    if now >= claims.exp {
        return Err(TokenError::Expired);
    }
    Ok(claims)
}

/// A token issued for well-formed claims under a secret verifies under the
/// same secret, for the role it carries, at any time before its expiry, and
/// yields exactly the claims that were signed.
pub proof fn lemma_issue_verify_round_trip(secret: Seq<u8>, now: u64, c: ClaimsSpec)
    requires
        wf_claims(c),
        now < c.exp,
    ensures
        spec_verify(secret, c.role, now, spec_token(secret, c)) == Ok::<ClaimsSpec, TokenError>(c),
{
    lemma_shape_unique(spec_token(secret, c), c, mac_of(secret, spec_signing_input(c)));
}

/// A token whose expiry is at or before `now` is rejected as expired even
/// under the right secret and role: a valid signature does not save it.
pub proof fn lemma_expired_token_rejected(secret: Seq<u8>, now: u64, c: ClaimsSpec)
    requires
        wf_claims(c),
        now >= c.exp,
    ensures
        spec_verify(secret, c.role, now, spec_token(secret, c)) == Err::<ClaimsSpec, TokenError>(
            TokenError::Expired,
        ),
{
    lemma_shape_unique(spec_token(secret, c), c, mac_of(secret, spec_signing_input(c)));
}

/// Domain separation: a token signed under one secret is accepted under
/// another only if the two secrets' tags collide on its signing input; when
/// the tags differ, verification fails on the signature, whatever the claims
/// say.
pub proof fn lemma_cross_domain_rejected(
    secret_a: Seq<u8>,
    secret_b: Seq<u8>,
    role: Role,
    now: u64,
    c: ClaimsSpec,
)
    requires
        wf_claims(c),
    ensures
        spec_verify(secret_b, role, now, spec_token(secret_a, c)) is Ok ==> mac_of(
            secret_b,
            spec_signing_input(c),
        ) == mac_of(secret_a, spec_signing_input(c)),
        mac_of(secret_b, spec_signing_input(c)) != mac_of(secret_a, spec_signing_input(c))
            ==> spec_verify(secret_b, role, now, spec_token(secret_a, c)) == Err::<
            ClaimsSpec,
            TokenError,
        >(TokenError::BadSignature),
{
    lemma_shape_unique(spec_token(secret_a, c), c, mac_of(secret_a, spec_signing_input(c)));
}

} // verus!
