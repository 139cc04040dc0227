use vstd::prelude::*;
use crate::digits::{
    spec_u64_digits, is_digit, lemma_digits_canonical, lemma_digits_injective, parse_u64_range,
    scan_digits_end, u64_to_digits,
};
use crate::roles::{spec_role_name, Role};

verus! {

/// The mathematical model of a token's claims.
pub ghost struct ClaimsSpec {
    pub sub: Seq<u8>,
    pub role: Role,
    pub exp: u64,
    pub iat: u64,
}

/// The signed payload of a token: the subject (a principal id as text), the
/// role the token is scoped to, and the issue and expiry instants in unix
/// seconds.
pub struct Claims {
    pub sub: Vec<u8>,
    pub role: Role,
    pub exp: u64,
    pub iat: u64,
}

impl View for Claims {
    type V = ClaimsSpec;

    open spec fn view(&self) -> ClaimsSpec {
        ClaimsSpec { sub: self.sub@, role: self.role, exp: self.exp, iat: self.iat }
    }
}

/// Subject bytes that can stand inside a quoted JSON string without any
/// escaping: printable ASCII, no quote, no backslash.
pub open spec fn wf_sub(s: Seq<u8>) -> bool {
    forall|i: int| 0 <= i < s.len() ==> 32 <= #[trigger] s[i] < 127 && s[i] != 34 && s[i] != 92
}

/// A claims value the codec can round-trip.
pub open spec fn wf_claims(c: ClaimsSpec) -> bool {
    wf_sub(c.sub)
}

/// `{"sub":"`
pub open spec fn lit_sub_pre() -> Seq<u8> {
    seq![
        '{' as u8, '"' as u8, 's' as u8, 'u' as u8, 'b' as u8, '"' as u8, ':' as u8, '"' as u8,
    ]
}

/// `","role":"`
pub open spec fn lit_role_mid() -> Seq<u8> {
    seq![
        '"' as u8, ',' as u8, '"' as u8, 'r' as u8, 'o' as u8, 'l' as u8, 'e' as u8, '"' as u8,
        ':' as u8, '"' as u8,
    ]
}

/// `","exp":`
pub open spec fn lit_exp_mid() -> Seq<u8> {
    seq![
        '"' as u8, ',' as u8, '"' as u8, 'e' as u8, 'x' as u8, 'p' as u8, '"' as u8, ':' as u8,
    ]
}

/// `,"iat":`
pub open spec fn lit_iat_mid() -> Seq<u8> {
    seq![',' as u8, '"' as u8, 'i' as u8, 'a' as u8, 't' as u8, '"' as u8, ':' as u8]
}

/// The canonical JSON encoding of a claims value, exactly as the codec signs
/// it: `{"sub":"…","role":"…","exp":…,"iat":…}`.
pub open spec fn spec_payload(c: ClaimsSpec) -> Seq<u8> {
    lit_sub_pre() + c.sub + lit_role_mid() + spec_role_name(c.role) + lit_exp_mid()
        + spec_u64_digits(c.exp as nat) + lit_iat_mid() + spec_u64_digits(c.iat as nat)
        + seq!['}' as u8]
}

pub open spec fn sub_end(c: ClaimsSpec) -> int {
    8 + c.sub.len() as int
}

pub open spec fn role_start(c: ClaimsSpec) -> int {
    sub_end(c) + 10
}

pub open spec fn role_end(c: ClaimsSpec) -> int {
    role_start(c) + spec_role_name(c.role).len() as int
}

pub open spec fn exp_start(c: ClaimsSpec) -> int {
    role_end(c) + 8
}

pub open spec fn exp_end(c: ClaimsSpec) -> int {
    exp_start(c) + spec_u64_digits(c.exp as nat).len() as int
}

pub open spec fn iat_start(c: ClaimsSpec) -> int {
    exp_end(c) + 7
}

pub open spec fn iat_end(c: ClaimsSpec) -> int {
    iat_start(c) + spec_u64_digits(c.iat as nat).len() as int
}

/// Where each piece of the canonical encoding sits.
pub proof fn lemma_payload_segments(c: ClaimsSpec)
    ensures
        spec_payload(c).len() == iat_end(c) + 1,
        spec_payload(c).subrange(0, 8) == lit_sub_pre(),
        spec_payload(c).subrange(8, sub_end(c)) == c.sub,
        spec_payload(c).subrange(sub_end(c), sub_end(c) + 10) == lit_role_mid(),
        spec_payload(c).subrange(role_start(c), role_end(c)) == spec_role_name(c.role),
        spec_payload(c).subrange(role_end(c), role_end(c) + 8) == lit_exp_mid(),
        spec_payload(c).subrange(exp_start(c), exp_end(c)) == spec_u64_digits(c.exp as nat),
        spec_payload(c).subrange(exp_end(c), exp_end(c) + 7) == lit_iat_mid(),
        spec_payload(c).subrange(iat_start(c), iat_end(c)) == spec_u64_digits(c.iat as nat),
        spec_payload(c)[iat_end(c)] == 125,
        spec_payload(c)[sub_end(c)] == 34,
        spec_payload(c)[exp_end(c)] == 44,
{
    let p = spec_payload(c);
    assert(p.subrange(0, 8) =~= lit_sub_pre());
    assert(p.subrange(8, sub_end(c)) =~= c.sub);
    assert(p.subrange(sub_end(c), sub_end(c) + 10) =~= lit_role_mid());
    assert(p.subrange(role_start(c), role_end(c)) =~= spec_role_name(c.role));
    assert(p.subrange(role_end(c), role_end(c) + 8) =~= lit_exp_mid());
    assert(p.subrange(exp_start(c), exp_end(c)) =~= spec_u64_digits(c.exp as nat));
    assert(p.subrange(exp_end(c), exp_end(c) + 7) =~= lit_iat_mid());
    assert(p.subrange(iat_start(c), iat_end(c)) =~= spec_u64_digits(c.iat as nat));
    assert(p[iat_end(c)] == 125);
    assert(p[sub_end(c)] == p.subrange(sub_end(c), sub_end(c) + 10)[0]);
    assert(p[exp_end(c)] == p.subrange(exp_end(c), exp_end(c) + 7)[0]);
}

/// The subjects of two claims with the same canonical encoding agree: the
/// first quote at or after the fixed prefix closes the subject.
proof fn lemma_payload_inj_sub(c1: ClaimsSpec, c2: ClaimsSpec)
    requires
        wf_claims(c1),
        wf_claims(c2),
        spec_payload(c1) == spec_payload(c2),
    ensures
        c1.sub == c2.sub,
{
    let p = spec_payload(c1);
    lemma_payload_segments(c1);
    lemma_payload_segments(c2);
    assert(forall|k: int| 8 <= k < sub_end(c1) ==> #[trigger] p[k] != 34) by {
        assert(forall|i: int|
            0 <= i < c1.sub.len() ==> #[trigger] p.subrange(8, sub_end(c1))[i] == p[8 + i]);
    }
    assert(forall|k: int| 8 <= k < sub_end(c2) ==> #[trigger] p[k] != 34) by {
        assert(forall|i: int|
            0 <= i < c2.sub.len() ==> #[trigger] p.subrange(8, sub_end(c2))[i] == p[8 + i]);
    }
    assert(sub_end(c1) == sub_end(c2));
    assert(c1.sub =~= c2.sub);
}

/// The expiry digits of two claims with the same canonical encoding agree:
/// the digit run ends at the first non-digit.
proof fn lemma_payload_inj_exp(c1: ClaimsSpec, c2: ClaimsSpec)
    requires
        wf_claims(c1),
        wf_claims(c2),
        spec_payload(c1) == spec_payload(c2),
        c1.sub == c2.sub,
        c1.role == c2.role,
    ensures
        c1.exp == c2.exp,
{
    let p = spec_payload(c1);
    lemma_payload_segments(c1);
    lemma_payload_segments(c2);
    lemma_digits_canonical(c1.exp as nat);
    lemma_digits_canonical(c2.exp as nat);
    assert(forall|k: int|
        exp_start(c1) <= k < exp_end(c1) ==> is_digit(#[trigger] p[k])) by {
        assert(forall|i: int|
            0 <= i < spec_u64_digits(c1.exp as nat).len() ==> #[trigger] p.subrange(
                exp_start(c1),
                exp_end(c1),
            )[i] == p[exp_start(c1) + i]);
    }
    assert(forall|k: int|
        exp_start(c2) <= k < exp_end(c2) ==> is_digit(#[trigger] p[k])) by {
        assert(forall|i: int|
            0 <= i < spec_u64_digits(c2.exp as nat).len() ==> #[trigger] p.subrange(
                exp_start(c2),
                exp_end(c2),
            )[i] == p[exp_start(c2) + i]);
    }
    assert(p[exp_end(c1)] == 44);
    assert(p[exp_end(c2)] == 44);
    assert(exp_end(c1) == exp_end(c2));
    assert(spec_u64_digits(c1.exp as nat) == spec_u64_digits(c2.exp as nat));
    lemma_digits_injective(c1.exp as nat, c2.exp as nat);
}

/// The issue-time digits of two claims with the same canonical encoding
/// agree: the digit run ends at the closing brace.
proof fn lemma_payload_inj_iat(c1: ClaimsSpec, c2: ClaimsSpec)
    requires
        wf_claims(c1),
        wf_claims(c2),
        spec_payload(c1) == spec_payload(c2),
        c1.sub == c2.sub,
        c1.role == c2.role,
        c1.exp == c2.exp,
    ensures
        c1.iat == c2.iat,
{
    let p = spec_payload(c1);
    lemma_payload_segments(c1);
    lemma_payload_segments(c2);
    lemma_digits_canonical(c1.iat as nat);
    lemma_digits_canonical(c2.iat as nat);
    assert(forall|k: int|
        iat_start(c1) <= k < iat_end(c1) ==> is_digit(#[trigger] p[k])) by {
        assert(forall|i: int|
            0 <= i < spec_u64_digits(c1.iat as nat).len() ==> #[trigger] p.subrange(
                iat_start(c1),
                iat_end(c1),
            )[i] == p[iat_start(c1) + i]);
    }
    assert(forall|k: int|
        iat_start(c2) <= k < iat_end(c2) ==> is_digit(#[trigger] p[k])) by {
        assert(forall|i: int|
            0 <= i < spec_u64_digits(c2.iat as nat).len() ==> #[trigger] p.subrange(
                iat_start(c2),
                iat_end(c2),
            )[i] == p[iat_start(c2) + i]);
    }
    assert(p[iat_end(c1)] == 125);
    assert(p[iat_end(c2)] == 125);
    assert(iat_end(c1) == iat_end(c2));
    assert(spec_u64_digits(c1.iat as nat) == spec_u64_digits(c2.iat as nat));
    lemma_digits_injective(c1.iat as nat, c2.iat as nat);
}

/// The first byte of the role name inside the encoding.
proof fn lemma_payload_role_byte(c: ClaimsSpec)
    ensures
        spec_payload(c)[role_start(c)] == spec_role_name(c.role)[0],
{
    let p = spec_payload(c);
    assert(p.subrange(role_start(c), role_end(c)) =~= spec_role_name(c.role));
    assert(p.subrange(role_start(c), role_end(c))[0] == p[role_start(c)]);
}

/// The roles of two claims with the same canonical encoding and the same
/// subject agree: the role names start at the same place and begin with
/// different letters.
proof fn lemma_payload_inj_role(c1: ClaimsSpec, c2: ClaimsSpec)
    requires
        wf_claims(c1),
        wf_claims(c2),
        spec_payload(c1) == spec_payload(c2),
        c1.sub == c2.sub,
    ensures
        c1.role == c2.role,
{
    lemma_payload_role_byte(c1);
    lemma_payload_role_byte(c2);
    assert(role_start(c1) == role_start(c2));
    if c1.role != c2.role {
        assert(spec_role_name(Role::Adventurer)[0] == 'A' as u8);
        assert(spec_role_name(Role::GuildCommander)[0] == 'G' as u8);
        assert(false);
    }
}

/// The canonical encoding is injective on well-formed claims.
pub proof fn lemma_payload_injective(c1: ClaimsSpec, c2: ClaimsSpec)
    requires
        wf_claims(c1),
        wf_claims(c2),
        spec_payload(c1) == spec_payload(c2),
    ensures
        c1 == c2,
{
    lemma_payload_inj_sub(c1, c2);
    lemma_payload_inj_role(c1, c2);
    lemma_payload_inj_exp(c1, c2);
    lemma_payload_inj_iat(c1, c2);
}

/// Appends `src` to `dst`.
pub fn append_bytes(dst: &mut Vec<u8>, src: &Vec<u8>)
    ensures
        final (dst)@ == old(dst)@ + src@,
{
    let mut k: usize = 0;
    proof {
        assert(dst@ =~= old(dst)@ + src@.take(0));
    }
    while k < src.len()
        invariant
            k <= src@.len(),
            dst@ == old(dst)@ + src@.take(k as int),
        decreases src@.len() - k,
    {
        dst.push(src[k]);
        proof {
            assert(old(dst)@ + src@.take(k + 1) =~= (old(dst)@ + src@.take(k as int)).push(
                src@[k as int],
            ));
        }
        k = k + 1;
    }
    proof {
        assert(src@.take(src@.len() as int) =~= src@);
    }
}

fn lit_sub_pre_vec() -> (v: Vec<u8>)
    ensures
        v@ == lit_sub_pre(),
{
    let mut v: Vec<u8> = Vec::new();
    v.push('{' as u8);
    v.push('"' as u8);
    v.push('s' as u8);
    v.push('u' as u8);
    v.push('b' as u8);
    v.push('"' as u8);
    v.push(':' as u8);
    v.push('"' as u8);
    proof {
        assert(v@ =~= lit_sub_pre());
    }
    v
}

fn lit_role_mid_vec() -> (v: Vec<u8>)
    ensures
        v@ == lit_role_mid(),
{
    let mut v: Vec<u8> = Vec::new();
    v.push('"' as u8);
    v.push(',' as u8);
    v.push('"' as u8);
    v.push('r' as u8);
    v.push('o' as u8);
    v.push('l' as u8);
    v.push('e' as u8);
    v.push('"' as u8);
    v.push(':' as u8);
    v.push('"' as u8);
    proof {
        assert(v@ =~= lit_role_mid());
    }
    v
}

fn lit_exp_mid_vec() -> (v: Vec<u8>)
    ensures
        v@ == lit_exp_mid(),
{
    let mut v: Vec<u8> = Vec::new();
    v.push('"' as u8);
    v.push(',' as u8);
    v.push('"' as u8);
    v.push('e' as u8);
    v.push('x' as u8);
    v.push('p' as u8);
    v.push('"' as u8);
    v.push(':' as u8);
    proof {
        assert(v@ =~= lit_exp_mid());
    }
    v
}

fn lit_iat_mid_vec() -> (v: Vec<u8>)
    ensures
        v@ == lit_iat_mid(),
{
    let mut v: Vec<u8> = Vec::new();
    v.push(',' as u8);
    v.push('"' as u8);
    v.push('i' as u8);
    v.push('a' as u8);
    v.push('t' as u8);
    v.push('"' as u8);
    v.push(':' as u8);
    proof {
        assert(v@ =~= lit_iat_mid());
    }
    v
}

/// The canonical JSON encoding of `c`.
pub fn encode_payload(c: &Claims) -> (r: Vec<u8>)
    ensures
        r@ == spec_payload(c@),
{
    let mut out = lit_sub_pre_vec();
    append_bytes(&mut out, &c.sub);
    let role_mid = lit_role_mid_vec();
    append_bytes(&mut out, &role_mid);
    let name = c.role.name_bytes();
    append_bytes(&mut out, &name);
    let exp_mid = lit_exp_mid_vec();
    append_bytes(&mut out, &exp_mid);
    let exp_digits = u64_to_digits(c.exp);
    append_bytes(&mut out, &exp_digits);
    let iat_mid = lit_iat_mid_vec();
    append_bytes(&mut out, &iat_mid);
    let iat_digits = u64_to_digits(c.iat);
    append_bytes(&mut out, &iat_digits);
    out.push('}' as u8);
    proof {
        assert(out@ =~= spec_payload(c@));
    }
    out
}

/// Whether `b[i..]` starts with `pat`.
pub(crate) fn match_at(b: &Vec<u8>, i: usize, pat: &Vec<u8>) -> (r: bool)
    requires
        i <= b@.len(),
    ensures
        r == (i + pat@.len() <= b@.len() && b@.subrange(i as int, i + pat@.len()) == pat@),
{
    if b.len() - i < pat.len() {
        return false;
    }
    let mut k: usize = 0;
    while k < pat.len()
        invariant
            k <= pat@.len(),
            i + pat@.len() <= b@.len(),
            b@.len() <= usize::MAX,
            forall|t: int| 0 <= t < k ==> b@[i + t] == #[trigger] pat@[t],
        decreases pat@.len() - k,
    {
        if b[i + k] != pat[k] {
            proof {
                assert(b@.subrange(i as int, i + pat@.len())[k as int] == b@[i + k]);
            }
            return false;
        }
        k = k + 1;
    }
    proof {
        assert(b@.subrange(i as int, i + pat@.len()) =~= pat@);
    }
    true
}

/// The first quote character at or after `from`.
fn find_quote(b: &Vec<u8>, from: usize) -> (r: Option<usize>)
    requires
        from <= b@.len(),
    ensures
        match r {
            Some(q) => from <= q < b@.len() && b@[q as int] == 34 && forall|k: int|
                from <= k < q ==> #[trigger] b@[k] != 34,
            None => forall|k: int| from <= k < b@.len() ==> #[trigger] b@[k] != 34,
        },
{
    let mut i: usize = from;
    while i < b.len()
        invariant
            from <= i <= b@.len(),
            forall|k: int| from <= k < i ==> #[trigger] b@[k] != 34,
        decreases b@.len() - i,
    {
        if b[i] == 34 {
            return Some(i);
        }
        i = i + 1;
    }
    None
}

/// Whether two byte vectors hold the same bytes.
pub(crate) fn vecs_equal(a: &Vec<u8>, b: &Vec<u8>) -> (r: bool)
    ensures
        r == (a@ == b@),
{
    if a.len() != b.len() {
        return false;
    }
    let mut k: usize = 0;
    while k < a.len()
        invariant
            k <= a@.len() == b@.len(),
            forall|t: int| 0 <= t < k ==> a@[t] == #[trigger] b@[t],
        decreases a@.len() - k,
    {
        if a[k] != b[k] {
            return false;
        }
        k = k + 1;
    }
    proof {
        assert(a@ =~= b@);
    }
    true
}


/// A digit run that starts where the expiry digits start and stops at the
/// first non-digit stops exactly where the expiry digits end.
proof fn lemma_exp_run_end(b: Seq<u8>, c: ClaimsSpec, e_end: int)
    requires
        wf_claims(c),
        b == spec_payload(c),
        exp_start(c) <= e_end <= b.len(),
        forall|k: int| exp_start(c) <= k < e_end ==> is_digit(#[trigger] b[k]),
        e_end < b.len() ==> !is_digit(b[e_end]),
    ensures
        e_end == exp_end(c),
{
    lemma_payload_segments(c);
    lemma_digits_canonical(c.exp as nat);
    assert(forall|t: int|
        0 <= t < spec_u64_digits(c.exp as nat).len() ==> #[trigger] b.subrange(
            exp_start(c),
            exp_end(c),
        )[t] == b[exp_start(c) + t]);
    assert(b[exp_end(c)] == 44);
    assert(!is_digit(44));
}

/// Likewise for the issue-time digits, which stop at the closing brace.
proof fn lemma_iat_run_end(b: Seq<u8>, c: ClaimsSpec, a_end: int)
    requires
        wf_claims(c),
        b == spec_payload(c),
        iat_start(c) <= a_end <= b.len(),
        forall|k: int| iat_start(c) <= k < a_end ==> is_digit(#[trigger] b[k]),
        a_end < b.len() ==> !is_digit(b[a_end]),
    ensures
        a_end == iat_end(c),
{
    lemma_payload_segments(c);
    lemma_digits_canonical(c.iat as nat);
    assert(forall|t: int|
        0 <= t < spec_u64_digits(c.iat as nat).len() ==> #[trigger] b.subrange(
            iat_start(c),
            iat_end(c),
        )[t] == b[iat_start(c) + t]);
    assert(b[iat_end(c)] == 125);
    assert(!is_digit(125));
}

/// The pieces the parser collected pin the claims down: they must be the
/// encoded ones.
proof fn lemma_parsed_matches(b: Seq<u8>, c: ClaimsSpec, parsed: ClaimsSpec, e_end: int, a_end: int)
    requires
        wf_claims(c),
        b == spec_payload(c),
        parsed.sub == b.subrange(8, sub_end(c)),
        parsed.role == c.role,
        e_end == exp_end(c),
        a_end == iat_end(c),
        b.subrange(exp_start(c), e_end) == spec_u64_digits(parsed.exp as nat),
        b.subrange(iat_start(c), a_end) == spec_u64_digits(parsed.iat as nat),
    ensures
        parsed == c,
{
    lemma_payload_segments(c);
    assert(parsed.sub =~= c.sub);
    lemma_digits_injective(parsed.exp as nat, c.exp as nat);
    lemma_digits_injective(parsed.iat as nat, c.iat as nat);
}

/// Parses the canonical JSON encoding back into claims. Succeeds exactly on
/// the encodings of well-formed claims, and returns the claims encoded.
#[verifier::rlimit(100)]
pub fn parse_payload(b: &Vec<u8>) -> (r: Option<Claims>)
    ensures
        r is Some ==> wf_claims(r->0@) && b@ == spec_payload(r->0@),
        forall|c: ClaimsSpec| wf_claims(c) && b@ == spec_payload(c) ==> r is Some,
{
    proof {
        // Position arithmetic below stays inside `usize`.
        vstd::std_specs::vec::axiom_spec_len(b);
        assert(b@.len() <= usize::MAX);
    }
    let pre = lit_sub_pre_vec();
    if !match_at(b, 0, &pre) {
        proof {
            assert forall|c: ClaimsSpec| !(wf_claims(c) && b@ == spec_payload(c)) by {
                if wf_claims(c) && b@ == spec_payload(c) {
                    lemma_payload_segments(c);
                }
            }
        }
        return None;
    }
    let q_opt = find_quote(b, 8);
    if q_opt.is_none() {
        proof {
            assert forall|c: ClaimsSpec| !(wf_claims(c) && b@ == spec_payload(c)) by {
                if wf_claims(c) && b@ == spec_payload(c) {
                    lemma_payload_segments(c);
                    assert(b@[sub_end(c)] == 34);
                }
            }
        }
        return None;
    }
    let q = q_opt.unwrap();
    proof {
        assert forall|c: ClaimsSpec| wf_claims(c) && b@ == spec_payload(c) implies q == sub_end(
            c,
        ) by {
            lemma_payload_segments(c);
            assert(b@[sub_end(c)] == 34);
            assert(forall|k: int|
                0 <= k < c.sub.len() ==> #[trigger] b@.subrange(8, sub_end(c))[k] == b@[8 + k]);
            assert(forall|k: int| 8 <= k < sub_end(c) ==> #[trigger] b@[k] != 34);
        }
    }
    let mut sub: Vec<u8> = Vec::new();
    let mut k: usize = 8;
    while k < q
        invariant
            8 <= k <= q < b@.len(),
            sub@ == b@.subrange(8, k as int),
            wf_sub(sub@),
            forall|t: int| 8 <= t < q ==> #[trigger] b@[t] != 34,
        decreases q - k,
    {
        let ch = b[k];
        if ch < 32 || ch >= 127 || ch == 92 {
            proof {
                assert forall|c: ClaimsSpec| !(wf_claims(c) && b@ == spec_payload(c)) by {
                    if wf_claims(c) && b@ == spec_payload(c) {
                        lemma_payload_segments(c);
                        assert(b@.subrange(8, sub_end(c))[k - 8] == b@[k as int]);
                    }
                }
            }
            return None;
        }
        sub.push(ch);
        proof {
            assert(b@.subrange(8, k + 1) =~= b@.subrange(8, k as int).push(b@[k as int]));
        }
        k = k + 1;
    }
    // `","role":"` after the subject.
    let role_mid = lit_role_mid_vec();
    if !match_at(b, q, &role_mid) {
        proof {
            assert forall|c: ClaimsSpec| !(wf_claims(c) && b@ == spec_payload(c)) by {
                if wf_claims(c) && b@ == spec_payload(c) {
                    lemma_payload_segments(c);
                }
            }
        }
        return None;
    }
    let i2 = q + 10;
    let adv_name = Role::Adventurer.name_bytes();
    let gc_name = Role::GuildCommander.name_bytes();
    let role: Role;
    let role_len: usize;
    if match_at(b, i2, &adv_name) {
        role = Role::Adventurer;
        role_len = 10;
    } else if match_at(b, i2, &gc_name) {
        role = Role::GuildCommander;
        role_len = 14;
    } else {
        proof {
            assert forall|c: ClaimsSpec| !(wf_claims(c) && b@ == spec_payload(c)) by {
                if wf_claims(c) && b@ == spec_payload(c) {
                    lemma_payload_segments(c);
                }
            }
        }
        return None;
    }
    proof {
        assert forall|c: ClaimsSpec| wf_claims(c) && b@ == spec_payload(c) implies c.role == role
            && role_len == spec_role_name(c.role).len() by {
            lemma_payload_segments(c);
            if c.role != role {
                assert(b@.subrange(role_start(c), role_end(c))[0] == b@[role_start(c)]);
                assert(b@.subrange(i2 as int, i2 + spec_role_name(role).len())[0] == b@[i2 as int]);
                assert(spec_role_name(Role::Adventurer)[0] == 'A' as u8);
                assert(spec_role_name(Role::GuildCommander)[0] == 'G' as u8);
            }
        }
    }
    // `","exp":` then the expiry digits.
    let i3 = i2 + role_len;
    let exp_mid = lit_exp_mid_vec();
    if !match_at(b, i3, &exp_mid) {
        proof {
            assert forall|c: ClaimsSpec| !(wf_claims(c) && b@ == spec_payload(c)) by {
                if wf_claims(c) && b@ == spec_payload(c) {
                    lemma_payload_segments(c);
                }
            }
        }
        return None;
    }
    let i4 = i3 + 8;
    let e_end = scan_digits_end(b, i4);
    proof {
        assert forall|c: ClaimsSpec| wf_claims(c) && b@ == spec_payload(c) implies e_end == exp_end(
            c,
        ) by {
            assert(i4 == exp_start(c));
            lemma_exp_run_end(b@, c, e_end as int);
        }
    }
    let exp_opt = parse_u64_range(b, i4, e_end);
    if exp_opt.is_none() {
        proof {
            assert forall|c: ClaimsSpec| !(wf_claims(c) && b@ == spec_payload(c)) by {
                if wf_claims(c) && b@ == spec_payload(c) {
                    lemma_payload_segments(c);
                    lemma_digits_canonical(c.exp as nat);
                    assert(b@.subrange(i4 as int, e_end as int) == spec_u64_digits(c.exp as nat));
                }
            }
        }
        return None;
    }
    let exp = exp_opt.unwrap();
    // `,"iat":` then the issue-time digits.
    let iat_mid = lit_iat_mid_vec();
    if !match_at(b, e_end, &iat_mid) {
        proof {
            assert forall|c: ClaimsSpec| !(wf_claims(c) && b@ == spec_payload(c)) by {
                if wf_claims(c) && b@ == spec_payload(c) {
                    lemma_payload_segments(c);
                }
            }
        }
        return None;
    }
    let i5 = e_end + 7;
    let a_end = scan_digits_end(b, i5);
    proof {
        assert forall|c: ClaimsSpec| wf_claims(c) && b@ == spec_payload(c) implies a_end == iat_end(
            c,
        ) by {
            assert(i5 == iat_start(c));
            lemma_iat_run_end(b@, c, a_end as int);
        }
    }
    let iat_opt = parse_u64_range(b, i5, a_end);
    if iat_opt.is_none() {
        proof {
            assert forall|c: ClaimsSpec| !(wf_claims(c) && b@ == spec_payload(c)) by {
                if wf_claims(c) && b@ == spec_payload(c) {
                    lemma_payload_segments(c);
                    lemma_digits_canonical(c.iat as nat);
                    assert(b@.subrange(i5 as int, a_end as int) == spec_u64_digits(c.iat as nat));
                }
            }
        }
        return None;
    }
    let iat = iat_opt.unwrap();
    // The closing brace must be the last byte.
    if !(a_end < b.len() && b.len() - a_end == 1 && b[a_end] == 125) {
        proof {
            assert forall|c: ClaimsSpec| !(wf_claims(c) && b@ == spec_payload(c)) by {
                if wf_claims(c) && b@ == spec_payload(c) {
                    lemma_payload_segments(c);
                }
            }
        }
        return None;
    }
    let claims = Claims { sub, role, exp, iat };
    // The parse is strict: only the exact canonical encoding is accepted.
    let enc = encode_payload(&claims);
    if !vecs_equal(&enc, b) {
        proof {
            assert forall|c: ClaimsSpec| !(wf_claims(c) && b@ == spec_payload(c)) by {
                if wf_claims(c) && b@ == spec_payload(c) {
                    assert(i4 == exp_start(c) && i5 == iat_start(c));
                    lemma_parsed_matches(b@, c, claims@, e_end as int, a_end as int);
                }
            }
        }
        return None;
    }
    Some(claims)
}

} // verus!
