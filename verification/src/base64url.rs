use vstd::prelude::*;
use vstd::arithmetic::div_mod::lemma_div_is_ordered;

verus! {

/// The unpadded base64url alphabet: the character for a six-bit value.
pub open spec fn b64_char(v: int) -> u8 {
    if 0 <= v < 26 {
        (65 + v) as u8  // 'A'..'Z'

    } else if 26 <= v < 52 {
        (71 + v) as u8  // 'a'..'z'

    } else if 52 <= v < 62 {
        (v - 4) as u8  // '0'..'9'

    } else if v == 62 {
        45u8  // '-'

    } else {
        95u8  // '_'

    }
}

pub open spec fn is_b64_char(c: u8) -> bool {
    (65 <= c <= 90) || (97 <= c <= 122) || (48 <= c <= 57) || c == 45 || c == 95
}

/// The six-bit value of an alphabet character.
pub open spec fn b64_val(c: u8) -> int {
    if 65 <= c <= 90 {
        c - 65
    } else if 97 <= c <= 122 {
        c - 97 + 26
    } else if 48 <= c <= 57 {
        c - 48 + 52
    } else if c == 45 {
        62
    } else {
        63
    }
}

pub proof fn lemma_b64_char_val(v: int)
    requires
        0 <= v < 64,
    ensures
        is_b64_char(b64_char(v)),
        b64_val(b64_char(v)) == v,
        b64_char(v) != 46,
{
}

pub proof fn lemma_b64_val_char(c: u8)
    requires
        is_b64_char(c),
    ensures
        0 <= b64_val(c) < 64,
        b64_char(b64_val(c)) == c,
{
}

/// The two characters encoding a final single byte.
pub open spec fn enc1(x0: int) -> Seq<u8> {
    seq![b64_char(x0 / 4), b64_char((x0 % 4) * 16)]
}

/// The three characters encoding a final pair of bytes.
pub open spec fn enc2(x0: int, x1: int) -> Seq<u8> {
    seq![b64_char(x0 / 4), b64_char((x0 % 4) * 16 + x1 / 16), b64_char((x1 % 16) * 4)]
}

/// The four characters encoding a full group of three bytes.
pub open spec fn enc3(x0: int, x1: int, x2: int) -> Seq<u8> {
    seq![
        b64_char(x0 / 4),
        b64_char((x0 % 4) * 16 + x1 / 16),
        b64_char((x1 % 16) * 4 + x2 / 64),
        b64_char(x2 % 64),
    ]
}

/// Unpadded base64url encoding: three bytes to four characters, a final
/// single byte to two, a final pair to three, with unused low bits zero.
pub open spec fn spec_b64(s: Seq<u8>) -> Seq<u8>
    decreases s.len(),
{
    if s.len() == 0 {
        Seq::<u8>::empty()
    } else if s.len() == 1 {
        enc1(s[0] as int)
    } else if s.len() == 2 {
        enc2(s[0] as int, s[1] as int)
    } else {
        enc3(s[0] as int, s[1] as int, s[2] as int) + spec_b64(s.skip(3))
    }
}

/// The byte length that an encoding of length `m` must have come from.
pub open spec fn b64_decoded_len(m: int) -> int {
    (m / 4) * 3 + (if m % 4 == 0 {
        0int
    } else if m % 4 == 2 {
        1int
    } else {
        2int
    })
}

/// Length of the encoding, and that the input length is recoverable from it.
/// The encoding of any sequence never has length 1 modulo 4.
pub proof fn lemma_b64_len(s: Seq<u8>)
    ensures
        spec_b64(s).len() == (s.len() / 3) * 4 + (if s.len() % 3 == 0 {
            0int
        } else if s.len() % 3 == 1 {
            2int
        } else {
            3int
        }),
        spec_b64(s).len() % 4 != 1,
        b64_decoded_len(spec_b64(s).len() as int) == s.len(),
    decreases s.len(),
{
    if s.len() >= 3 {
        lemma_b64_len(s.skip(3));
        assert(s.skip(3).len() == s.len() - 3);
        let n = s.len() as int;
        assert(n / 3 == (n - 3) / 3 + 1 && n % 3 == (n - 3) % 3) by (nonlinear_arith)
            requires
                n >= 3,
        ;
        let m = spec_b64(s).len() as int;
        let m0 = spec_b64(s.skip(3)).len() as int;
        assert(m == m0 + 4);
        assert(m / 4 == m0 / 4 + 1 && m % 4 == m0 % 4) by (nonlinear_arith)
            requires
                m == m0 + 4,
                m0 >= 0,
        ;
    }
}

/// Every character of an encoding is an alphabet character (and so never a
/// dot).
pub proof fn lemma_b64_chars_valid(s: Seq<u8>)
    ensures
        forall|k: int|
            0 <= k < spec_b64(s).len() ==> is_b64_char(#[trigger] spec_b64(s)[k]) && spec_b64(s)[k]
                != 46,
    decreases s.len(),
{
    if s.len() == 0 {
    } else if s.len() == 1 {
        lemma_b64_char_val(s[0] as int / 4);
        lemma_b64_char_val((s[0] as int % 4) * 16);
        assert(spec_b64(s) == enc1(s[0] as int));
    } else if s.len() == 2 {
        lemma_b64_char_val(s[0] as int / 4);
        lemma_b64_char_val((s[0] as int % 4) * 16 + s[1] as int / 16);
        lemma_b64_char_val((s[1] as int % 16) * 4);
        assert(spec_b64(s) == enc2(s[0] as int, s[1] as int));
    } else {
        lemma_b64_chars_valid(s.skip(3));
        lemma_b64_char_val(s[0] as int / 4);
        lemma_b64_char_val((s[0] as int % 4) * 16 + s[1] as int / 16);
        lemma_b64_char_val((s[1] as int % 16) * 4 + s[2] as int / 64);
        lemma_b64_char_val(s[2] as int % 64);
        let e = enc3(s[0] as int, s[1] as int, s[2] as int);
        assert(spec_b64(s) == e + spec_b64(s.skip(3)));
        assert forall|k: int| 0 <= k < spec_b64(s).len() implies is_b64_char(
            #[trigger] spec_b64(s)[k],
        ) && spec_b64(s)[k] != 46 by {
            if k < 4 {
                assert(spec_b64(s)[k] == e[k]);
            } else {
                assert(spec_b64(s)[k] == spec_b64(s.skip(3))[k - 4]);
            }
        }
    }
}

/// Splitting the input at a multiple of three splits the encoding.
pub proof fn lemma_b64_append(s: Seq<u8>, i: int)
    requires
        0 <= i <= s.len(),
        i % 3 == 0,
    ensures
        spec_b64(s) == spec_b64(s.take(i)) + spec_b64(s.skip(i)),
    decreases i,
{
    if i == 0 {
        assert(s.take(0) =~= Seq::<u8>::empty());
        assert(s.skip(0) =~= s);
        assert(spec_b64(s) =~= spec_b64(s.take(0)) + spec_b64(s.skip(0)));
    } else {
        assert(i >= 3);
        assert(s.len() >= 3);
        lemma_b64_append(s.skip(3), i - 3);
        let t = s.take(i);
        assert(t.len() == i >= 3);
        assert(t[0] == s[0] && t[1] == s[1] && t[2] == s[2]);
        assert(t.skip(3) =~= s.skip(3).take(i - 3));
        assert(s.skip(3).skip(i - 3) =~= s.skip(i));
        assert(spec_b64(s) =~= spec_b64(s.take(i)) + spec_b64(s.skip(i)));
    }
}

/// Encoding is injective.
pub proof fn lemma_b64_injective(a: Seq<u8>, b: Seq<u8>)
    requires
        spec_b64(a) == spec_b64(b),
    ensures
        a == b,
    decreases a.len(),
{
    lemma_b64_len(a);
    lemma_b64_len(b);
    assert(a.len() == b.len());
    if a.len() == 0 {
        assert(a =~= b);
    } else if a.len() == 1 {
        assert(enc1(a[0] as int) == enc1(b[0] as int));
        lemma_b64_chunk_eq1(a[0] as int, b[0] as int);
        assert(a[0] == b[0]);
        assert(a =~= b);
    } else if a.len() == 2 {
        assert(enc2(a[0] as int, a[1] as int) == enc2(b[0] as int, b[1] as int));
        lemma_b64_chunk_eq2(a[0] as int, a[1] as int, b[0] as int, b[1] as int);
        assert(a[0] == b[0] && a[1] == b[1]);
        assert(a =~= b);
    } else {
        let ea = spec_b64(a);
        let eb = spec_b64(b);
        assert(ea[0] == eb[0] && ea[1] == eb[1] && ea[2] == eb[2] && ea[3] == eb[3]);
        assert(enc3(a[0] as int, a[1] as int, a[2] as int) =~= enc3(
            b[0] as int,
            b[1] as int,
            b[2] as int,
        ));
        lemma_b64_chunk_eq3(a[0] as int, a[1] as int, a[2] as int, b[0] as int, b[1] as int, b[2] as int);
        assert(a[0] == b[0] && a[1] == b[1] && a[2] == b[2]);
        assert(spec_b64(a.skip(3)) =~= ea.skip(4));
        assert(spec_b64(b.skip(3)) =~= eb.skip(4));
        lemma_b64_injective(a.skip(3), b.skip(3));
        assert(forall|k: int|
            3 <= k < a.len() ==> #[trigger] a[k] == a.skip(3)[k - 3] && b[k] == b.skip(3)[k - 3]);
        assert(a =~= b);
    }
}

proof fn lemma_b64_chunk_eq1(x: int, y: int)
    requires
        0 <= x < 256,
        0 <= y < 256,
        enc1(x) == enc1(y),
    ensures
        x == y,
{
    assert(enc1(x)[0] == enc1(y)[0] && enc1(x)[1] == enc1(y)[1]);
    lemma_b64_char_val(x / 4);
    lemma_b64_char_val(y / 4);
    lemma_b64_char_val((x % 4) * 16);
    lemma_b64_char_val((y % 4) * 16);
}

proof fn lemma_b64_chunk_eq2(x0: int, x1: int, y0: int, y1: int)
    requires
        0 <= x0 < 256,
        0 <= x1 < 256,
        0 <= y0 < 256,
        0 <= y1 < 256,
        enc2(x0, x1) == enc2(y0, y1),
    ensures
        x0 == y0,
        x1 == y1,
{
    assert(enc2(x0, x1)[0] == enc2(y0, y1)[0] && enc2(x0, x1)[1] == enc2(y0, y1)[1] && enc2(x0, x1)[2]
        == enc2(y0, y1)[2]);
    lemma_b64_char_val(x0 / 4);
    lemma_b64_char_val(y0 / 4);
    lemma_b64_char_val((x0 % 4) * 16 + x1 / 16);
    lemma_b64_char_val((y0 % 4) * 16 + y1 / 16);
    lemma_b64_char_val((x1 % 16) * 4);
    lemma_b64_char_val((y1 % 16) * 4);
}

proof fn lemma_b64_chunk_eq3(x0: int, x1: int, x2: int, y0: int, y1: int, y2: int)
    requires
        0 <= x0 < 256,
        0 <= x1 < 256,
        0 <= x2 < 256,
        0 <= y0 < 256,
        0 <= y1 < 256,
        0 <= y2 < 256,
        enc3(x0, x1, x2) == enc3(y0, y1, y2),
    ensures
        x0 == y0,
        x1 == y1,
        x2 == y2,
{
    assert(enc3(x0, x1, x2)[0] == enc3(y0, y1, y2)[0] && enc3(x0, x1, x2)[1] == enc3(y0, y1, y2)[1]
        && enc3(x0, x1, x2)[2] == enc3(y0, y1, y2)[2] && enc3(x0, x1, x2)[3] == enc3(y0, y1, y2)[3]);
    lemma_b64_char_val(x0 / 4);
    lemma_b64_char_val(y0 / 4);
    lemma_b64_char_val((x0 % 4) * 16 + x1 / 16);
    lemma_b64_char_val((y0 % 4) * 16 + y1 / 16);
    lemma_b64_char_val((x1 % 16) * 4 + x2 / 64);
    lemma_b64_char_val((y1 % 16) * 4 + y2 / 64);
    lemma_b64_char_val(x2 % 64);
    lemma_b64_char_val(y2 % 64);
}

/// The alphabet character for a six-bit value.
fn b64_char_exec(v: u8) -> (r: u8)
    requires
        v < 64,
    ensures
        r == b64_char(v as int),
{
    if v < 26 {
        65 + v
    } else if v < 52 {
        71 + v
    } else if v < 62 {
        v - 4
    } else if v == 62 {
        45
    } else {
        95
    }
}

/// The six-bit value of a character, or `None` outside the alphabet.
fn b64_val_exec(c: u8) -> (r: Option<u8>)
    ensures
        (r is Some) == is_b64_char(c),
        r is Some ==> r->0 == b64_val(c) && r->0 < 64,
{
    if 65 <= c && c <= 90 {
        Some(c - 65)
    } else if 97 <= c && c <= 122 {
        Some(c - 97 + 26)
    } else if 48 <= c && c <= 57 {
        Some(c - 48 + 52)
    } else if c == 45 {
        Some(62)
    } else if c == 95 {
        Some(63)
    } else {
        None
    }
}

/// Unpadded base64url encoding of a byte vector.
pub fn b64_encode(s: &Vec<u8>) -> (r: Vec<u8>)
    ensures
        r@ == spec_b64(s@),
{
    let mut out: Vec<u8> = Vec::new();
    let mut i: usize = 0;
    proof {
        assert(s@.skip(0) =~= s@);
        assert(spec_b64(s@) =~= Seq::<u8>::empty() + spec_b64(s@.skip(0)));
    }
    while s.len() - i >= 3
        invariant
            i % 3 == 0,
            i <= s@.len(),
            spec_b64(s@) == out@ + spec_b64(s@.skip(i as int)),
        decreases s@.len() - i,
    {
        let b0 = s[i];
        let b1 = s[i + 1];
        let b2 = s[i + 2];
        proof {
            let rest = s@.skip(i as int);
            assert(rest.len() >= 3);
            assert(rest[0] == b0 && rest[1] == b1 && rest[2] == b2);
            assert(rest.skip(3) =~= s@.skip(i + 3));
        }
        out.push(b64_char_exec(b0 / 4));
        out.push(b64_char_exec((b0 % 4) * 16 + b1 / 16));
        out.push(b64_char_exec((b1 % 16) * 4 + b2 / 64));
        out.push(b64_char_exec(b2 % 64));
        proof {
            assert(spec_b64(s@) =~= out@ + spec_b64(s@.skip(i + 3)));
        }
        i = i + 3;
    }
    if s.len() - i == 1 {
        let b0 = s[i];
        proof {
            let rest = s@.skip(i as int);
            assert(rest.len() == 1);
            assert(rest[0] == b0);
        }
        out.push(b64_char_exec(b0 / 4));
        out.push(b64_char_exec((b0 % 4) * 16));
        proof {
            assert(out@ =~= spec_b64(s@));
        }
    } else if s.len() - i == 2 {
        let b0 = s[i];
        let b1 = s[i + 1];
        proof {
            let rest = s@.skip(i as int);
            assert(rest.len() == 2);
            assert(rest[0] == b0 && rest[1] == b1);
        }
        out.push(b64_char_exec(b0 / 4));
        out.push(b64_char_exec((b0 % 4) * 16 + b1 / 16));
        out.push(b64_char_exec((b1 % 16) * 4));
        proof {
            assert(out@ =~= spec_b64(s@));
        }
    } else {
        proof {
            assert(s@.skip(i as int).len() == 0);
            assert(spec_b64(s@.skip(i as int)) =~= Seq::<u8>::empty());
            assert(out@ =~= spec_b64(s@));
        }
    }
    out
}

/// Strict unpadded base64url decoding: succeeds exactly on the encodings
/// that `spec_b64` produces, and returns the unique preimage.
#[verifier::rlimit(80)]
pub fn b64_decode(s: &Vec<u8>) -> (r: Option<Vec<u8>>)
    ensures
        r is Some ==> s@ == spec_b64(r->0@),
        forall|b: Seq<u8>| s@ == spec_b64(b) ==> r is Some,
{
    let n = s.len();
    if n % 4 == 1 {
        proof {
            assert forall|b: Seq<u8>| s@ != spec_b64(b) by {
                lemma_b64_len(b);
            }
        }
        return None;
    }
    let mut out: Vec<u8> = Vec::new();
    let mut i: usize = 0;
    proof {
        assert(s@.take(0) =~= Seq::<u8>::empty());
        assert(spec_b64(Seq::<u8>::empty()) =~= Seq::<u8>::empty());
    }
    while n - i >= 4
        invariant
            i % 4 == 0,
            i <= n == s@.len(),
            n % 4 != 1,
            out@.len() == i / 4 * 3,
            spec_b64(out@) == s@.take(i as int),
        decreases n - i,
    {
        let c0 = b64_val_exec(s[i]);
        let c1 = b64_val_exec(s[i + 1]);
        let c2 = b64_val_exec(s[i + 2]);
        let c3 = b64_val_exec(s[i + 3]);
        if c0.is_none() || c1.is_none() || c2.is_none() || c3.is_none() {
            proof {
                lemma_decode_stuck_invalid(s@, out@, i as int);
            }
            return None;
        }
        let v0 = c0.unwrap();
        let v1 = c1.unwrap();
        let v2 = c2.unwrap();
        let v3 = c3.unwrap();
        let x0: u8 = v0 * 4 + v1 / 16;
        let x1: u8 = (v1 % 16) * 16 + v2 / 4;
        let x2: u8 = (v2 % 4) * 64 + v3;
        proof {
            lemma_decode_group(v0 as int, v1 as int, v2 as int, v3 as int);
        }
        let ghost old_out = out@;
        out.push(x0);
        out.push(x1);
        out.push(x2);
        proof {
            assert(old_out.len() % 3 == 0) by (nonlinear_arith)
                requires
                    old_out.len() == i / 4 * 3,
                    i >= 0,
            ;
            lemma_b64_append(out@, old_out.len() as int);
            assert(old_out =~= out@.take(old_out.len() as int));
            let tail = out@.skip(old_out.len() as int);
            assert(tail =~= seq![x0, x1, x2]);
            assert(tail.skip(3) =~= Seq::<u8>::empty());
            assert(spec_b64(Seq::<u8>::empty()) =~= Seq::<u8>::empty());
            assert(spec_b64(tail) =~= enc3(x0 as int, x1 as int, x2 as int));
            assert(b64_char(b64_val(s@[i as int])) == s@[i as int]) by {
                lemma_b64_val_char(s@[i as int]);
            }
            assert(b64_char(b64_val(s@[i + 1])) == s@[i + 1]) by {
                lemma_b64_val_char(s@[i + 1]);
            }
            assert(b64_char(b64_val(s@[i + 2])) == s@[i + 2]) by {
                lemma_b64_val_char(s@[i + 2]);
            }
            assert(b64_char(b64_val(s@[i + 3])) == s@[i + 3]) by {
                lemma_b64_val_char(s@[i + 3]);
            }
            assert(spec_b64(out@) =~= s@.take(i + 4));
            assert(out@.len() == (i + 4) / 4 * 3) by (nonlinear_arith)
                requires
                    out@.len() == i / 4 * 3 + 3,
                    i % 4 == 0,
                    i >= 0,
            ;
        }
        i = i + 4;
    }
    if i == n {
        proof {
            assert(s@.take(n as int) =~= s@);
        }
        return Some(out);
    }
    // A tail of two or three characters remains (one is ruled out above).
    proof {
        assert((n - i) % 4 == n % 4) by (nonlinear_arith)
            requires
                i % 4 == 0,
                0 <= i <= n,
        ;
        assert(n - i == 2 || n - i == 3);
    }
    let c0 = b64_val_exec(s[i]);
    let c1 = b64_val_exec(s[i + 1]);
    if c0.is_none() || c1.is_none() {
        proof {
            lemma_decode_stuck_invalid(s@, out@, i as int);
        }
        return None;
    }
    let v0 = c0.unwrap();
    let v1 = c1.unwrap();
    if n - i == 2 {
        if v1 % 16 != 0 {
            proof {
                lemma_decode_stuck_tail2(s@, out@, i as int);
            }
            return None;
        }
        let x0: u8 = v0 * 4 + v1 / 16;
        let ghost old_out = out@;
        out.push(x0);
        proof {
            assert(old_out.len() % 3 == 0) by (nonlinear_arith)
                requires
                    old_out.len() == i / 4 * 3,
                    i >= 0,
            ;
            lemma_b64_append(out@, old_out.len() as int);
            assert(old_out =~= out@.take(old_out.len() as int));
            let tail = out@.skip(old_out.len() as int);
            assert(tail =~= seq![x0]);
            assert(spec_b64(tail) == enc1(x0 as int));
            lemma_decode_tail1(v0 as int, v1 as int);
            assert(b64_char(b64_val(s@[i as int])) == s@[i as int]) by {
                lemma_b64_val_char(s@[i as int]);
            }
            assert(b64_char(b64_val(s@[i + 1])) == s@[i + 1]) by {
                lemma_b64_val_char(s@[i + 1]);
            }
            assert(spec_b64(out@) =~= s@);
        }
        return Some(out);
    }
    // i + 3 == n
    let c2 = b64_val_exec(s[i + 2]);
    if c2.is_none() {
        proof {
            lemma_decode_stuck_invalid(s@, out@, i as int);
        }
        return None;
    }
    let v2 = c2.unwrap();
    if v2 % 4 != 0 {
        proof {
            lemma_decode_stuck_tail3(s@, out@, i as int);
        }
        return None;
    }
    let x0: u8 = v0 * 4 + v1 / 16;
    let x1: u8 = (v1 % 16) * 16 + v2 / 4;
    let ghost old_out = out@;
    out.push(x0);
    out.push(x1);
    proof {
        assert(old_out.len() % 3 == 0) by (nonlinear_arith)
            requires
                old_out.len() == i / 4 * 3,
                i >= 0,
        ;
        lemma_b64_append(out@, old_out.len() as int);
        assert(old_out =~= out@.take(old_out.len() as int));
        let tail = out@.skip(old_out.len() as int);
        assert(tail =~= seq![x0, x1]);
        assert(spec_b64(tail) == enc2(x0 as int, x1 as int));
        lemma_decode_tail2(v0 as int, v1 as int, v2 as int);
        assert(b64_char(b64_val(s@[i as int])) == s@[i as int]) by {
            lemma_b64_val_char(s@[i as int]);
        }
        assert(b64_char(b64_val(s@[i + 1])) == s@[i + 1]) by {
            lemma_b64_val_char(s@[i + 1]);
        }
        assert(b64_char(b64_val(s@[i + 2])) == s@[i + 2]) by {
            lemma_b64_val_char(s@[i + 2]);
        }
        assert(spec_b64(out@) =~= s@);
    }
    Some(out)
}

/// Re-encoding the three bytes decoded from four alphabet values gives back
/// exactly those four values' characters.
proof fn lemma_decode_group(v0: int, v1: int, v2: int, v3: int)
    requires
        0 <= v0 < 64,
        0 <= v1 < 64,
        0 <= v2 < 64,
        0 <= v3 < 64,
    ensures
        enc3(v0 * 4 + v1 / 16, (v1 % 16) * 16 + v2 / 4, (v2 % 4) * 64 + v3) == seq![
            b64_char(v0),
            b64_char(v1),
            b64_char(v2),
            b64_char(v3),
        ],
{
    let x0 = v0 * 4 + v1 / 16;
    let x1 = (v1 % 16) * 16 + v2 / 4;
    let x2 = (v2 % 4) * 64 + v3;
    assert(x0 / 4 == v0 && x0 % 4 == v1 / 16) by (nonlinear_arith)
        requires
            x0 == v0 * 4 + v1 / 16,
            0 <= v0 < 64,
            0 <= v1 < 64,
    ;
    assert(x1 / 16 == v1 % 16 && x1 % 16 == v2 / 4) by (nonlinear_arith)
        requires
            x1 == (v1 % 16) * 16 + v2 / 4,
            0 <= v1 < 64,
            0 <= v2 < 64,
    ;
    assert(x2 / 64 == v2 % 4 && x2 % 64 == v3) by (nonlinear_arith)
        requires
            x2 == (v2 % 4) * 64 + v3,
            0 <= v2 < 64,
            0 <= v3 < 64,
    ;
    assert((v1 / 16) * 16 + v1 % 16 == v1) by (nonlinear_arith)
        requires
            0 <= v1 < 64,
    ;
    assert((v2 / 4) * 4 + v2 % 4 == v2) by (nonlinear_arith)
        requires
            0 <= v2 < 64,
    ;
    assert(enc3(x0, x1, x2) =~= seq![b64_char(v0), b64_char(v1), b64_char(v2), b64_char(v3)]);
}

proof fn lemma_decode_tail1(v0: int, v1: int)
    requires
        0 <= v0 < 64,
        0 <= v1 < 64,
        v1 % 16 == 0,
    ensures
        enc1(v0 * 4 + v1 / 16) == seq![b64_char(v0), b64_char(v1)],
{
    let x0 = v0 * 4 + v1 / 16;
    assert(x0 / 4 == v0 && x0 % 4 == v1 / 16) by (nonlinear_arith)
        requires
            x0 == v0 * 4 + v1 / 16,
            0 <= v0 < 64,
            0 <= v1 < 64,
    ;
    assert((v1 / 16) * 16 == v1) by (nonlinear_arith)
        requires
            0 <= v1 < 64,
            v1 % 16 == 0,
    ;
    assert(enc1(x0) =~= seq![b64_char(v0), b64_char(v1)]);
}

proof fn lemma_decode_tail2(v0: int, v1: int, v2: int)
    requires
        0 <= v0 < 64,
        0 <= v1 < 64,
        0 <= v2 < 64,
        v2 % 4 == 0,
    ensures
        enc2(v0 * 4 + v1 / 16, (v1 % 16) * 16 + v2 / 4) == seq![
            b64_char(v0),
            b64_char(v1),
            b64_char(v2),
        ],
{
    let x0 = v0 * 4 + v1 / 16;
    let x1 = (v1 % 16) * 16 + v2 / 4;
    assert(x0 / 4 == v0 && x0 % 4 == v1 / 16) by (nonlinear_arith)
        requires
            x0 == v0 * 4 + v1 / 16,
            0 <= v0 < 64,
            0 <= v1 < 64,
    ;
    assert(x1 / 16 == v1 % 16 && x1 % 16 == v2 / 4) by (nonlinear_arith)
        requires
            x1 == (v1 % 16) * 16 + v2 / 4,
            0 <= v1 < 64,
            0 <= v2 < 64,
    ;
    assert((v1 / 16) * 16 + v1 % 16 == v1) by (nonlinear_arith)
        requires
            0 <= v1 < 64,
    ;
    assert((v2 / 4) * 4 == v2) by (nonlinear_arith)
        requires
            0 <= v2 < 64,
            v2 % 4 == 0,
    ;
    assert(enc2(x0, x1) =~= seq![b64_char(v0), b64_char(v1), b64_char(v2)]);
}

/// Shared setup for the decoder's failure cases: if the whole input were an
/// encoding of some `b`, the part not yet consumed would be the encoding of
/// the rest of `b`.
proof fn lemma_decode_split(s: Seq<u8>, out: Seq<u8>, i: int, b: Seq<u8>)
    requires
        0 <= i <= s.len(),
        i % 4 == 0,
        out.len() == i / 4 * 3,
        spec_b64(out) == s.take(i),
        s == spec_b64(b),
    ensures
        i / 4 * 3 <= b.len(),
        s.skip(i) == spec_b64(b.skip(i / 4 * 3)),
{
    let j = i / 4 * 3;
    lemma_b64_len(b);
    let n = s.len() as int;
    assert(i / 4 <= n / 4) by {
        lemma_div_is_ordered(i, n, 4);
    }
    assert(j <= (n / 4) * 3) by (nonlinear_arith)
        requires
            j == i / 4 * 3,
            i / 4 <= n / 4,
    ;
    assert((n / 4) * 3 <= b.len());
    assert(j % 3 == 0) by (nonlinear_arith)
        requires
            j == i / 4 * 3,
            i >= 0,
    ;
    lemma_b64_append(b, j);
    lemma_b64_len(b.take(j));
    assert(b.take(j).len() == j);
    assert(spec_b64(b.take(j)).len() == i) by (nonlinear_arith)
        requires
            spec_b64(b.take(j)).len() == (j / 3) * 4 + (if j % 3 == 0 {
                0int
            } else if j % 3 == 1 {
                2int
            } else {
                3int
            }),
            j == i / 4 * 3,
            i % 4 == 0,
            i >= 0,
    ;
    assert(spec_b64(b.take(j)) =~= s.take(i));
    assert(spec_b64(b.skip(j)) =~= s.skip(i));
}

/// No encoding has an out-of-alphabet character at or after the point the
/// decoder is stuck at.
proof fn lemma_decode_stuck_invalid(s: Seq<u8>, out: Seq<u8>, i: int)
    requires
        0 <= i <= s.len(),
        i % 4 == 0,
        out.len() == i / 4 * 3,
        spec_b64(out) == s.take(i),
        i < s.len(),
        exists|k: int| i <= k < s.len() && !is_b64_char(s[k]),
    ensures
        forall|b: Seq<u8>| s != spec_b64(b),
{
    assert forall|b: Seq<u8>| s != spec_b64(b) by {
        if s == spec_b64(b) {
            lemma_decode_split(s, out, i, b);
            let j = i / 4 * 3;
            lemma_b64_chars_valid(b.skip(j));
            let k = choose|k: int| i <= k < s.len() && !is_b64_char(s[k]);
            assert(s.skip(i)[k - i] == s[k]);
            assert(is_b64_char(spec_b64(b.skip(j))[k - i]));
        }
    }
}

/// A two-character tail whose second value has nonzero low bits is not an
/// encoding.
proof fn lemma_decode_stuck_tail2(s: Seq<u8>, out: Seq<u8>, i: int)
    requires
        0 <= i <= s.len(),
        i % 4 == 0,
        out.len() == i / 4 * 3,
        spec_b64(out) == s.take(i),
        i + 2 == s.len(),
        is_b64_char(s[i]),
        is_b64_char(s[i + 1]),
        b64_val(s[i + 1]) % 16 != 0,
    ensures
        forall|b: Seq<u8>| s != spec_b64(b),
{
    assert forall|b: Seq<u8>| s != spec_b64(b) by {
        if s == spec_b64(b) {
            lemma_decode_split(s, out, i, b);
            let j = i / 4 * 3;
            let rest = b.skip(j);
            lemma_b64_len(rest);
            assert(spec_b64(rest).len() == 2);
            assert(rest.len() == 1);
            assert(s.skip(i)[1] == s[i + 1]);
            assert(s[i + 1] == b64_char((rest[0] as int % 4) * 16));
            lemma_b64_char_val((rest[0] as int % 4) * 16);
            assert(b64_val(s[i + 1]) == (rest[0] as int % 4) * 16);
            assert(((rest[0] as int % 4) * 16) % 16 == 0) by (nonlinear_arith);
        }
    }
}

/// A three-character tail whose third value has nonzero low bits is not an
/// encoding.
proof fn lemma_decode_stuck_tail3(s: Seq<u8>, out: Seq<u8>, i: int)
    requires
        0 <= i <= s.len(),
        i % 4 == 0,
        out.len() == i / 4 * 3,
        spec_b64(out) == s.take(i),
        i + 3 == s.len(),
        is_b64_char(s[i]),
        is_b64_char(s[i + 1]),
        is_b64_char(s[i + 2]),
        b64_val(s[i + 2]) % 4 != 0,
    ensures
        forall|b: Seq<u8>| s != spec_b64(b),
{
    assert forall|b: Seq<u8>| s != spec_b64(b) by {
        if s == spec_b64(b) {
            lemma_decode_split(s, out, i, b);
            let j = i / 4 * 3;
            let rest = b.skip(j);
            lemma_b64_len(rest);
            assert(spec_b64(rest).len() == 3);
            assert(rest.len() == 2);
            assert(s.skip(i)[2] == s[i + 2]);
            assert(s[i + 2] == b64_char((rest[1] as int % 16) * 4));
            lemma_b64_char_val((rest[1] as int % 16) * 4);
            assert(b64_val(s[i + 2]) == (rest[1] as int % 16) * 4);
            assert(((rest[1] as int % 16) * 4) % 4 == 0) by (nonlinear_arith);
        }
    }
}

} // verus!
