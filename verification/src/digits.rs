use vstd::prelude::*;

verus! {

/// The canonical decimal digits of `n`, most significant first: no sign, no
/// leading zero, and `0` itself is the single digit `0`.
pub open spec fn spec_u64_digits(n: nat) -> Seq<u8>
    decreases n,
{
    if n < 10 {
        seq![(48 + n) as u8]
    } else {
        spec_u64_digits(n / 10).push((48 + n % 10) as u8)
    }
}

pub open spec fn is_digit(b: u8) -> bool {
    48 <= b <= 57
}

pub open spec fn all_digits(s: Seq<u8>) -> bool {
    forall|i: int| 0 <= i < s.len() ==> is_digit(#[trigger] s[i])
}

/// A digit string that is the canonical form of some number: nonempty and
/// without a superfluous leading zero.
pub open spec fn is_canonical_digits(s: Seq<u8>) -> bool {
    &&& s.len() > 0
    &&& all_digits(s)
    &&& (s.len() > 1 ==> s[0] != 48)
}

/// The number a digit string denotes, by Horner's rule.
pub open spec fn digits_value(s: Seq<u8>) -> nat
    decreases s.len(),
{
    if s.len() == 0 {
        0
    } else {
        (digits_value(s.drop_last()) * 10 + (s.last() - 48)) as nat
    }
}

/// The canonical digits of `n` really are canonical and denote `n`.
pub proof fn lemma_digits_canonical(n: nat)
    ensures
        is_canonical_digits(spec_u64_digits(n)),
        digits_value(spec_u64_digits(n)) == n,
    decreases n,
{
    if n < 10 {
        let s = spec_u64_digits(n);
        assert(s =~= seq![(48 + n) as u8]);
        assert(s.drop_last() =~= Seq::<u8>::empty());
        assert(digits_value(Seq::<u8>::empty()) == 0);
        assert(digits_value(s) == 0 * 10 + ((48 + n) as u8 - 48));
    } else {
        lemma_digits_canonical(n / 10);
        let t = spec_u64_digits(n / 10);
        let s = spec_u64_digits(n);
        assert(s == t.push((48 + n % 10) as u8));
        assert(s.drop_last() =~= t);
        assert(s.last() == (48 + n % 10) as u8);
        assert(digits_value(s) == (n / 10) * 10 + n % 10);
        assert((n / 10) * 10 + n % 10 == n) by (nonlinear_arith);
        assert(forall|i: int| 0 <= i < s.len() ==> is_digit(#[trigger] s[i]));
        assert(s[0] == t[0]);
        assert(n / 10 >= 1);
        if n / 10 < 10 {
            assert(t =~= seq![(48 + n / 10) as u8]);
            assert(t[0] != 48);
        } else {
            assert(t == spec_u64_digits(n / 10 / 10).push((48 + (n / 10) % 10) as u8));
            assert(t.len() > 1);
        }
    }
}

/// A nonempty digit string whose first digit is not zero denotes a positive
/// number.
pub proof fn lemma_digits_value_positive(s: Seq<u8>)
    requires
        s.len() > 0,
        all_digits(s),
        s[0] != 48,
    ensures
        digits_value(s) >= 1,
    decreases s.len(),
{
    if s.len() == 1 {
        assert(s.drop_last() =~= Seq::<u8>::empty());
    } else {
        assert(s.drop_last()[0] == s[0]);
        lemma_digits_value_positive(s.drop_last());
    }
}

/// Canonical digit strings are unique: a canonical string is exactly the
/// canonical form of the number it denotes.
pub proof fn lemma_canonical_digits_unique(s: Seq<u8>)
    requires
        is_canonical_digits(s),
    ensures
        spec_u64_digits(digits_value(s)) == s,
    decreases s.len(),
{
    if s.len() == 1 {
        assert(s.drop_last() =~= Seq::<u8>::empty());
        assert(digits_value(Seq::<u8>::empty()) == 0);
        assert(digits_value(s) == (s[0] - 48) as nat);
        assert(spec_u64_digits(digits_value(s)) =~= s);
    } else {
        let t = s.drop_last();
        assert(t[0] == s[0]);
        assert(forall|i: int| 0 <= i < t.len() ==> t[i] == s[i]);
        lemma_digits_value_positive(t);
        lemma_canonical_digits_unique(t);
        let v = digits_value(s);
        let d = (s.last() - 48) as nat;
        assert(v == digits_value(t) * 10 + d);
        assert(digits_value(t) >= 1);
        assert(v >= 10) by (nonlinear_arith)
            requires
                v == digits_value(t) * 10 + d,
                digits_value(t) >= 1,
        ;
        assert(v / 10 == digits_value(t) && v % 10 == d) by (nonlinear_arith)
            requires
                v == digits_value(t) * 10 + d,
                d < 10,
        ;
        assert(spec_u64_digits(v) == spec_u64_digits(digits_value(t)).push((48 + d) as u8));
        assert(spec_u64_digits(v) =~= s);
    }
}

/// Decimal representation is injective.
pub proof fn lemma_digits_injective(a: nat, b: nat)
    ensures
        spec_u64_digits(a) == spec_u64_digits(b) ==> a == b,
{
    lemma_digits_canonical(a);
    lemma_digits_canonical(b);
}

/// Every prefix of a digit string denotes no more than the whole string.
pub proof fn lemma_digits_value_take_le(s: Seq<u8>, i: int)
    requires
        0 <= i <= s.len(),
        all_digits(s),
    ensures
        digits_value(s.take(i)) <= digits_value(s),
    decreases s.len() - i,
{
    if i < s.len() {
        assert(s.take(i + 1).drop_last() =~= s.take(i));
        assert(s.take(i + 1).last() == s[i]);
        assert(digits_value(s.take(i + 1)) == digits_value(s.take(i)) * 10 + (s[i] - 48));
        assert(digits_value(s.take(i)) * 10 >= digits_value(s.take(i))) by (nonlinear_arith);
        lemma_digits_value_take_le(s, i + 1);
        assert(s.take(s.len() as int) =~= s);
    } else {
        assert(s.take(i) =~= s);
    }
}

/// The canonical digits of `n`, as a byte vector.
pub fn u64_to_digits(n: u64) -> (r: Vec<u8>)
    ensures
        r@ == spec_u64_digits(n as nat),
    decreases n,
{
    if n < 10 {
        let mut v: Vec<u8> = Vec::new();
        v.push(48 + (n as u8));
        proof {
            assert(v@ =~= spec_u64_digits(n as nat));
        }
        v
    } else {
        let mut v = u64_to_digits(n / 10);
        v.push(48 + ((n % 10) as u8));
        v
    }
}

/// The end of the run of decimal digits that starts at `start`: the first
/// index at or after `start` that does not hold a digit.
pub fn scan_digits_end(b: &Vec<u8>, start: usize) -> (end: usize)
    requires
        start <= b@.len(),
    ensures
        start <= end <= b@.len(),
        forall|k: int| start <= k < end ==> is_digit(#[trigger] b@[k]),
        end < b@.len() ==> !is_digit(b@[end as int]),
{
    let mut i: usize = start;
    while i < b.len() && 48 <= b[i] && b[i] <= 57
        invariant
            start <= i <= b@.len(),
            forall|k: int| start <= k < i ==> is_digit(#[trigger] b@[k]),
        decreases b@.len() - i,
    {
        i = i + 1;
    }
    i
}

/// Parses `b[start..end]` as the canonical decimal form of a `u64`.
/// Succeeds exactly on canonical digit strings whose value fits.
pub fn parse_u64_range(b: &Vec<u8>, start: usize, end: usize) -> (r: Option<u64>)
    requires
        start <= end <= b@.len(),
    ensures
        (r is Some) == (is_canonical_digits(b@.subrange(start as int, end as int))
            && digits_value(b@.subrange(start as int, end as int)) <= u64::MAX),
        r is Some ==> b@.subrange(start as int, end as int) == spec_u64_digits(
            r->0 as nat,
        ),
{
    let ghost sub = b@.subrange(start as int, end as int);
    if start == end {
        return None;
    }
    if end - start > 1 && b[start] == 48 {
        return None;
    }
    let mut acc: u64 = 0;
    let mut i: usize = start;
    while i < end
        invariant
            start <= i <= end <= b@.len(),
            sub == b@.subrange(start as int, end as int),
            all_digits(sub.take(i - start)),
            acc == digits_value(sub.take(i - start)),
        decreases end - i,
    {
        let c = b[i];
        if c < 48 || c > 57 {
            proof {
                assert(sub[i - start] == c);
                assert(!is_digit(sub[i - start]));
            }
            return None;
        }
        let d: u64 = (c - 48) as u64;
        proof {
            assert(sub.take(i + 1 - start).drop_last() =~= sub.take(i - start));
            assert(sub.take(i + 1 - start).last() == sub[i - start]);
            assert(sub[i - start] == c);
            assert(digits_value(sub.take(i + 1 - start)) == acc * 10 + d);
        }
        if acc > u64::MAX / 10 {
            proof {
                assert(acc * 10 + d > u64::MAX) by (nonlinear_arith)
                    requires
                        acc > u64::MAX / 10,
                        d >= 0,
                ;
                lemma_digits_value_take_le_helper(sub, i + 1 - start, (acc * 10 + d) as nat);
            }
            return None;
        }
        let acc10: u64 = acc * 10;
        if d > u64::MAX - acc10 {
            proof {
                lemma_digits_value_take_le_helper(sub, i + 1 - start, (acc * 10 + d) as nat);
            }
            return None;
        }
        acc = acc10 + d;
        i = i + 1;
    }
    proof {
        assert(sub.take(end - start) =~= sub);
        assert(is_canonical_digits(sub));
        lemma_canonical_digits_unique(sub);
    }
    Some(acc)
}

/// Helper for the overflow cases of `parse_u64_range`: once some prefix of an
/// all-digit string denotes more than `u64::MAX`, so does the whole string.
proof fn lemma_digits_value_take_le_helper(sub: Seq<u8>, j: int, v: nat)
    requires
        0 <= j <= sub.len(),
        digits_value(sub.take(j)) == v,
        v > u64::MAX,
    ensures
        !(all_digits(sub) && digits_value(sub) <= u64::MAX),
{
    if all_digits(sub) {
        lemma_digits_value_take_le(sub, j);
    }
}

} // verus!
