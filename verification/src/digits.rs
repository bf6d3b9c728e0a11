//! Decimal digit strings as bytes: the numeric value of a digit run, its
//! canonical (no leading zero) rendering, and verified conversions both ways.
//! The wire protocol writes element counts and bulk lengths this way.

use vstd::prelude::*;

verus! {

/// `b` is an ASCII decimal digit.
pub open spec fn is_digit(b: u8) -> bool {
    48 <= b <= 57
}

/// Every byte of `s` is an ASCII decimal digit.
pub open spec fn all_digits(s: Seq<u8>) -> bool {
    forall|i: int| 0 <= i < s.len() ==> is_digit(#[trigger] s[i])
}

/// Value contributed by one digit byte (0 for bytes below `'0'`).
pub open spec fn digit_val(b: u8) -> nat {
    if 48 <= b {
        (b - 48) as nat
    } else {
        0
    }
}

/// Numeric value of a digit string, most significant digit first.
pub open spec fn digits_val(s: Seq<u8>) -> nat
    decreases s.len(),
{
    if s.len() == 0 {
        0
    } else {
        digits_val(s.drop_last()) * 10 + digit_val(s.last())
    }
}

/// Canonical decimal rendering of `n`, with no leading zero.
pub open spec fn dec_digits(n: nat) -> Seq<u8>
    decreases n,
{
    if n < 10 {
        seq![(48 + n) as u8]
    } else {
        dec_digits(n / 10).push((48 + n % 10) as u8)
    }
}

/// The canonical rendering is a non-empty digit string whose value is `n`.
pub proof fn lemma_dec_digits(n: nat)
    ensures
        dec_digits(n).len() >= 1,
        all_digits(dec_digits(n)),
        digits_val(dec_digits(n)) == n,
    decreases n,
{
    if n < 10 {
        let s = dec_digits(n);
        assert(s =~= seq![(48 + n) as u8]);
        assert(s.drop_last() =~= Seq::<u8>::empty());
        assert(digits_val(Seq::<u8>::empty()) == 0);
        assert(digits_val(s) == digit_val((48 + n) as u8));
    } else {
        lemma_dec_digits(n / 10);
        let p = dec_digits(n / 10);
        let d = (48 + n % 10) as u8;
        let s = p.push(d);
        assert(n % 10 < 10 && n / 10 * 10 + n % 10 == n) by (nonlinear_arith);
        assert(s.drop_last() =~= p);
        assert(s.last() == d);
        assert(digits_val(s) == (n / 10) * 10 + (n % 10));
        assert(forall|i: int| 0 <= i < s.len() ==> is_digit(#[trigger] s[i])) by {
            assert(forall|i: int| 0 <= i < p.len() ==> s[i] == #[trigger] p[i]);
        }
    }
}

/// The value of a digit string never shrinks as digits are appended: every
/// prefix is worth no more than the whole.
pub proof fn lemma_digits_val_prefix(s: Seq<u8>, i: int)
    requires
        0 <= i <= s.len(),
    ensures
        digits_val(s.take(i)) <= digits_val(s),
    decreases s.len() - i,
{
    if i == s.len() {
        assert(s.take(i) =~= s);
    } else {
        lemma_digits_val_prefix(s, i + 1);
        assert(s.take(i + 1).drop_last() =~= s.take(i));
        assert(s.take(i + 1).last() == s[i]);
        assert(digits_val(s.take(i + 1)) == digits_val(s.take(i)) * 10 + digit_val(s[i]));
        assert(digits_val(s.take(i)) <= digits_val(s.take(i)) * 10);
    }
}

/// A digit string denotes a `u64` exactly when it is non-empty, all digits,
/// and its value fits.  Only plain digit runs are meaningful: no sign, no
/// leading `+`, no surrounding space.  Both the decoder's element count and
/// the `PX` millisecond value read integers this way.
pub open spec fn spec_parse_u64(s: Seq<u8>) -> Option<u64> {
    if s.len() > 0 && all_digits(s) && digits_val(s) <= u64::MAX {
        Option::Some(digits_val(s) as u64)
    } else {
        Option::None
    }
}

/// Reads the digit run `s[start..end]` as a `u64`; fails on an empty run, a
/// non-digit byte, or overflow.
pub fn parse_u64_digits(s: &[u8], start: usize, end: usize) -> (r: Option<u64>)
    requires
        start <= end <= s@.len(),
    ensures
        r == spec_parse_u64(s@.subrange(start as int, end as int)),
{
    let ghost ds = s@.subrange(start as int, end as int);
    if start == end {
        return Option::None;
    }
    let mut acc: u64 = 0;
    let mut i: usize = start;
    while i < end
        invariant
            start <= i <= end <= s@.len(),
            ds == s@.subrange(start as int, end as int),
            all_digits(ds.take(i - start)),
            acc == digits_val(ds.take(i - start)),
        decreases end - i,
    {
        let b = s[i];
        assert(b == ds[i - start]);
        proof {
            assert(ds.take(i - start + 1).drop_last() =~= ds.take(i - start));
            assert(ds.take(i - start + 1).last() == ds[i - start]);
        }
        if b < 48 || b > 57 {
            assert(!all_digits(ds));
            return Option::None;
        }
        let d = (b - 48) as u64;
        if acc > u64::MAX / 10 || d > u64::MAX - acc * 10 {
            proof {
                assert(digits_val(ds.take(i - start + 1)) == acc * 10 + d);
                assert(acc > u64::MAX / 10 ==> acc * 10 > u64::MAX) by (nonlinear_arith);
                lemma_digits_val_prefix(ds, i - start + 1);
            }
            return Option::None;
        }
        acc = acc * 10 + d;
        i = i + 1;
    }
    assert(ds.take(end - start) =~= ds);
    Option::Some(acc)
}

/// Renders `n` as its canonical decimal digit string.
pub fn u64_to_dec(n: u64) -> (r: Vec<u8>)
    ensures
        r@ == dec_digits(n as nat),
    decreases n,
{
    if n < 10 {
        let mut v: Vec<u8> = Vec::new();
        v.push(48 + n as u8);
        proof {
            assert(v@ =~= dec_digits(n as nat));
        }
        v
    } else {
        let mut v = u64_to_dec(n / 10);
        v.push(48 + (n % 10) as u8);
        proof {
            assert((n as nat) / 10 == (n / 10) as nat);
            assert((n as nat) % 10 == (n % 10) as nat);
            assert(v@ =~= dec_digits(n as nat));
        }
        v
    }
}

} // verus!
