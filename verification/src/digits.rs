//! Decimal digit strings: the numeric value of a digit sequence, the decimal
//! representation of a number, zero-padding to a fixed width, and executable
//! parsing and formatting proved against those definitions.

use vstd::prelude::*;

verus! {

/// `b` is an ASCII decimal digit.
pub open spec fn is_digit(b: u8) -> bool {
    0x30 <= b <= 0x39
}

/// Every byte of `s` is an ASCII decimal digit.
pub open spec fn all_digits(s: Seq<u8>) -> bool {
    forall|i: int| 0 <= i < s.len() ==> is_digit(#[trigger] s[i])
}

/// Numeric value of a digit sequence, most significant digit first.
pub open spec fn digits_val(s: Seq<u8>) -> nat
    decreases s.len(),
{
    if s.len() == 0 {
        0
    } else {
        (digits_val(s.drop_last()) * 10 + (s.last() - 0x30)) as nat
    }
}

/// Decimal representation of `n`: no leading zeros except for `n == 0` itself.
pub open spec fn dec_rep(n: nat) -> Seq<u8>
    decreases n,
{
    if n < 10 {
        seq![(0x30 + n) as u8]
    } else {
        dec_rep(n / 10).push((0x30 + n % 10) as u8)
    }
}

/// Decimal representation of `n` left-padded with zeros to width `w`
/// (the natural representation when it is already at least `w` long).
pub open spec fn padded(n: nat, w: nat) -> Seq<u8> {
    if dec_rep(n).len() >= w {
        dec_rep(n)
    } else {
        Seq::new((w - dec_rep(n).len()) as nat, |i: int| 0x30u8) + dec_rep(n)
    }
}

pub proof fn lemma_dec_rep_digits(n: nat)
    ensures
        all_digits(dec_rep(n)),
        dec_rep(n).len() >= 1,
    decreases n,
{
    if n >= 10 {
        lemma_dec_rep_digits(n / 10);
    }
}

pub proof fn lemma_dec_rep_val(n: nat)
    ensures
        digits_val(dec_rep(n)) == n,
    decreases n,
{
    if n < 10 {
        assert(digits_val(Seq::<u8>::empty()) == 0);
        assert(dec_rep(n).drop_last() =~= Seq::<u8>::empty());
        assert(dec_rep(n).last() == (0x30 + n) as u8);
        assert((0x30 + n) as u8 == 0x30 + n);
    } else {
        lemma_dec_rep_val(n / 10);
        assert(dec_rep(n).drop_last() =~= dec_rep(n / 10));
        assert(dec_rep(n).last() == (0x30 + n % 10) as u8);
        assert((0x30 + n % 10) as u8 == 0x30 + n % 10);
        assert(digits_val(dec_rep(n)) == (digits_val(dec_rep(n / 10)) * 10 + (dec_rep(n).last()
            - 0x30)) as nat);
        assert(n / 10 * 10 + n % 10 == n);
    }
}

/// Prepending zeros does not change the value of a digit string.
pub proof fn lemma_zeros_prefix_val(k: nat, s: Seq<u8>)
    ensures
        digits_val(Seq::new(k, |i: int| 0x30u8) + s) == digits_val(s),
    decreases s.len(),
{
    let z = Seq::new(k, |i: int| 0x30u8);
    if s.len() == 0 {
        assert(z + s =~= z);
        lemma_zeros_val(k);
    } else {
        lemma_zeros_prefix_val(k, s.drop_last());
        assert((z + s).drop_last() =~= z + s.drop_last());
        assert((z + s).last() == s.last());
    }
}

proof fn lemma_zeros_val(k: nat)
    ensures
        digits_val(Seq::new(k, |i: int| 0x30u8)) == 0,
    decreases k,
{
    let z = Seq::new(k, |i: int| 0x30u8);
    if k > 0 {
        lemma_zeros_val((k - 1) as nat);
        assert(z.drop_last() =~= Seq::new((k - 1) as nat, |i: int| 0x30u8));
    }
}

pub proof fn lemma_padded_val(n: nat, w: nat)
    ensures
        digits_val(padded(n, w)) == n,
        all_digits(padded(n, w)),
        padded(n, w).len() >= w,
        padded(n, w).len() >= 1,
{
    lemma_dec_rep_digits(n);
    lemma_dec_rep_val(n);
    if dec_rep(n).len() < w {
        lemma_zeros_prefix_val((w - dec_rep(n).len()) as nat, dec_rep(n));
        assert forall|i: int| 0 <= i < padded(n, w).len() implies is_digit(#[trigger] padded(n, w)[i]) by {
            if i >= w - dec_rep(n).len() {
                assert(padded(n, w)[i] == dec_rep(n)[i - (w - dec_rep(n).len())]);
            }
        }
    }
}

/// `10^k`.
pub open spec fn pow10(k: nat) -> nat
    decreases k,
{
    if k == 0 {
        1
    } else {
        10 * pow10((k - 1) as nat)
    }
}

pub proof fn lemma_pow10_small()
    ensures
        pow10(0) == 1,
        pow10(1) == 10,
        pow10(2) == 100,
        pow10(3) == 1000,
        pow10(4) == 10000,
{
    assert(pow10(0) == 1);
    assert(pow10(1) == 10);
    assert(pow10(2) == 100);
    assert(pow10(3) == 1000);
    assert(pow10(4) == 10000);
}

/// A digit string of length `l` denotes a value below `10^l`.
pub proof fn lemma_val_bound(s: Seq<u8>)
    requires
        all_digits(s),
    ensures
        digits_val(s) < pow10(s.len()),
    decreases s.len(),
{
    if s.len() > 0 {
        lemma_val_bound(s.drop_last());
        assert(is_digit(s.last()));
    }
}

/// A value below `10^k` has a decimal representation of at most `k` digits.
pub proof fn lemma_dec_rep_len(n: nat, k: nat)
    requires
        n < pow10(k),
        k >= 1,
    ensures
        dec_rep(n).len() <= k,
    decreases n,
{
    if n >= 10 {
        assert(pow10(k) == 10 * pow10((k - 1) as nat));
        lemma_dec_rep_len(n / 10, (k - 1) as nat);
    }
}

/// For `n < 10^w` the padded form has width exactly `w`.
pub proof fn lemma_padded_len(n: nat, w: nat)
    requires
        n < pow10(w),
        w >= 1,
    ensures
        padded(n, w).len() == w,
{
    lemma_dec_rep_len(n, w);
    lemma_dec_rep_digits(n);
}

/// The value of a digit string dominates the value of each of its prefixes.
pub proof fn lemma_prefix_val_le(s: Seq<u8>, i: int)
    requires
        all_digits(s),
        0 <= i <= s.len(),
    ensures
        digits_val(s.take(i)) <= digits_val(s),
    decreases s.len() - i,
{
    if i < s.len() {
        lemma_prefix_val_le(s, i + 1);
        assert(s.take(i + 1).drop_last() =~= s.take(i));
        assert(is_digit(s.take(i + 1).last()));
        assert(digits_val(s.take(i + 1)) >= digits_val(s.take(i)));
    } else {
        assert(s.take(i) =~= s);
    }
}

/// Parse a digit string into a `usize`. Returns `None` exactly when the string
/// is empty, holds a non-digit byte, or denotes a value above `usize::MAX`.
pub fn parse_digits(s: &[u8]) -> (r: Option<usize>)
    ensures
        r is Some <==> (s@.len() > 0 && all_digits(s@) && digits_val(s@) <= usize::MAX),
        r is Some ==> r->0 as nat == digits_val(s@),
{
    let n = s.len();
    if n == 0 {
        return None;
    }
    let mut acc: usize = 0;
    let mut i: usize = 0;
    while i < n
        invariant
            0 <= i <= n,
            n == s@.len(),
            all_digits(s@.take(i as int)),
            acc as nat == digits_val(s@.take(i as int)),
        decreases n - i,
    {
        let b = s[i];
        if b < 0x30 || b > 0x39 {
            assert(!is_digit(s@[i as int]));
            return None;
        }
        let d = (b - 0x30) as usize;
        if acc > (usize::MAX - d) / 10 {
            proof {
                assert(s@.take(i as int + 1).drop_last() =~= s@.take(i as int));
                assert(digits_val(s@.take(i as int + 1)) == acc * 10 + d);
                if all_digits(s@) {
                    lemma_prefix_val_le(s@, i as int + 1);
                }
                assert(acc * 10 + d > usize::MAX) by {
                    assert(acc >= (usize::MAX - d) / 10 + 1);
                    assert(((usize::MAX - d) / 10 + 1) * 10 == ((usize::MAX - d) / 10) * 10 + 10);
                    assert(((usize::MAX - d) / 10) * 10 + 10 > usize::MAX - d);
                };
            }
            return None;
        }
        proof {
            assert(acc <= (usize::MAX - d) / 10);
            assert(acc * 10 <= ((usize::MAX - d) / 10) * 10);
            assert(((usize::MAX - d) / 10) * 10 <= usize::MAX - d);
            assert(s@.take(i as int + 1).drop_last() =~= s@.take(i as int));
        }
        acc = acc * 10 + d;
        i = i + 1;
    }
    proof {
        assert(s@.take(n as int) =~= s@);
    }
    Some(acc)
}

/// Recursive helper: the bare decimal digits of `n`.
fn dec_digits(n: usize) -> (r: Vec<u8>)
    ensures
        r@ == dec_rep(n as nat),
    decreases n,
{
    if n < 10 {
        let mut v: Vec<u8> = Vec::new();
        v.push(0x30 + n as u8);
        proof {
            assert(v@ =~= dec_rep(n as nat));
        }
        v
    } else {
        let mut v = dec_digits(n / 10);
        v.push(0x30 + (n % 10) as u8);
        proof {
            assert(v@ =~= dec_rep(n as nat));
        }
        v
    }
}

/// Format `n` in decimal, left-padded with zeros to width `w`.
pub fn fmt_padded(n: usize, w: usize) -> (r: Vec<u8>)
    ensures
        r@ == padded(n as nat, w as nat),
{
    let d = dec_digits(n);
    if d.len() >= w {
        d
    } else {
        let pad = w - d.len();
        let mut v: Vec<u8> = Vec::new();
        let mut i: usize = 0;
        while i < pad
            invariant
                0 <= i <= pad,
                v@ =~= Seq::new(i as nat, |j: int| 0x30u8),
            decreases pad - i,
        {
            v.push(0x30);
            proof {
                assert(v@ =~= Seq::new(i as nat + 1, |j: int| 0x30u8));
            }
            i = i + 1;
        }
        let mut d = d;
        v.append(&mut d);
        proof {
            assert(v@ =~= padded(n as nat, w as nat));
        }
        v
    }
}

} // verus!
