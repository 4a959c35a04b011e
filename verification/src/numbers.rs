//! Decimal formatting and parsing of unsigned numbers, with the round-trip
//! lemma the patch and header codecs rest on.

use vstd::prelude::*;

verus! {

/// Decimal digits of `n`, most significant first; empty for zero.
pub open spec fn dec_digits(n: nat) -> Seq<u8>
    decreases n,
{
    if n == 0 {
        Seq::empty()
    } else {
        dec_digits(n / 10) + seq![(48 + n % 10) as u8]
    }
}

/// Canonical decimal form of `n` (zero is "0").
pub open spec fn dec_of(n: nat) -> Seq<u8> {
    if n == 0 {
        seq![48u8]
    } else {
        dec_digits(n)
    }
}

pub open spec fn is_dec_digit(c: u8) -> bool {
    48 <= c <= 57
}

/// A nonempty string of decimal digits.
pub open spec fn is_dec(s: Seq<u8>) -> bool {
    s.len() > 0 && forall|i: int| 0 <= i < s.len() ==> is_dec_digit(#[trigger] s[i])
}

/// Value denoted by a string of decimal digits.
pub open spec fn dec_val(s: Seq<u8>) -> int
    decreases s.len(),
{
    if s.len() == 0 {
        0
    } else {
        dec_val(s.take(s.len() - 1)) * 10 + (s[s.len() - 1] - 48)
    }
}

pub proof fn lemma_dec_val_nonneg(s: Seq<u8>)
    requires
        forall|i: int| 0 <= i < s.len() ==> is_dec_digit(#[trigger] s[i]),
    ensures
        dec_val(s) >= 0,
    decreases s.len(),
{
    if s.len() > 0 {
        let t = s.take(s.len() - 1);
        assert(forall|i: int| 0 <= i < t.len() ==> is_dec_digit(#[trigger] t[i]));
        lemma_dec_val_nonneg(t);
    }
}

pub proof fn lemma_dec_digits_are_digits(n: nat)
    ensures
        forall|i: int| 0 <= i < dec_digits(n).len() ==> is_dec_digit(#[trigger] dec_digits(n)[i]),
        n > 0 ==> dec_digits(n).len() > 0,
    decreases n,
{
    if n > 0 {
        lemma_dec_digits_are_digits(n / 10);
        let d = dec_digits(n);
        let p = dec_digits(n / 10);
        assert forall|i: int| 0 <= i < d.len() implies is_dec_digit(#[trigger] d[i]) by {
            if i < p.len() {
                assert(d[i] == p[i]);
            } else {
                assert(d[i] == (48 + n % 10) as u8);
            }
        }
    }
}

/// The decimal digits of `n` denote `n`.
pub proof fn lemma_dec_val_of_digits(n: nat)
    ensures
        dec_val(dec_digits(n)) == n,
    decreases n,
{
    if n == 0 {
    } else {
        lemma_dec_val_of_digits(n / 10);
        let d = dec_digits(n);
        assert(d.take(d.len() - 1) =~= dec_digits(n / 10));
        assert(d[d.len() - 1] == (48 + n % 10) as u8);
    }
}

/// Parsing undoes formatting.
pub proof fn lemma_dec_round_trip(n: nat)
    ensures
        is_dec(dec_of(n)),
        dec_val(dec_of(n)) == n,
{
    if n == 0 {
        assert(dec_of(n) =~= seq![48u8]);
        assert(dec_val(seq![48u8].take(0)) == 0);
    } else {
        lemma_dec_digits_are_digits(n);
        lemma_dec_val_of_digits(n);
    }
}

/// A `u64` has at most twenty decimal digits.
pub proof fn lemma_dec_len_le(n: u64)
    ensures
        dec_of(n as nat).len() <= 20,
{
    assert(pow10(0) == 1);
    assert(pow10(1) == 10);
    assert(pow10(2) == 100);
    assert(pow10(3) == 1000);
    assert(pow10(4) == 10000);
    assert(pow10(5) == 100000);
    assert(pow10(6) == 1000000);
    assert(pow10(7) == 10000000);
    assert(pow10(8) == 100000000);
    assert(pow10(9) == 1000000000);
    assert(pow10(10) == 10000000000);
    assert(pow10(11) == 100000000000);
    assert(pow10(12) == 1000000000000);
    assert(pow10(13) == 10000000000000);
    assert(pow10(14) == 100000000000000);
    assert(pow10(15) == 1000000000000000);
    assert(pow10(16) == 10000000000000000);
    assert(pow10(17) == 100000000000000000);
    assert(pow10(18) == 1000000000000000000);
    assert(pow10(19) == 10000000000000000000);
    assert(pow10(20) == 100000000000000000000);
    lemma_dec_digits_len(n as nat, 20);
}

proof fn lemma_dec_digits_len(n: nat, k: nat)
    requires
        n < pow10(k),
    ensures
        dec_digits(n).len() <= k,
    decreases n,
{
    if n > 0 {
        assert(k > 0) by {
            if k == 0 {
                assert(pow10(0) == 1);
            }
        }
        assert(n / 10 < pow10((k - 1) as nat)) by {
            assert(pow10(k) == 10 * pow10((k - 1) as nat));
        }
        lemma_dec_digits_len(n / 10, (k - 1) as nat);
    }
}

pub open spec fn pow10(k: nat) -> nat
    decreases k,
{
    if k == 0 {
        1
    } else {
        10 * pow10((k - 1) as nat)
    }
}

fn push_dec_digits(n: u64, out: &mut Vec<u8>)
    ensures
        final(out)@ == old(out)@ + dec_digits(n as nat),
    decreases n,
{
    if n > 0 {
        push_dec_digits(n / 10, out);
        out.push(48 + (n % 10) as u8);
        proof {
            assert(old(out)@ + dec_digits(n as nat) =~= (old(out)@ + dec_digits((n / 10) as nat))
                .push((48 + n % 10) as u8));
        }
    } else {
        proof {
            assert(old(out)@ + dec_digits(0) =~= old(out)@);
        }
    }
}

/// Format `n` in decimal.
pub fn format_dec(n: u64) -> (r: Vec<u8>)
    ensures
        r@ == dec_of(n as nat),
{
    let mut r: Vec<u8> = Vec::new();
    if n == 0 {
        r.push(48);
        proof {
            assert(r@ =~= seq![48u8]);
        }
    } else {
        push_dec_digits(n, &mut r);
        proof {
            assert(Seq::<u8>::empty() + dec_digits(n as nat) =~= dec_digits(n as nat));
        }
    }
    r
}

proof fn lemma_dec_val_take_le(s: Seq<u8>, i: int)
    requires
        forall|j: int| 0 <= j < s.len() ==> is_dec_digit(#[trigger] s[j]),
        0 <= i <= s.len(),
    ensures
        dec_val(s.take(i)) <= dec_val(s),
    decreases s.len() - i,
{
    if i < s.len() {
        lemma_dec_val_take_le(s, i + 1);
        let t = s.take(i + 1);
        assert(t.take(t.len() - 1) =~= s.take(i));
        assert(forall|j: int| 0 <= j < s.take(i).len() ==> is_dec_digit(#[trigger] s.take(i)[j]));
        lemma_dec_val_nonneg(s.take(i));
        assert(dec_val(s.take(i)) <= dec_val(s.take(i + 1)));
    } else {
        assert(s.take(i) =~= s);
    }
}

/// Parse a nonempty string of decimal digits; `None` on any other input or
/// when the value does not fit in `u64`.
pub fn parse_dec(s: &[u8]) -> (r: Option<u64>)
    ensures
        r is Some <==> (is_dec(s@) && dec_val(s@) <= u64::MAX),
        r is Some ==> r.unwrap() as int == dec_val(s@),
{
    let n = s.len();
    if n == 0 {
        return None;
    }
    let mut acc: u64 = 0;
    let mut i: usize = 0;
    while i < n
        invariant
            0 < n == s@.len(),
            i <= n,
            forall|j: int| 0 <= j < i ==> is_dec_digit(#[trigger] s@[j]),
            acc as int == dec_val(s@.take(i as int)),
        decreases n - i,
    {
        let c = s[i];
        if c < 48 || c > 57 {
            return None;
        }
        let d = (c - 48) as u64;
        if acc > (u64::MAX - d) / 10 {
            proof {
                assert(s@.take(i + 1).take(i as int) =~= s@.take(i as int));
                assert(dec_val(s@.take(i + 1)) == acc * 10 + d);
                assert(acc * 10 + d > u64::MAX) by (nonlinear_arith)
                    requires
                        acc > (u64::MAX - d) / 10,
                        d <= 9,
                ;
                if is_dec(s@) {
                    lemma_dec_val_take_le(s@, i + 1);
                }
            }
            return None;
        }
        proof {
            assert(s@.take(i + 1).take(i as int) =~= s@.take(i as int));
            assert(acc * 10 + d <= u64::MAX) by (nonlinear_arith)
                requires
                    acc <= (u64::MAX - d) / 10,
                    d <= 9,
            ;
        }
        acc = acc * 10 + d;
        i += 1;
    }
    proof {
        assert(s@.take(n as int) =~= s@);
    }
    Some(acc)
}

} // verus!
