//! Decimal-digit expansion of an integer, left-padded to a wanted width.

use vstd::prelude::*;
use vstd::assert_seqs_equal;

verus! {

/// The decimal digits of `n`, most significant first. Zero is one digit.
pub open spec fn digits_of(n: nat) -> Seq<u8>
    decreases n,
{
    if n < 10 {
        seq![n as u8]
    } else {
        digits_of(n / 10).push((n % 10) as u8)
    }
}

/// `k` zero digits.
pub open spec fn zeros(k: nat) -> Seq<u8> {
    Seq::new(k, |i: int| 0u8)
}

/// The digits of `n`, left-padded with zeros so that at least `p` digits
/// come out.
pub open spec fn padded_digits(n: nat, p: nat) -> Seq<u8> {
    if digits_of(n).len() >= p {
        digits_of(n)
    } else {
        zeros((p - digits_of(n).len()) as nat) + digits_of(n)
    }
}

/// The decimal digits of `num`, most significant first, left-padded with
/// zeros when they are fewer than `precision`.
pub fn u64_to_vec_u8(num: u64, precision: usize) -> (digits: Vec<u8>)
    ensures
        digits@ == padded_digits(num as nat, precision as nat),
{
    // Digits come out of repeated division least significant first.
    let mut rev: Vec<u8> = Vec::new();
    let mut k: u64 = num;
    rev.push((k % 10) as u8);
    k = k / 10;
    proof {
        if num < 10 {
            assert_seqs_equal!(digits_of(num as nat) == rev@.reverse());
        } else {
            assert_seqs_equal!(digits_of(num as nat) == digits_of(k as nat) + rev@.reverse());
        }
    }
    while k != 0
        invariant
            k != 0 ==> digits_of(num as nat) == digits_of(k as nat) + rev@.reverse(),
            k == 0 ==> digits_of(num as nat) == rev@.reverse(),
        decreases k,
    {
        let ghost prev = rev@;
        let ghost kk = k as nat;
        rev.push((k % 10) as u8);
        k = k / 10;
        proof {
            if k == 0 {
                assert(digits_of(kk) == seq![(kk % 10) as u8]);
                assert_seqs_equal!(digits_of(kk) + prev.reverse() == rev@.reverse());
            } else {
                assert(digits_of(kk) == digits_of(kk / 10).push((kk % 10) as u8));
                assert_seqs_equal!(
                    digits_of(kk) + prev.reverse() == digits_of(k as nat) + rev@.reverse()
                );
            }
        }
    }
    let mut digits: Vec<u8> = Vec::new();
    let n = rev.len();
    // Pad to the wanted width, then copy the digits back into order.
    let mut pad: usize = 0;
    while precision > n && pad < precision - n
        invariant
            precision > n ==> pad <= precision - n,
            precision <= n ==> pad == 0,
            digits@ == zeros(pad as nat),
        decreases precision - n - pad,
    {
        digits.push(0);
        pad = pad + 1;
        proof {
            assert_seqs_equal!(digits@ == zeros(pad as nat));
        }
    }
    let mut i = n;
    while i > 0
        invariant
            i <= n,
            n == rev@.len(),
            digits@.len() == pad + (n - i),
            digits@.subrange(0, pad as int) == zeros(pad as nat),
            forall|j: int| pad <= j < digits@.len() ==> digits@[j] == rev@[n - 1 - (j - pad)],
        decreases i,
    {
        i = i - 1;
        let d = rev[i];
        digits.push(d);
    }
    proof {
        assert(rev@.reverse().len() == n);
        assert(digits_of(num as nat).len() == n);
        if precision <= n {
            assert(pad == 0);
            assert_seqs_equal!(digits@ == digits_of(num as nat), j => {
                assert(digits@[j] == rev@[n - 1 - j]);
                assert(rev@.reverse()[j] == rev@[n - 1 - j]);
            });
        } else {
            assert(pad == precision - n);
            assert_seqs_equal!(
                digits@ == zeros((precision - n) as nat) + digits_of(num as nat), j => {
                if j < pad {
                    assert(digits@.subrange(0, pad as int)[j] == 0u8);
                } else {
                    assert(digits@[j] == rev@[n - 1 - (j - pad)]);
                    assert(rev@.reverse()[j - pad] == rev@[n - 1 - (j - pad)]);
                }
            });
        }
    }
    digits
}

} // verus!
