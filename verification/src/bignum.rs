//! Arithmetic on natural numbers of any size, held as big-endian bytes.

use num_bigint::{BigUint, RandBigInt};
use vstd::arithmetic::power::pow;
use vstd::prelude::*;

use crate::wire::{be_bytes, be_nat, lemma_be_bytes};

verus! {

/// num-bigint's `BigUint::modpow`: `base` to the power `exponent`, modulo
/// `modulus`.
#[verifier::external_body]
pub(crate) fn mod_pow(base: &[u8], exponent: &[u8], modulus: &[u8]) -> (r: Vec<u8>)
    requires
        be_nat(modulus@) > 1,
    ensures
        be_nat(r@) == pow(be_nat(base@) as int, be_nat(exponent@)) % (be_nat(modulus@) as int),
{
    let m = BigUint::from_bytes_be(modulus);
    BigUint::from_bytes_be(base).modpow(&BigUint::from_bytes_be(exponent), &m).to_bytes_be()
}

/// num-bigint's `BigUint` remainder.
#[verifier::external_body]
pub(crate) fn rem(a: &[u8], modulus: &[u8]) -> (r: Vec<u8>)
    requires
        be_nat(modulus@) > 0,
    ensures
        be_nat(r@) == be_nat(a@) % be_nat(modulus@),
{
    (BigUint::from_bytes_be(a) % BigUint::from_bytes_be(modulus)).to_bytes_be()
}

/// num-bigint's `BigUint` sum.
#[verifier::external_body]
pub(crate) fn sum(a: &[u8], b: &[u8]) -> (r: Vec<u8>)
    ensures
        be_nat(r@) == be_nat(a@) + be_nat(b@),
{
    (BigUint::from_bytes_be(a) + BigUint::from_bytes_be(b)).to_bytes_be()
}

/// num-bigint's `BigUint` difference, which panics on a negative result.
#[verifier::external_body]
pub(crate) fn difference(a: &[u8], b: &[u8]) -> (r: Vec<u8>)
    requires
        be_nat(a@) >= be_nat(b@),
    ensures
        be_nat(r@) == be_nat(a@) - be_nat(b@),
{
    (BigUint::from_bytes_be(a) - BigUint::from_bytes_be(b)).to_bytes_be()
}

/// num-bigint's `BigUint` product.
#[verifier::external_body]
pub(crate) fn product(a: &[u8], b: &[u8]) -> (r: Vec<u8>)
    ensures
        be_nat(r@) == be_nat(a@) * be_nat(b@),
{
    (BigUint::from_bytes_be(a) * BigUint::from_bytes_be(b)).to_bytes_be()
}

/// num-bigint's `RandBigInt::gen_biguint_range` on rand's `thread_rng`: some
/// number from 1 up to but not including `bound`.
#[verifier::external_body]
fn random_below(bound: &[u8]) -> (r: Vec<u8>)
    requires
        be_nat(bound@) > 1,
    ensures
        1 <= be_nat(r@) < be_nat(bound@),
{
    let bound = BigUint::from_bytes_be(bound);
    rand::thread_rng().gen_biguint_range(&BigUint::from(1u8), &bound).to_bytes_be()
}

/// Whether the generator gave the number `v` for the bound `bound`. Which number
/// it gives is left open.
pub closed spec fn drawn_below(bound: Seq<u8>, v: Seq<u8>) -> bool {
    exists|b: &[u8], r: Vec<u8>|
        b@ == bound && r@ == v && #[trigger] call_ensures(random_below, (b,), r)
}

/// Draws a number from 1 up to but not including `bound`.
pub(crate) fn random_number(bound: &[u8]) -> (r: Vec<u8>)
    requires
        be_nat(bound@) > 1,
    ensures
        1 <= be_nat(r@) < be_nat(bound@),
        drawn_below(bound@, r@),
{
    let r = random_below(bound);
    assert(call_ensures(random_below, (bound,), r));
    r
}

/// Whether the number is greater than one.
pub fn exceeds_one(a: &[u8]) -> (r: bool)
    ensures
        r == (be_nat(a@) > 1),
{
    let n: usize = a.len();
    if n == 0 {
        return false;
    }
    if a[n - 1] > 1 {
        return true;
    }
    let mut i: usize = 0;
    while i < n - 1
        invariant
            n == a@.len(),
            n >= 1,
            i <= n - 1,
            forall|j: int| 0 <= j < i ==> a@[j] == 0,
        decreases n - i,
    {
        if a[i] != 0 {
            proof {
                lemma_positive(a@.drop_last(), i as int);
            }
            return true;
        }
        i = i + 1;
    }
    proof {
        lemma_all_zero(a@.drop_last());
    }
    false
}

proof fn lemma_positive(s: Seq<u8>, i: int)
    requires
        0 <= i < s.len(),
        s[i] != 0,
    ensures
        be_nat(s) > 0,
    decreases s.len(),
{
    if i < s.len() - 1 {
        lemma_positive(s.drop_last(), i);
    }
}

proof fn lemma_all_zero(s: Seq<u8>)
    requires
        forall|j: int| 0 <= j < s.len() ==> s[j] == 0,
    ensures
        be_nat(s) == 0,
    decreases s.len(),
{
    if s.len() > 0 {
        lemma_all_zero(s.drop_last());
    }
}

proof fn lemma_be_bytes_of_prefix(s: Seq<u8>, n: nat)
    ensures
        be_bytes(be_nat(s), n).len() == n,
        forall|k: int|
            0 <= k < n ==> #[trigger] be_bytes(be_nat(s), n)[n - 1 - k] == if k < s.len() {
                s[s.len() - 1 - k]
            } else {
                0u8
            },
    decreases n,
{
    lemma_be_bytes(be_nat(s), n);
    if n > 0 {
        if s.len() > 0 {
            let front = s.drop_last();
            assert(be_nat(s) / 256 == be_nat(front));
            assert(be_nat(s) % 256 == s.last());
            lemma_be_bytes_of_prefix(front, (n - 1) as nat);
            let rest = be_bytes(be_nat(front), (n - 1) as nat);
            assert(be_bytes(be_nat(s), n) =~= rest.push(s.last()));
            assert forall|k: int| 0 <= k < n implies #[trigger] be_bytes(be_nat(s), n)[n - 1 - k]
                == if k < s.len() {
                s[s.len() - 1 - k]
            } else {
                0u8
            } by {
                if k > 0 {
                    assert(rest[(n - 1) - 1 - (k - 1)] == be_bytes(be_nat(s), n)[n - 1 - k]);
                }
            }
        } else {
            lemma_be_bytes_of_prefix(s, (n - 1) as nat);
            let rest = be_bytes(0, (n - 1) as nat);
            assert(be_bytes(be_nat(s), n) =~= rest.push(0u8));
            assert forall|k: int| 0 <= k < n implies #[trigger] be_bytes(be_nat(s), n)[n - 1 - k]
                == 0u8 by {
                if k > 0 {
                    assert(rest[(n - 1) - 1 - (k - 1)] == be_bytes(be_nat(s), n)[n - 1 - k]);
                }
            }
        }
    }
}

/// The number in exactly `len` bytes: leading zeros are added, or leading bytes
/// dropped.
pub fn pad_bigint(value: &[u8], len: usize) -> (r: Vec<u8>)
    ensures
        r@ == be_bytes(be_nat(value@), len as nat),
        r@.len() == len,
{
    let n: usize = value.len();
    let mut out: Vec<u8> = Vec::new();
    let mut i: usize = 0;
    while i < len
        invariant
            i <= len,
            n == value@.len(),
            out@.len() == i,
            forall|j: int|
                0 <= j < i ==> #[trigger] out@[j] == if len - 1 - j < n {
                    value@[n - 1 - (len - 1 - j)]
                } else {
                    0u8
                },
        decreases len - i,
    {
        let k: usize = len - 1 - i;
        if k < n {
            out.push(value[n - 1 - k]);
        } else {
            out.push(0);
        }
        i = i + 1;
    }
    proof {
        let want = be_bytes(be_nat(value@), len as nat);
        lemma_be_bytes_of_prefix(value@, len as nat);
        assert forall|j: int| 0 <= j < len implies out@[j] == want[j] by {
            assert(want[len - 1 - (len - 1 - j)] == want[j]);
        }
        assert(out@ =~= want);
    }
    out
}

} // verus!
