//! Unsigned integers of up to 512 bits, held as 64 little-endian bytes.
//!
//! Multiplication, addition, division and remainder are delegated to
//! `cosmwasm_std::Uint512`; the conversions to and from `u128` are verified here.
use vstd::prelude::*;

verus! {

/// The value of a little-endian byte sequence.
pub open spec fn le_value(s: Seq<u8>) -> nat
    decreases s.len(),
{
    if s.len() == 0 {
        0
    } else {
        s[0] as nat + 256 * le_value(s.drop_first())
    }
}

/// `256` raised to `n`.
pub open spec fn pow256(n: nat) -> nat
    decreases n,
{
    if n == 0 {
        1
    } else {
        256 * pow256((n - 1) as nat)
    }
}

/// One more than the largest `u128`.
pub open spec fn two_pow_128() -> nat {
    0x1_0000_0000_0000_0000_0000_0000_0000_0000nat
}

pub proof fn lemma_pow256_positive(n: nat)
    ensures
        pow256(n) >= 1,
    decreases n,
{
    if n > 0 {
        lemma_pow256_positive((n - 1) as nat);
    }
}

pub proof fn lemma_pow256_monotonic(m: nat, n: nat)
    requires
        m <= n,
    ensures
        pow256(m) <= pow256(n),
    decreases n,
{
    if m < n {
        lemma_pow256_monotonic(m, (n - 1) as nat);
        lemma_pow256_positive((n - 1) as nat);
    }
}

pub proof fn lemma_pow256_16()
    ensures
        pow256(16) == two_pow_128(),
{
    reveal_with_fuel(pow256, 17);
}

/// A byte sequence of length `n` has a value below `256^n`.
pub proof fn lemma_le_value_bound(s: Seq<u8>)
    ensures
        le_value(s) < pow256(s.len()),
    decreases s.len(),
{
    if s.len() > 0 {
        lemma_le_value_bound(s.drop_first());
        assert(le_value(s.drop_first()) + 1 <= pow256((s.len() - 1) as nat));
        assert(s[0] as nat + 256 * le_value(s.drop_first()) < 256 * pow256((s.len() - 1) as nat))
            by (nonlinear_arith)
            requires
                s[0] < 256,
                le_value(s.drop_first()) + 1 <= pow256((s.len() - 1) as nat),
        ;
    }
}

/// Appending a byte adds it at the next power of 256.
pub proof fn lemma_le_value_push(s: Seq<u8>, b: u8)
    ensures
        le_value(s.push(b)) == le_value(s) + b as nat * pow256(s.len()),
    decreases s.len(),
{
    if s.len() == 0 {
        assert(s.push(b).drop_first() =~= Seq::<u8>::empty());
        assert(le_value(Seq::<u8>::empty()) == 0);
        assert(pow256(0) == 1);
        assert(le_value(s) == 0);
    } else {
        assert(pow256(s.len()) == 256 * pow256((s.len() - 1) as nat));
        assert(le_value(s) == s[0] as nat + 256 * le_value(s.drop_first()));
        assert(s.push(b).drop_first() =~= s.drop_first().push(b));
        assert(s.push(b)[0] == s[0]);
        lemma_le_value_push(s.drop_first(), b);
        assert(le_value(s.push(b)) == s[0] as nat + 256 * le_value(s.drop_first().push(b)));
        assert(256 * (le_value(s.drop_first()) + b as nat * pow256((s.len() - 1) as nat))
            == 256 * le_value(s.drop_first()) + b as nat * pow256(s.len())) by (nonlinear_arith)
            requires
                pow256(s.len()) == 256 * pow256((s.len() - 1) as nat),
        ;
    }
}

/// A suffix of a byte sequence never has a larger value than the whole.
pub proof fn lemma_le_value_suffix(s: Seq<u8>, i: int)
    requires
        0 <= i <= s.len(),
    ensures
        le_value(s.subrange(i, s.len() as int)) <= le_value(s),
    decreases i,
{
    if i > 0 {
        let t = s.drop_first();
        assert(s.subrange(i, s.len() as int) =~= t.subrange(i - 1, t.len() as int));
        lemma_le_value_suffix(t, i - 1);
    } else {
        assert(s.subrange(0, s.len() as int) =~= s);
    }
}

/// A 512-bit unsigned integer.
#[derive(Debug)]
pub(crate) struct Wide {
    pub(crate) le: Vec<u8>,
}

impl Wide {
    /// The integer holds exactly 64 bytes.
    pub(crate) open spec fn wf(&self) -> bool {
        self.le@.len() == 64
    }

    pub(crate) open spec fn value(&self) -> nat {
        le_value(self.le@)
    }

    /// The 512-bit integer equal to `x`.
    pub(crate) fn from_u128(x: u128) -> (r: Wide)
        ensures
            r.wf(),
            r.value() == x,
    {
        let mut le: Vec<u8> = Vec::new();
        let mut v: u128 = x;
        let mut i: usize = 0;
        proof {
            lemma_pow256_16();
            assert(pow256(0) == 1);
            assert(le_value(le@) == 0);
        }
        while i < 64
            invariant
                le@.len() == i,
                i <= 64,
                x == le_value(le@) + v * pow256(i as nat),
                v * pow256(i as nat) <= x,
                pow256(16) == two_pow_128(),
            decreases 64 - i,
        {
            let b: u8 = (v % 256) as u8;
            proof {
                lemma_le_value_push(le@, b);
                assert(pow256((i + 1) as nat) == 256 * pow256(i as nat));
                assert(v == 256 * (v / 256) + b as nat);
                assert(v * pow256(i as nat) == b as nat * pow256(i as nat) + (v / 256) * pow256((i + 1) as nat))
                    by (nonlinear_arith)
                    requires
                        pow256((i + 1) as nat) == 256 * pow256(i as nat),
                        v == 256 * (v / 256) + b as nat,
                ;
                lemma_pow256_positive(i as nat);
                assert(b as nat * pow256(i as nat) >= 0) by (nonlinear_arith)
                    requires pow256(i as nat) >= 1;
            }
            le.push(b);
            v = v / 256;
            i = i + 1;
        }
        proof {
            lemma_pow256_monotonic(16, 64);
            if v > 0 {
                assert(v * pow256(64) >= pow256(64)) by (nonlinear_arith)
                    requires v >= 1, pow256(64) >= 1;
            }
            assert(v == 0);
        }
        Wide { le }
    }

    /// The value as a `u128`, or `None` where it does not fit.
    pub(crate) fn to_u128(&self) -> (r: Option<u128>)
        requires
            self.wf(),
        ensures
            r matches Some(x) ==> x == self.value(),
            r is None ==> self.value() > u128::MAX,
    {
        let mut acc: u128 = 0;
        let mut i: usize = 64;
        proof {
            assert(self.le@.subrange(64, 64) =~= Seq::<u8>::empty());
        }
        while i > 0
            invariant
                i <= 64,
                self.le@.len() == 64,
                acc == le_value(self.le@.subrange(i as int, 64)),
            decreases i,
        {
            i = i - 1;
            let b = self.le[i];
            proof {
                let s = self.le@.subrange(i as int, 64);
                assert(s.drop_first() =~= self.le@.subrange(i + 1, 64));
                assert(le_value(s) == b as nat + 256 * acc);
            }
            if acc > (u128::MAX - b as u128) / 256 {
                proof {
                    lemma_le_value_suffix(self.le@, i as int);
                    assert(b as nat + 256 * acc > u128::MAX) by (nonlinear_arith)
                        requires acc > (u128::MAX - b as u128) / 256, b < 256;
                }
                return None;
            }
            acc = acc * 256 + b as u128;
        }
        proof {
            assert(self.le@.subrange(0, 64) =~= self.le@);
        }
        Some(acc)
    }
}

/// `cosmwasm_std::Uint512::checked_mul`: the product, or `None` where it does not fit in
/// 512 bits. The bytes go in and out through `from_le_bytes` and `to_le_bytes`.
#[verifier::external_body]
pub(crate) fn u512_checked_mul(a: &Wide, b: &Wide) -> (r: Option<Wide>)
    requires
        a.wf(),
        b.wf(),
    ensures
        r is Some <==> a.value() * b.value() < pow256(64),
        r matches Some(x) ==> x.wf() && x.value() == a.value() * b.value(),
{
    let x = cosmwasm_std::Uint512::from_le_bytes(<[u8; 64]>::try_from(a.le.as_slice()).unwrap());
    let y = cosmwasm_std::Uint512::from_le_bytes(<[u8; 64]>::try_from(b.le.as_slice()).unwrap());
    x.checked_mul(y).ok().map(|z| Wide { le: z.to_le_bytes().to_vec() })
}

/// `cosmwasm_std::Uint512::checked_add`: the sum, or `None` where it does not fit in
/// 512 bits.
#[verifier::external_body]
pub(crate) fn u512_checked_add(a: &Wide, b: &Wide) -> (r: Option<Wide>)
    requires
        a.wf(),
        b.wf(),
    ensures
        r is Some <==> a.value() + b.value() < pow256(64),
        r matches Some(x) ==> x.wf() && x.value() == a.value() + b.value(),
{
    let x = cosmwasm_std::Uint512::from_le_bytes(<[u8; 64]>::try_from(a.le.as_slice()).unwrap());
    let y = cosmwasm_std::Uint512::from_le_bytes(<[u8; 64]>::try_from(b.le.as_slice()).unwrap());
    x.checked_add(y).ok().map(|z| Wide { le: z.to_le_bytes().to_vec() })
}

/// `cosmwasm_std::Uint512::checked_div`: the quotient rounded down, or `None` where the
/// divisor is zero.
#[verifier::external_body]
pub(crate) fn u512_checked_div(a: &Wide, b: &Wide) -> (r: Option<Wide>)
    requires
        a.wf(),
        b.wf(),
    ensures
        r is Some <==> b.value() != 0,
        r matches Some(x) ==> x.wf() && x.value() == a.value() / b.value(),
{
    let x = cosmwasm_std::Uint512::from_le_bytes(<[u8; 64]>::try_from(a.le.as_slice()).unwrap());
    let y = cosmwasm_std::Uint512::from_le_bytes(<[u8; 64]>::try_from(b.le.as_slice()).unwrap());
    x.checked_div(y).ok().map(|z| Wide { le: z.to_le_bytes().to_vec() })
}

/// `cosmwasm_std::Uint512::checked_rem`: the remainder, or `None` where the divisor is
/// zero.
#[verifier::external_body]
pub(crate) fn u512_checked_rem(a: &Wide, b: &Wide) -> (r: Option<Wide>)
    requires
        a.wf(),
        b.wf(),
    ensures
        r is Some <==> b.value() != 0,
        r matches Some(x) ==> x.wf() && x.value() == a.value() % b.value(),
{
    let x = cosmwasm_std::Uint512::from_le_bytes(<[u8; 64]>::try_from(a.le.as_slice()).unwrap());
    let y = cosmwasm_std::Uint512::from_le_bytes(<[u8; 64]>::try_from(b.le.as_slice()).unwrap());
    x.checked_rem(y).ok().map(|z| Wide { le: z.to_le_bytes().to_vec() })
}

} // verus!
