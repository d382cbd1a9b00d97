//! Little-endian byte encoding: the spec-level vocabulary and the verified
//! executable helpers that every byte format of the crate is built on.

use vstd::prelude::*;

verus! {

use vstd::arithmetic::power2::pow2;
use vstd::arithmetic::power2::lemma2_to64;
use vstd::arithmetic::power2::lemma_pow2_adds;
use vstd::arithmetic::div_mod::lemma_div_denominator;

/// Byte `i` of the little-endian rendering of `x`.
pub open spec fn le_byte(x: nat, i: nat) -> u8 {
    ((x / pow2(8 * i)) % 256) as u8
}

/// The `k`-byte little-endian rendering of `x`.
pub open spec fn nat_le(x: nat, k: nat) -> Seq<u8> {
    Seq::new(k, |i: int| le_byte(x, i as nat))
}

/// The two-byte little-endian rendering of `n`.
pub open spec fn u16_le(n: u16) -> Seq<u8> {
    nat_le(n as nat, 2)
}

/// The four-byte little-endian rendering of `n`.
pub open spec fn u32_le(n: u32) -> Seq<u8> {
    nat_le(n as nat, 4)
}

/// The eight-byte little-endian rendering of `n`.
pub open spec fn u64_le(n: u64) -> Seq<u8> {
    nat_le(n as nat, 8)
}

/// The value of a byte sequence read as a little-endian integer.
pub open spec fn le_val(s: Seq<u8>) -> nat
    decreases s.len(),
{
    if s.len() == 0 {
        0
    } else {
        s[0] as nat + 256 * le_val(s.drop_first())
    }
}

/// A little-endian value is bounded by the base raised to the length.
pub proof fn lemma_le_val_bound(s: Seq<u8>)
    ensures
        le_val(s) < pow2(8 * s.len()),
    decreases s.len(),
{
    lemma2_to64();
    if s.len() == 0 {
    } else {
        lemma_le_val_bound(s.drop_first());
        lemma_pow2_adds(8, 8 * (s.len() - 1) as nat);
        assert(8 * s.len() == 8 + 8 * (s.len() - 1));
    }
}

/// Reading back the `k`-byte little-endian rendering of `x` yields `x`.
pub proof fn lemma_le_val_nat_le(x: nat, k: nat)
    requires
        x < pow2(8 * k),
    ensures
        le_val(nat_le(x, k)) == x,
    decreases k,
{
    lemma2_to64();
    if k == 0 {
    } else {
        let s = nat_le(x, k);
        let x1 = x / 256;
        assert forall|i: int| 0 <= i < k - 1 implies s.drop_first()[i] == nat_le(x1, (k - 1) as nat)[i] by {
            vstd::arithmetic::power2::lemma_pow2_pos(8 * i as nat);
            lemma_pow2_adds(8, 8 * i as nat);
            lemma_div_denominator(x as int, 256, pow2(8 * i as nat) as int);
            assert(8 * (i + 1) == 8 + 8 * i);
        }
        assert(s.drop_first() =~= nat_le(x1, (k - 1) as nat));
        lemma_pow2_adds(8, 8 * (k - 1) as nat);
        assert(8 * k == 8 + 8 * (k - 1));
        assert(x1 < pow2(8 * (k - 1) as nat)) by {
            assert(pow2(8 * k) == 256 * pow2(8 * (k - 1) as nat));
            vstd::arithmetic::div_mod::lemma_multiply_divide_lt(
                x as int,
                256,
                pow2(8 * (k - 1) as nat) as int,
            );
        }
        lemma_le_val_nat_le(x1, (k - 1) as nat);
        assert(s[0] as nat == x % 256) by {
            vstd::arithmetic::div_mod::lemma_div_basics(x as int);
        }
        vstd::arithmetic::div_mod::lemma_fundamental_div_mod(x as int, 256);
    }
}

/// Reading back the little-endian rendering of a `u16` yields it.
pub proof fn lemma_le_val_u16(n: u16)
    ensures
        le_val(u16_le(n)) == n,
{
    lemma2_to64();
    lemma_le_val_nat_le(n as nat, 2);
}

/// Reading back the little-endian rendering of a `u32` yields it.
pub proof fn lemma_le_val_u32(n: u32)
    ensures
        le_val(u32_le(n)) == n,
{
    lemma2_to64();
    lemma_le_val_nat_le(n as nat, 4);
}

/// Reading back the little-endian rendering of a `u64` yields it.
pub proof fn lemma_le_val_u64(n: u64)
    ensures
        le_val(u64_le(n)) == n,
{
    lemma2_to64();
    lemma_le_val_nat_le(n as nat, 8);
}

/// Append a slice to a byte vector.
pub fn push_all(out: &mut Vec<u8>, s: &[u8])
    ensures
        final(out)@ == old(out)@ + s@,
{
    let mut j: usize = 0;
    while j < s.len()
        invariant
            j <= s.len(),
            out@ == old(out)@ + s@.take(j as int),
        decreases s.len() - j,
    {
        out.push(s[j]);
        assert(s@.take(j + 1) == s@.take(j as int).push(s@[j as int]));
        j += 1;
    }
    assert(s@.take(s@.len() as int) == s@);
}

/// Append the `k` low little-endian bytes of `n` to `out`.
pub fn push_nat_le(out: &mut Vec<u8>, n: u64, k: usize)
    requires
        k <= 8,
    ensures
        final(out)@ == old(out)@ + nat_le(n as nat, k as nat),
{
    let mut v: u64 = n;
    let mut j: usize = 0;
    proof {
        lemma2_to64();
        vstd::arithmetic::div_mod::lemma_div_basics(n as int);
        assert(out@ == old(out)@ + nat_le(n as nat, k as nat).take(0));
    }
    while j < k
        invariant
            j <= k,
            k <= 8,
            v as nat == n as nat / pow2(8 * j as nat),
            out@ == old(out)@ + nat_le(n as nat, k as nat).take(j as int),
        decreases k - j,
    {
        proof {
            lemma2_to64();
            assert(nat_le(n as nat, k as nat).take(j + 1) == nat_le(n as nat, k as nat).take(
                j as int,
            ).push(le_byte(n as nat, j as nat)));
            assert((v % 256) as u8 == le_byte(n as nat, j as nat));
            vstd::arithmetic::power2::lemma_pow2_pos(8 * j as nat);
            lemma_pow2_adds(8 * j as nat, 8);
            lemma_div_denominator(n as int, pow2(8 * j as nat) as int, 256);
            assert(8 * (j + 1) as nat == 8 * j as nat + 8);
        }
        out.push((v % 256) as u8);
        v = v / 256;
        j += 1;
    }
    proof {
        assert(nat_le(n as nat, k as nat).take(k as int) == nat_le(n as nat, k as nat));
    }
}

/// Append the two-byte little-endian rendering of `n`.
pub fn push_u16_le(out: &mut Vec<u8>, n: u16)
    ensures
        final(out)@ == old(out)@ + u16_le(n),
{
    push_nat_le(out, n as u64, 2);
}

/// Append the four-byte little-endian rendering of `n`.
pub fn push_u32_le(out: &mut Vec<u8>, n: u32)
    ensures
        final(out)@ == old(out)@ + u32_le(n),
{
    push_nat_le(out, n as u64, 4);
}

/// Append the eight-byte little-endian rendering of `n`.
pub fn push_u64_le(out: &mut Vec<u8>, n: u64)
    ensures
        final(out)@ == old(out)@ + u64_le(n),
{
    push_nat_le(out, n, 8);
}

/// Read a little-endian `u16` at `pos`.
pub fn read_u16_le(input: &[u8], pos: usize) -> (r: u16)
    requires
        pos + 2 <= input@.len(),
    ensures
        r as nat == le_val(input@.subrange(pos as int, pos + 2)),
{
    let b0 = input[pos];
    let b1 = input[pos + 1];
    proof {
        let s = input@.subrange(pos as int, pos + 2);
        let s1 = input@.subrange(pos + 1, pos + 2);
        assert(s.drop_first() =~= s1);
        assert(s1.drop_first() =~= Seq::<u8>::empty());
        assert(le_val(s1.drop_first()) == 0);
        assert(le_val(s1) == b1 as nat);
        assert(le_val(s) == b0 as nat + 256 * (b1 as nat));
    }
    b0 as u16 + (b1 as u16) * 256
}

/// Read a little-endian `u32` at `pos`.
pub fn read_u32_le(input: &[u8], pos: usize) -> (r: u32)
    requires
        pos + 4 <= input@.len(),
    ensures
        r as nat == le_val(input@.subrange(pos as int, pos + 4)),
{
    let b0 = input[pos];
    let b1 = input[pos + 1];
    let b2 = input[pos + 2];
    let b3 = input[pos + 3];
    proof {
        let s = input@.subrange(pos as int, pos + 4);
        let s1 = input@.subrange(pos + 1, pos + 4);
        let s2 = input@.subrange(pos + 2, pos + 4);
        let s3 = input@.subrange(pos + 3, pos + 4);
        assert(s.drop_first() =~= s1);
        assert(s1.drop_first() =~= s2);
        assert(s2.drop_first() =~= s3);
        assert(s3.drop_first() =~= Seq::<u8>::empty());
        assert(le_val(s3.drop_first()) == 0);
        assert(le_val(s3) == b3 as nat);
        assert(le_val(s2) == b2 as nat + 256 * le_val(s3));
        assert(le_val(s1) == b1 as nat + 256 * le_val(s2));
        assert(le_val(s) == b0 as nat + 256 * (b1 as nat + 256 * (b2 as nat + 256 * (
        b3 as nat))));
    }
    b0 as u32 + (b1 as u32) * 256 + (b2 as u32) * 65536 + (b3 as u32) * 16777216
}

/// Compare two byte slices for equality.
pub fn bytes_eq(a: &[u8], b: &[u8]) -> (r: bool)
    ensures
        r == (a@ == b@),
{
    if a.len() != b.len() {
        proof {
            assert(a@.len() != b@.len());
        }
        return false;
    }
    let mut j: usize = 0;
    while j < a.len()
        invariant
            j <= a@.len(),
            a@.len() == b@.len(),
            forall|i: int| 0 <= i < j ==> a@[i] == b@[i],
        decreases a@.len() - j,
    {
        if a[j] != b[j] {
            return false;
        }
        j += 1;
    }
    proof {
        assert(a@ =~= b@);
    }
    true
}

/// Splitting a little-endian value at byte `k`: the low part plus the
/// high part scaled by the base.
pub proof fn lemma_le_val_split(s: Seq<u8>, k: int)
    requires
        0 <= k <= s.len(),
    ensures
        le_val(s) == le_val(s.take(k)) + pow2((8 * k) as nat) * le_val(s.skip(k)),
    decreases k,
{
    lemma2_to64();
    if k == 0 {
        assert(s.take(0) =~= Seq::<u8>::empty());
        assert(s.skip(0) =~= s);
        assert(pow2((8 * k) as nat) == 1);
        vstd::arithmetic::mul::lemma_mul_basics(le_val(s) as int);
        assert(pow2((8 * k) as nat) * le_val(s.skip(k)) == le_val(s)) by (nonlinear_arith)
            requires
                pow2((8 * k) as nat) == 1,
                s.skip(k) == s,
        ;
    } else {
        let d = s.drop_first();
        lemma_le_val_split(d, k - 1);
        assert(d.take(k - 1) =~= s.take(k).drop_first());
        assert(d.skip(k - 1) =~= s.skip(k));
        assert(s.take(k)[0] == s[0]);
        lemma_pow2_adds(8, (8 * (k - 1)) as nat);
        assert((8 * k) as nat == 8 + (8 * (k - 1)) as nat);
        let p1 = pow2((8 * (k - 1)) as nat) as int;
        let lo = le_val(s.take(k).drop_first()) as int;
        let hi = le_val(s.skip(k)) as int;
        assert(le_val(d) as int == lo + p1 * hi);
        assert(le_val(s) as int == s[0] + 256 * (lo + p1 * hi));
        assert(le_val(s.take(k)) as int == s[0] + 256 * lo);
        assert(pow2((8 * k) as nat) as int == 256 * p1);
        assert(256 * (lo + p1 * hi) == 256 * lo + (256 * p1) * hi) by (nonlinear_arith);
        assert(le_val(s) as int == (s[0] + 256 * lo) + (256 * p1) * hi);
        assert((pow2((8 * k) as nat) * le_val(s.skip(k))) as int == (256 * p1) * hi) by (nonlinear_arith)
            requires
                pow2((8 * k) as nat) as int == 256 * p1,
                le_val(s.skip(k)) as int == hi,
        ;
        assert(le_val(s) == le_val(s.take(k)) + pow2((8 * k) as nat) * le_val(s.skip(k)));
    }
}

/// A byte sequence of length `k` is recovered from its little-endian
/// value.
pub proof fn lemma_nat_le_le_val(s: Seq<u8>)
    ensures
        nat_le(le_val(s), s.len()) == s,
    decreases s.len(),
{
    lemma2_to64();
    if s.len() == 0 {
        assert(nat_le(le_val(s), 0) =~= s);
    } else {
        let d = s.drop_first();
        lemma_nat_le_le_val(d);
        let v = le_val(s);
        assert(v == s[0] + 256 * le_val(d));
        assert(v % 256 == s[0] && v / 256 == le_val(d)) by {
            vstd::arithmetic::div_mod::lemma_fundamental_div_mod_converse(
                v as int,
                256,
                le_val(d) as int,
                s[0] as int,
            );
        }
        assert forall|i: int| 0 <= i < s.len() implies nat_le(v, s.len())[i] == s[i] by {
            if i == 0 {
                vstd::arithmetic::div_mod::lemma_div_basics(v as int);
            } else {
                vstd::arithmetic::power2::lemma_pow2_pos((8 * (i - 1)) as nat);
                lemma_pow2_adds(8, (8 * (i - 1)) as nat);
                lemma_div_denominator(v as int, 256, pow2((8 * (i - 1)) as nat) as int);
                assert((8 * i) as nat == 8 + (8 * (i - 1)) as nat);
                assert(le_byte(v as nat, i as nat) == le_byte(le_val(d), (i - 1) as nat));
                assert(nat_le(le_val(d), d.len())[i - 1] == d[i - 1]);
            }
        }
        assert(nat_le(v, s.len()) =~= s);
    }
}

} // verus!
