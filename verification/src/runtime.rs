//! The mode-agnostic transcript runtime surface and the random-oracle facade.

use vstd::prelude::*;

verus! {

use vstd::string::StringSliceAdditionalSpecFns;
use vstd::std_specs::hash::DefaultHasherAdditionalSpecFns;
use vstd::arithmetic::power2::pow2;
use vstd::arithmetic::power2::lemma2_to64;
use vstd::arithmetic::power2::lemma_pow2_adds;
use vstd::arithmetic::power2::lemma_pow2_strictly_increases;

/// Minimal, mode-agnostic runtime surface shared by the Fiat-Shamir and
/// Fischlin engines: a domain-separated, monotone absorption sink.
pub trait TranscriptRuntime {
    /// The bytes absorbed so far, in order.
    spec fn absorbed_bytes(&self) -> Seq<u8>;

    /// Absorb bytes under a domain-separated label. Absorption is monotone:
    /// the new state extends the old one by the framed label and data.
    fn absorb(&mut self, label: &str, bytes: &[u8])
        ensures
            final(self).absorbed_bytes() == old(self).absorbed_bytes() + framed_entry(
                label.spec_bytes(),
                bytes@,
            ),
    ;
}

/// The frame appended to a transcript buffer for one absorption: the label
/// and the data, each introduced by its own marker so that label and data
/// bytes can never be confused.
pub open spec fn framed_entry(label: Seq<u8>, data: Seq<u8>) -> Seq<u8> {
    marker_label() + label + marker_data() + data
}

/// The ASCII bytes of `"|label|"`.
pub open spec fn marker_label() -> Seq<u8> {
    seq![124u8, 108u8, 97u8, 98u8, 101u8, 108u8, 124u8]
}

/// The ASCII bytes of `"|data|"`.
pub open spec fn marker_data() -> Seq<u8> {
    seq![124u8, 100u8, 97u8, 116u8, 97u8, 124u8]
}

/// A pluggable random-oracle facade; the Fiat-Shamir and Fischlin engines
/// both rely on it. A digest is a pure function of the oracle value, the
/// label and the data, and computing one leaves the oracle unchanged.
#[allow(non_snake_case)]
pub trait RandomOracle: Sized {
    /// The full-length digest of labelled data, as a mathematical function.
    spec fn full_digest(&self, label: Seq<char>, data: Seq<u8>) -> Seq<u8>;

    /// The truncatable digest of labelled data, as a mathematical function.
    spec fn short_digest(&self, label: Seq<char>, data: Seq<u8>) -> Seq<u8>;

    /// Full hash used for transcript steps or the Fischlin common hash.
    fn H_full(&mut self, label: &str, data: &[u8]) -> (r: Vec<u8>)
        ensures
            *final(self) == *old(self),
            r@ == old(self).full_digest(label@, data@),
    ;

    /// A regular hash whose truncation drives the Fischlin predicate. It
    /// offers at least eight bytes, so that any width up to 56 bits can be
    /// truncated out of it.
    fn H(&mut self, label: &str, data: &[u8]) -> (r: Vec<u8>)
        ensures
            *final(self) == *old(self),
            r@ == old(self).short_digest(label@, data@),
            r@.len() >= 8,
    ;
}

/// The number of bytes a truncation to `b` bits reads: the bits rounded up
/// to bytes, at least one and at most eight.
pub open spec fn trunc_take_len(b: u8) -> nat {
    let k = (b as nat + 7) / 8;
    if k == 0 {
        1
    } else if k > 8 {
        8
    } else {
        k
    }
}

/// The low `b` bits of a byte sequence read as a little-endian integer.
pub open spec fn trunc_spec(s: Seq<u8>, b: u8) -> u64 {
    (crate::bytes::le_val(s.take(trunc_take_len(b) as int)) % pow2(
        b as nat,
    )) as u64
}

/// Truncate a digest to its low `b` bits, read little-endian; the Fischlin
/// predicate output.
pub fn trunc_b_to_u64(bytes: &[u8], b: u8) -> (r: u64)
    requires
        b <= 56,
        bytes@.len() >= trunc_take_len(b),
    ensures
        r == trunc_spec(bytes@, b),
{
    let take: usize = {
        let k = (b as usize + 7) / 8;
        if k == 0 {
            1
        } else {
            k
        }
    };
    proof {
        assert(take == trunc_take_len(b));
    }
    let ghost pre = bytes@.take(take as int);
    let mut v: u64 = 0;
    let mut j: usize = take;
    proof {
        lemma2_to64();
        assert(pre.subrange(take as int, take as int) =~= Seq::<u8>::empty());
    }
    while j > 0
        invariant
            j <= take,
            take <= 7,
            take <= bytes@.len(),
            pre == bytes@.take(take as int),
            v as nat == crate::bytes::le_val(pre.subrange(j as int, take as int)),
            (v as nat) < pow2(8 * (take - j) as nat),
        decreases j,
    {
        j -= 1;
        let b_j = bytes[j];
        proof {
            let tail = pre.subrange(j + 1, take as int);
            let cur = pre.subrange(j as int, take as int);
            assert(cur.drop_first() =~= tail);
            assert(cur[0] == b_j);
            lemma2_to64();
            vstd::arithmetic::power2::lemma2_to64_rest();
            lemma_pow2_adds(8 * (take - j - 1) as nat, 8);
            assert(8 * (take - j) as nat == 8 * (take - j - 1) as nat + 8);
            assert((v as nat) * 256 + (b_j as nat) < pow2(8 * (take - j) as nat))
                by (nonlinear_arith)
                requires
                    (v as nat) < pow2(8 * (take - j - 1) as nat),
                    pow2(8 * (take - j) as nat) == pow2(8 * (take - j - 1) as nat) * 256,
                    (b_j as nat) < 256,
            ;
            assert(pow2(8 * (take - j) as nat) <= pow2(56)) by {
                if 8 * (take - j) < 56 {
                    lemma_pow2_strictly_increases(8 * (take - j) as nat, 56);
                }
            }
            assert(crate::bytes::le_val(cur) == (b_j as nat) + 256 * crate::bytes::le_val(tail));
        }
        v = v * 256 + (b_j as u64);
    }
    proof {
        assert(pre.subrange(0, take as int) =~= pre);
        lemma2_to64();
        vstd::bits::lemma_u64_pow2_no_overflow(b as nat);
        vstd::bits::lemma_u64_shl_is_mul(1u64, b as u64);
    }
    let modulus = 1u64 << b;
    v % modulus
}

/// The caller-supplied checker for the protocol algebra of one repetition:
/// given the repetition index, the first message, the challenge and the
/// response, decide whether the Sigma-protocol equation holds. The calling
/// protocol implements this; its `accepts` function is the protocol's own
/// acceptance relation.
pub trait SigmaVerifier {
    /// The acceptance relation the checker computes.
    spec fn accepts(&self, i: int, m: Seq<u8>, e: Seq<u8>, z: Seq<u8>) -> bool;

    /// Decide one repetition.
    fn check(&self, i: usize, m: &[u8], e: &[u8], z: &[u8]) -> (r: bool)
        ensures
            r == self.accepts(i as int, m@, e@, z@),
    ;
}

/// A random oracle for tests and examples, built on the standard library's
/// hasher: each eight-byte block of the digest is the hash of the label,
/// the data, and the block index. Deterministic within a process; not a
/// cryptographic hash.
#[derive(Clone, Copy, Debug, PartialEq, Eq, Structural)]
pub struct StdRandomOracle {
}

/// One eight-byte block of [`StdRandomOracle`]'s digest.
pub open spec fn std_ro_block(label: Seq<char>, data: Seq<u8>, j: u8) -> Seq<u8> {
    crate::bytes::u64_le(
        std::collections::hash_map::DefaultHasher::spec_finish(
            seq![vstd::utf8::encode_utf8(label), data, seq![j]],
        ),
    )
}

impl StdRandomOracle {
    /// Create the oracle.
    pub fn new() -> (r: StdRandomOracle) {
        StdRandomOracle {  }
    }
}

impl RandomOracle for StdRandomOracle {
    open spec fn full_digest(&self, label: Seq<char>, data: Seq<u8>) -> Seq<u8> {
        std_ro_block(label, data, 0) + std_ro_block(label, data, 1) + std_ro_block(label, data, 2)
            + std_ro_block(label, data, 3)
    }

    open spec fn short_digest(&self, label: Seq<char>, data: Seq<u8>) -> Seq<u8> {
        self.full_digest(label, data)
    }

    fn H_full(&mut self, label: &str, data: &[u8]) -> (r: Vec<u8>) {
        let mut out: Vec<u8> = Vec::new();
        let b0 = std_ro_block_exec(label, data, 0);
        let b1 = std_ro_block_exec(label, data, 1);
        let b2 = std_ro_block_exec(label, data, 2);
        let b3 = std_ro_block_exec(label, data, 3);
        crate::bytes::push_u64_le(&mut out, b0);
        crate::bytes::push_u64_le(&mut out, b1);
        crate::bytes::push_u64_le(&mut out, b2);
        crate::bytes::push_u64_le(&mut out, b3);
        proof {
            assert(out@ =~= old(self).full_digest(label@, data@));
        }
        out
    }

    fn H(&mut self, label: &str, data: &[u8]) -> (r: Vec<u8>) {
        self.H_full(label, data)
    }
}

/// One block of [`StdRandomOracle`]'s digest, as executable code.
fn std_ro_block_exec(label: &str, data: &[u8], j: u8) -> (r: u64)
    ensures
        crate::bytes::u64_le(r) == std_ro_block(label@, data@, j),
{
    let mut h = std::collections::hash_map::DefaultHasher::new();
    std::hash::Hasher::write(&mut h, label.as_bytes());
    std::hash::Hasher::write(&mut h, data);
    let mut jv: Vec<u8> = Vec::new();
    jv.push(j);
    std::hash::Hasher::write(&mut h, jv.as_slice());
    proof {
        assert(jv@ =~= seq![j]);
        assert(h@ =~= seq![vstd::utf8::encode_utf8(label@), data@, seq![j]]);
    }
    std::hash::Hasher::finish(&h)
}

} // verus!
