//! A reference instantiation of the caller-facing contracts, over a toy
//! additive group modulo a Mersenne prime: a Schnorr-style checker,
//! response generators for the search rounds, a field check for the
//! timeline interpreter, and a bindable commit message. The test suite
//! drives the engines through these; nothing here is cryptographically
//! secure.

use vstd::prelude::*;

use crate::bytes::le_val;
use crate::bytes::u64_le;
use crate::errors::ProveError;
use crate::errors::ProveResult;
use crate::fischlin::ResponseGen;
use crate::fischlin::ResponseStream;
use crate::fischlin::ProveAttempt;
use crate::replay::ProofCheck;
use crate::runtime::SigmaVerifier;
use crate::transcript::Absorb;
use crate::transcript::Bindable;
use crate::transcript::Direction;
use crate::transcript::Message;

verus! {

use vstd::string::StringSliceAdditionalSpecFns;

/// The toy modulus: a Mersenne prime that fits 31 bits.
pub const TOY_MOD: u64 = 2_147_483_647;

/// Scalar multiplication in the toy group, as a mathematical function.
pub open spec fn toy_smul(k: nat, x: nat) -> nat {
    (k * x) % (TOY_MOD as nat)
}

/// Group addition in the toy group, as a mathematical function.
pub open spec fn toy_gadd(a: nat, b: nat) -> nat {
    (a + b) % (TOY_MOD as nat)
}

/// The value of at most the first eight little-endian bytes.
pub open spec fn toy_dec(s: Seq<u8>) -> nat {
    le_val(
        s.take(
            if s.len() < 8 {
                s.len() as int
            } else {
                8
            },
        ),
    )
}

/// The challenge scalar a byte challenge reduces to.
pub open spec fn toy_chal(e: Seq<u8>) -> nat {
    toy_dec(e) % (TOY_MOD as nat)
}

/// Scalar multiplication in the toy group.
pub fn smul(k: u64, x: u64) -> (r: u64)
    ensures
        r as nat == toy_smul(k as nat, x as nat),
        r < TOY_MOD,
{
    proof {
        vstd::arithmetic::mul::lemma_mul_upper_bound(
            k as int,
            0xFFFF_FFFF_FFFF_FFFF,
            x as int,
            0xFFFF_FFFF_FFFF_FFFF,
        );
        vstd::arithmetic::div_mod::lemma_mod_division_less_than_divisor(
            (k as int) * (x as int),
            TOY_MOD as int,
        );
    }
    (((k as u128) * (x as u128)) % (TOY_MOD as u128)) as u64
}

/// Group addition in the toy group.
pub fn gadd(a: u64, b: u64) -> (r: u64)
    ensures
        r as nat == toy_gadd(a as nat, b as nat),
        r < TOY_MOD,
{
    proof {
        vstd::arithmetic::div_mod::lemma_mod_division_less_than_divisor(
            a as int + b as int,
            TOY_MOD as int,
        );
    }
    (((a as u128) + (b as u128)) % (TOY_MOD as u128)) as u64
}

/// Read at most the first eight little-endian bytes as an integer.
pub fn dec_u64_le(bytes: &[u8]) -> (r: u64)
    ensures
        r as nat == toy_dec(bytes@),
{
    let take: usize = if bytes.len() < 8 {
        bytes.len()
    } else {
        8
    };
    let ghost pre = bytes@.take(take as int);
    let mut v: u64 = 0;
    let mut j: usize = take;
    proof {
        vstd::arithmetic::power2::lemma2_to64();
        assert(pre.subrange(take as int, take as int) =~= Seq::<u8>::empty());
    }
    while j > 0
        invariant
            j <= take,
            take <= 8,
            take <= bytes@.len(),
            pre == bytes@.take(take as int),
            v as nat == le_val(pre.subrange(j as int, take as int)),
            (v as nat) < vstd::arithmetic::power2::pow2((8 * (take - j)) as nat),
        decreases j,
    {
        j -= 1;
        let b_j = bytes[j];
        proof {
            let tail = pre.subrange(j + 1, take as int);
            let cur = pre.subrange(j as int, take as int);
            assert(cur.drop_first() =~= tail);
            assert(cur[0] == b_j);
            vstd::arithmetic::power2::lemma2_to64();
            vstd::arithmetic::power2::lemma2_to64_rest();
            vstd::arithmetic::power2::lemma_pow2_adds((8 * (take - j - 1)) as nat, 8);
            assert((8 * (take - j)) as nat == (8 * (take - j - 1)) as nat + 8);
            assert((v as nat) * 256 + (b_j as nat) < vstd::arithmetic::power2::pow2(
                (8 * (take - j)) as nat,
            )) by (nonlinear_arith)
                requires
                    (v as nat) < vstd::arithmetic::power2::pow2((8 * (take - j - 1)) as nat),
                    vstd::arithmetic::power2::pow2((8 * (take - j)) as nat)
                        == vstd::arithmetic::power2::pow2((8 * (take - j - 1)) as nat) * 256,
                    (b_j as nat) < 256,
            ;
            assert(vstd::arithmetic::power2::pow2((8 * (take - j)) as nat)
                <= vstd::arithmetic::power2::pow2(64)) by {
                if 8 * (take - j) < 64 {
                    vstd::arithmetic::power2::lemma_pow2_strictly_increases(
                        (8 * (take - j)) as nat,
                        64,
                    );
                }
            }
            assert(le_val(cur) == (b_j as nat) + 256 * le_val(tail));
        }
        v = v * 256 + (b_j as u64);
    }
    proof {
        assert(pre.subrange(0, take as int) =~= pre);
    }
    v
}

/// Encode a toy group or scalar element as eight little-endian bytes.
pub fn enc_u64_le(x: u64) -> (r: Vec<u8>)
    ensures
        r@ == u64_le(x),
{
    let mut out: Vec<u8> = Vec::new();
    crate::bytes::push_u64_le(&mut out, x);
    out
}

/// The Schnorr-style checker over the toy group: accept a triple when
/// `z * g == t + e * y` in the group.
pub struct ToySchnorrVerifier {
    /// The generator.
    pub g: u64,
    /// The public key `w * g`.
    pub y: u64,
}

impl SigmaVerifier for ToySchnorrVerifier {
    open spec fn accepts(&self, i: int, m: Seq<u8>, e: Seq<u8>, z: Seq<u8>) -> bool {
        toy_smul(toy_dec(z), self.g as nat) == toy_gadd(
            toy_dec(m),
            toy_smul(toy_chal(e), self.y as nat),
        )
    }

    fn check(&self, i: usize, m: &[u8], e: &[u8], z: &[u8]) -> (r: bool) {
        let t = dec_u64_le(m);
        let e_val = dec_u64_le(e) % TOY_MOD;
        let z_val = dec_u64_le(z);
        smul(z_val, self.g) == gadd(t, smul(e_val, self.y))
    }
}

/// The Schnorr-style responder: for challenge bytes `e` the response is
/// `r + e * w` in the toy group.
pub struct ToyResponder {
    /// The witness.
    pub w: u64,
    /// The per-repetition nonce.
    pub r: u64,
}

/// The response of the toy responder for given challenge bytes.
pub open spec fn toy_response(w: u64, r: u64, e: Seq<u8>) -> nat {
    toy_gadd((r as nat) % (TOY_MOD as nat), toy_smul(toy_chal(e), w as nat))
}

impl ResponseGen for ToyResponder {
    open spec fn z_of(&self, e: Seq<u8>) -> Seq<u8> {
        u64_le(toy_response(self.w, self.r, e) as u64)
    }

    fn gen_z(&self, e: &[u8]) -> (z: Vec<u8>) {
        let e_val = dec_u64_le(e) % TOY_MOD;
        let z_val = gadd(self.r % TOY_MOD, smul(e_val, self.w));
        proof {
            assert(z_val as nat == toy_response(self.w, self.r, e@));
        }
        enc_u64_le(z_val)
    }
}

/// An incremental response stream for the streaming search: trial `k`
/// answers with `cur + k * w`, one group addition per trial.
pub struct ToyResponseStream {
    /// The response of the next trial.
    pub cur: u64,
    /// The step added per trial.
    pub w: u64,
}

impl ResponseStream for ToyResponseStream {
    open spec fn head(&self) -> Seq<u8> {
        u64_le(self.cur)
    }

    open spec fn tail(&self) -> Self {
        ToyResponseStream { cur: (toy_gadd(self.cur as nat, self.w as nat)) as u64, w: self.w }
    }

    fn next_z(&mut self) -> (z: Vec<u8>) {
        let z = enc_u64_le(self.cur);
        self.cur = gadd(self.cur, self.w);
        z
    }
}

/// The field check of the timeline interpreter for the toy protocol:
/// three fields (the commitment, the challenge, the response), accepted
/// when the Schnorr-style equation holds over them.
pub struct ToySchnorrCheck {
    /// The generator.
    pub g: u64,
    /// The public key.
    pub y: u64,
}

impl ProofCheck for ToySchnorrCheck {
    open spec fn ok(&self, values: Seq<Seq<u8>>) -> bool {
        &&& values.len() == 3
        &&& toy_smul(toy_dec(values[2]), self.g as nat) == toy_gadd(
            toy_dec(values[0]),
            toy_smul(toy_chal(values[1]), self.y as nat),
        )
    }

    fn check(&self, values: &Vec<Vec<u8>>) -> (r: bool) {
        if values.len() != 3 {
            return false;
        }
        proof {
            crate::codec::lemma_deep_entry(values, 0);
            crate::codec::lemma_deep_entry(values, 1);
            crate::codec::lemma_deep_entry(values, 2);
        }
        let t = dec_u64_le(values[0].as_slice());
        let e_val = dec_u64_le(values[1].as_slice()) % TOY_MOD;
        let z_val = dec_u64_le(values[2].as_slice());
        smul(z_val, self.g) == gadd(t, smul(e_val, self.y))
    }
}

/// A commit message of the toy protocol: one group element, discharging
/// the first obligation bit when absorbed.
pub struct ToyCommit {
    /// The commitment `r * g`.
    pub t: u64,
}

impl Bindable for ToyCommit {
    open spec fn oblig_mask_spec() -> u128 {
        1u128
    }

    open spec fn bound_entries(&self) -> Seq<(Seq<char>, Seq<u8>)> {
        seq![("Commit.t"@, u64_le(self.t))]
    }

    fn oblig_mask() -> (r: u128) {
        1u128
    }

    fn bind<A: Absorb>(&self, a: &mut A) {
        let bytes = enc_u64_le(self.t);
        a.absorb_bytes("Commit.t", bytes.as_slice());
        proof {
            assert(old(a).absorbed() + self.bound_entries() =~= old(a).absorbed().push(
                ("Commit.t"@, u64_le(self.t)),
            ));
        }
    }
}

impl Message for ToyCommit {
    fn direction() -> Direction {
        Direction::ProverToVerifier
    }

    fn label() -> &'static str {
        "Commit"
    }
}

/// A scripted attempt for the retry harness: fail with the retry error
/// until the scripted attempt number, then succeed with a fixed value.
pub struct ScriptedAttempt {
    /// The attempt number that succeeds.
    pub succeed_at: usize,
    /// The value a success returns.
    pub value: u64,
}

impl<O> ProveAttempt<O> for ScriptedAttempt {
    type Proof = u64;

    open spec fn possible(r: ProveResult<u64>) -> bool {
        !(r matches Err(e) && e is Malformed)
    }

    fn prepare(&mut self, _oracle: &mut O, _attempt: usize) -> (r: ProveResult<()>) {
        Ok(())
    }

    fn try_once(&mut self, _oracle: &mut O, attempt: usize) -> (r: ProveResult<u64>) {
        if attempt >= self.succeed_at {
            Ok(self.value)
        } else {
            Err(ProveError::RetryNeeded)
        }
    }
}

} // verus!
