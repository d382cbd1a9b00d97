//! The Fischlin proof value and its canonical byte format, together with
//! the verifier that replays the common hash and the predicate.

use vstd::prelude::*;

use crate::bytes::le_val;
use crate::bytes::lemma_le_val_u16;
use crate::bytes::push_u16_le;
use crate::bytes::read_u16_le;
use crate::bytes::u16_le;
use crate::codec::dec_list;
use crate::codec::decode_list;
use crate::codec::enc_list;
use crate::codec::encode_list;
use crate::codec::lemma_dec_enc_list;
use crate::codec::lemma_deep_entry;
use crate::codec::list_valid;
use crate::fischlin::common_hash;
use crate::fischlin::params_sound;
use crate::fischlin::pred_holds;
use crate::fischlin::pred_prefix_bytes;
use crate::fischlin::FischlinOracle;
use crate::fischlin::FischlinParams;
use crate::fischlin::Phase;
use crate::runtime::RandomOracle;
use crate::runtime::SigmaVerifier;

verus! {

/// A Fischlin proof: per repetition one first message, one accepted
/// challenge and one response, plus the claimed parameters.
#[derive(Clone, Debug, PartialEq, Eq)]
pub struct FischlinProof {
    /// The first messages, one per repetition.
    pub m: Vec<Vec<u8>>,
    /// The accepted challenges, one per repetition.
    pub e: Vec<Vec<u8>>,
    /// The responses, one per repetition.
    pub z: Vec<Vec<u8>>,
    /// The predicate width in bits the proof claims.
    pub b: u8,
    /// The repetition count the proof claims.
    pub rho: u16,
}

/// The mathematical value of a Fischlin proof.
pub struct FischlinProofView {
    /// The first messages.
    pub m: Seq<Seq<u8>>,
    /// The accepted challenges.
    pub e: Seq<Seq<u8>>,
    /// The responses.
    pub z: Seq<Seq<u8>>,
    /// The predicate width in bits.
    pub b: u8,
    /// The repetition count.
    pub rho: u16,
}

impl View for FischlinProof {
    type V = FischlinProofView;

    open spec fn view(&self) -> FischlinProofView {
        FischlinProofView {
            m: self.m.deep_view(),
            e: self.e.deep_view(),
            z: self.z.deep_view(),
            b: self.b,
            rho: self.rho,
        }
    }
}

/// The nine leading tag bytes of the format: ASCII `FISCHLIN`, then NUL.
pub open spec fn tag_fischlin() -> Seq<u8> {
    seq![70u8, 73u8, 83u8, 67u8, 72u8, 76u8, 73u8, 78u8, 0u8]
}

/// The proof fits the wire format: all three lists and their items fit
/// the `u32` prefixes.
pub open spec fn fischlin_encodable(v: FischlinProofView) -> bool {
    &&& list_valid(v.m)
    &&& list_valid(v.e)
    &&& list_valid(v.z)
}

/// A proof is well-formed when the three lists agree in length and have
/// exactly `rho` entries.
pub open spec fn fischlin_well_formed(v: FischlinProofView) -> bool {
    &&& v.m.len() == v.e.len()
    &&& v.e.len() == v.z.len()
    &&& v.m.len() == v.rho as int
}

/// The canonical encoding: tag, repetition count, predicate width, then
/// the lists of first messages, challenges and responses.
pub open spec fn enc_fischlin(v: FischlinProofView) -> Seq<u8> {
    tag_fischlin() + u16_le(v.rho) + seq![v.b] + enc_list(v.m) + enc_list(v.e) + enc_list(v.z)
}

/// The spec-level decoder; trailing bytes after the three lists are
/// ignored, truncated or mistagged input yields nothing.
pub open spec fn dec_fischlin(s: Seq<u8>) -> Option<FischlinProofView> {
    if s.len() < 12 {
        None
    } else if s.subrange(0, 9) != tag_fischlin() {
        None
    } else {
        let rho = le_val(s.subrange(9, 11)) as u16;
        let b = s[11];
        match dec_list(s.skip(12)) {
            None => None,
            Some((m, rem1)) => match dec_list(rem1) {
                None => None,
                Some((e, rem2)) => match dec_list(rem2) {
                    None => None,
                    Some((z, _)) => Some(FischlinProofView { m, e, z, b, rho }),
                },
            },
        }
    }
}

/// Round trip: decoding an encoded proof yields exactly that proof,
/// whatever bytes follow it.
pub proof fn lemma_fischlin_round_trip(v: FischlinProofView, rest: Seq<u8>)
    requires
        fischlin_encodable(v),
    ensures
        dec_fischlin(enc_fischlin(v) + rest) == Some(v),
{
    let s = enc_fischlin(v) + rest;
    assert(s.subrange(0, 9) =~= tag_fischlin());
    assert(s.subrange(9, 11) =~= u16_le(v.rho));
    lemma_le_val_u16(v.rho);
    assert(s[11] == v.b);
    assert(s.skip(12) =~= enc_list(v.m) + (enc_list(v.e) + (enc_list(v.z) + rest)));
    lemma_dec_enc_list(v.m, enc_list(v.e) + (enc_list(v.z) + rest));
    lemma_dec_enc_list(v.e, enc_list(v.z) + rest);
    lemma_dec_enc_list(v.z, rest);
}

impl FischlinProof {
    /// The number of repetitions actually present.
    pub fn len(&self) -> (r: usize)
        ensures
            r == self@.m.len(),
    {
        self.m.len()
    }

    /// True exactly when the three lists agree and have `rho` entries.
    pub fn is_well_formed(&self) -> (r: bool)
        ensures
            r == fischlin_well_formed(self@),
    {
        self.m.len() == self.e.len() && self.e.len() == self.z.len() && self.m.len()
            == self.rho as usize
    }

    /// Encode the proof into its canonical byte format.
    pub fn encode(&self) -> (out: Vec<u8>)
        requires
            fischlin_encodable(self@),
        ensures
            out@ == enc_fischlin(self@),
    {
        let mut out: Vec<u8> = Vec::new();
        out.push(70u8);
        out.push(73u8);
        out.push(83u8);
        out.push(67u8);
        out.push(72u8);
        out.push(76u8);
        out.push(73u8);
        out.push(78u8);
        out.push(0u8);
        proof {
            assert(out@ =~= tag_fischlin());
        }
        push_u16_le(&mut out, self.rho);
        out.push(self.b);
        proof {
            assert(out@ =~= tag_fischlin() + u16_le(self.rho) + seq![self.b]);
        }
        encode_list(&mut out, &self.m);
        encode_list(&mut out, &self.e);
        encode_list(&mut out, &self.z);
        proof {
            assert(out@ =~= enc_fischlin(self@));
        }
        out
    }

    /// Decode a proof from the front of `input`, validating the tag and
    /// every length prefix; trailing bytes are ignored.
    pub fn decode(input: &[u8]) -> (r: Option<FischlinProof>)
        ensures
            match r {
                Some(p) => dec_fischlin(input@) == Some(p@),
                None => dec_fischlin(input@) is None,
            },
    {
        if input.len() < 12 {
            return None;
        }
        if input[0] != 70 || input[1] != 73 || input[2] != 83 || input[3] != 67 || input[4] != 72
            || input[5] != 76 || input[6] != 73 || input[7] != 78 || input[8] != 0 {
            proof {
                assert(input@.subrange(0, 9) != tag_fischlin());
            }
            return None;
        }
        proof {
            assert(input@.subrange(0, 9) =~= tag_fischlin());
        }
        let rho = read_u16_le(input, 9);
        proof {
            assert(input@.subrange(9, 11) == input@.subrange(9int, 11int));
        }
        let b = input[11];
        let (m, pos1) = match decode_list(input, 12) {
            None => {
                return None;
            },
            Some(p) => p,
        };
        let (e, pos2) = match decode_list(input, pos1) {
            None => {
                return None;
            },
            Some(p) => p,
        };
        let (z, _pos3) = match decode_list(input, pos2) {
            None => {
                return None;
            },
            Some(p) => p,
        };
        Some(FischlinProof { m, e, z, b, rho })
    }
}

/// The whole outcome of `verify_fischlin`: the proof is well-formed, its
/// embedded parameters match the caller's, the parameters meet the
/// soundness inequality, and every repetition passes both the caller's
/// protocol algebra and the replayed predicate against the recomputed
/// common hash.
pub open spec fn fischlin_verify_spec<RO: RandomOracle, V: SigmaVerifier>(
    ro: RO,
    params: FischlinParams,
    statement: Seq<u8>,
    sid: Seq<u8>,
    p: FischlinProofView,
    v: V,
) -> bool {
    &&& fischlin_well_formed(p)
    &&& p.b == params.b
    &&& p.rho == params.rho
    &&& params_sound(params)
    &&& forall|i: int| 0 <= i < p.m.len() ==> #[trigger] v.accepts(i, p.m[i], p.e[i], p.z[i])
    &&& forall|i: int|
        0 <= i < p.m.len() ==> #[trigger] pred_holds(
            ro,
            params.b,
            pred_prefix_bytes(common_hash(ro, statement, sid, p.m), i as u32),
            p.e[i],
            p.z[i],
        )
}

/// Verify a Fischlin proof: reject a malformed shape, a parameter
/// mismatch or unsound parameters, replay the common hash over the first
/// messages, and check the caller's protocol algebra and the predicate
/// for every repetition. Returns exactly what the verification spec says.
#[verifier::loop_isolation(false)]
pub fn verify_fischlin<RO: RandomOracle, V: SigmaVerifier>(
    ro: RO,
    params: FischlinParams,
    x_bytes: &[u8],
    sid: &[u8],
    proof: &FischlinProof,
    sigma_verify: &V,
) -> (r: bool)
    requires
        params.b <= 56,
    ensures
        r == fischlin_verify_spec(ro, params, x_bytes@, sid@, proof@, *sigma_verify),
{
    let ghost ro0 = ro;
    if !proof.is_well_formed() {
        return false;
    }
    if proof.b != params.b || proof.rho != params.rho {
        return false;
    }
    let loss = crate::fischlin::ceil_log2_n_minus_1(params.n_special as u32);
    if (params.b as u32) < loss {
        return false;
    }
    proof {
        vstd::arithmetic::mul::lemma_mul_upper_bound(params.rho as int, 0xFFFF, (params.b as u32
            - loss) as int, 0xFF);
    }
    if (params.rho as u32) * (params.b as u32 - loss) < params.kappa_c as u32 {
        return false;
    }
    let mut oracle = FischlinOracle::new(ro, params);
    oracle.begin_verifier(x_bytes, sid);
    let mut j: usize = 0;
    proof {
        assert(proof@.m.take(0) =~= Seq::<Seq<u8>>::empty());
    }
    while j < proof.m.len()
        invariant
            j <= proof.m@.len(),
            oracle.oracle() == ro0,
            oracle.params() == params,
            oracle.phase() == Phase::CollectingFirstMsgs,
            oracle.statement() == x_bytes@,
            oracle.sid() == sid@,
            oracle.msgs() == proof@.m.take(j as int),
            proof@.m.len() == proof.m@.len(),
        decreases proof.m@.len() - j,
    {
        proof {
            lemma_deep_entry(&proof.m, j as int);
            assert(proof@.m.take(j + 1) =~= proof@.m.take(j as int).push(proof@.m[j as int]));
        }
        let _ = oracle.push_first_message_verifier(proof.m[j].as_slice());
        j += 1;
    }
    proof {
        assert(proof@.m.take(proof@.m.len() as int) =~= proof@.m);
    }
    let _ = oracle.verifier_finalize_common_h();
    let ghost ch = common_hash(ro0, x_bytes@, sid@, proof@.m);
    let mut i: usize = 0;
    while i < proof.m.len()
        invariant
            i <= proof.m@.len(),
            oracle.oracle() == ro0,
            oracle.params() == params,
            oracle.common() == Some(ch),
            proof@.m.len() == proof.m@.len(),
            proof@.e.len() == proof.e@.len(),
            proof@.z.len() == proof.z@.len(),
            fischlin_well_formed(proof@),
            forall|k: int|
                0 <= k < i ==> #[trigger] sigma_verify.accepts(k, proof@.m[k], proof@.e[k], proof@.z[k]),
            forall|k: int|
                0 <= k < i ==> #[trigger] pred_holds(
                    ro0,
                    params.b,
                    pred_prefix_bytes(ch, k as u32),
                    proof@.e[k],
                    proof@.z[k],
                ),
        decreases proof.m@.len() - i,
    {
        proof {
            lemma_deep_entry(&proof.m, i as int);
            lemma_deep_entry(&proof.e, i as int);
            lemma_deep_entry(&proof.z, i as int);
        }
        if !sigma_verify.check(
            i,
            proof.m[i].as_slice(),
            proof.e[i].as_slice(),
            proof.z[i].as_slice(),
        ) {
            return false;
        }
        let prefix = match oracle.predicate_prefix(i as u32) {
            Ok(p) => p,
            Err(_) => {
                return false;
            },
        };
        if !oracle.hb_zero_from_prefix(
            prefix.as_slice(),
            proof.e[i].as_slice(),
            proof.z[i].as_slice(),
        ) {
            return false;
        }
        i += 1;
    }
    true
}

/// Verifier agreement, per repetition: the challenge/response pair that a
/// predicate search returned for the common hash of a statement, session
/// id and first-message list satisfies exactly the predicate that
/// `verify_fischlin` recomputes from the same inputs.
pub proof fn lemma_search_hit_verifies<RO: RandomOracle, G: crate::fischlin::ResponseGen>(
    ro: RO,
    b: u8,
    statement: Seq<u8>,
    sid: Seq<u8>,
    ms: Seq<Seq<u8>>,
    i: u32,
    g: G,
    t: u8,
    ev: u64,
    e: Seq<u8>,
    z: Seq<u8>,
)
    requires
        crate::fischlin::search_hit(
            ro,
            b,
            common_hash(ro, statement, sid, ms),
            i,
            g,
            t,
            ev,
            e,
            z,
        ),
    ensures
        pred_holds(ro, b, pred_prefix_bytes(common_hash(ro, statement, sid, ms), i), e, z),
{
}

/// Verifier agreement, whole proof: a well-formed proof whose embedded
/// parameters are the verifier's sound parameters, whose triples the
/// caller's checker accepts, and whose pairs all pass the predicate
/// against the common hash of the same statement, session id and first
/// messages, is exactly a proof the Fischlin verification spec accepts.
pub proof fn lemma_fischlin_verifier_agreement<RO: RandomOracle, V: SigmaVerifier>(
    ro: RO,
    params: FischlinParams,
    statement: Seq<u8>,
    sid: Seq<u8>,
    p: FischlinProofView,
    v: V,
)
    requires
        fischlin_well_formed(p),
        p.b == params.b,
        p.rho == params.rho,
        params_sound(params),
        forall|i: int| 0 <= i < p.m.len() ==> #[trigger] v.accepts(i, p.m[i], p.e[i], p.z[i]),
        forall|i: int|
            0 <= i < p.m.len() ==> #[trigger] pred_holds(
                ro,
                params.b,
                pred_prefix_bytes(common_hash(ro, statement, sid, p.m), i as u32),
                p.e[i],
                p.z[i],
            ),
    ensures
        fischlin_verify_spec(ro, params, statement, sid, p, v),
{
}

} // verus!
