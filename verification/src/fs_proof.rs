//! The Fiat-Shamir proof value and its canonical byte format, together
//! with the verifier that replays the oracle against a decoded proof.

use vstd::prelude::*;

use crate::bytes::le_val;
use crate::bytes::lemma_le_val_u16;
use crate::bytes::push_u16_le;
use crate::bytes::read_u16_le;
use crate::bytes::u16_le;
use crate::codec::dec_list;
use crate::codec::decode_list;
use crate::codec::enc_list;
use crate::codec::encode_list;
use crate::codec::lemma_dec_enc_list;
use crate::codec::lemma_deep_entry;
use crate::codec::list_valid;
use crate::fs_runtime::fs_derive;
use crate::fs_runtime::FSOracle;
use crate::runtime::framed_entry;
use crate::runtime::RandomOracle;
use crate::runtime::SigmaVerifier;
use crate::runtime::TranscriptRuntime;

verus! {

use vstd::string::StringSliceAdditionalSpecFns;

/// A Fiat-Shamir proof: one first message and one response per repetition,
/// plus the repetition count and the challenge width in bits.
#[derive(Clone, Debug, PartialEq, Eq)]
pub struct FsProof {
    /// The first messages, one per repetition.
    pub m: Vec<Vec<u8>>,
    /// The responses, one per repetition.
    pub z: Vec<Vec<u8>>,
    /// The repetition count the proof claims.
    pub rho: u16,
    /// The challenge width in bits the proof claims.
    pub b: u8,
}

/// The mathematical value of a Fiat-Shamir proof.
pub struct FsProofView {
    /// The first messages.
    pub m: Seq<Seq<u8>>,
    /// The responses.
    pub z: Seq<Seq<u8>>,
    /// The repetition count.
    pub rho: u16,
    /// The challenge width in bits.
    pub b: u8,
}

impl View for FsProof {
    type V = FsProofView;

    open spec fn view(&self) -> FsProofView {
        FsProofView { m: self.m.deep_view(), z: self.z.deep_view(), rho: self.rho, b: self.b }
    }
}

/// The three leading tag bytes of the format: ASCII `F`, `S`, then NUL.
pub open spec fn tag_fs() -> Seq<u8> {
    seq![70u8, 83u8, 0u8]
}

/// The proof fits the wire format: both lists and their items fit the
/// `u32` prefixes.
pub open spec fn fs_encodable(v: FsProofView) -> bool {
    &&& list_valid(v.m)
    &&& list_valid(v.z)
}

/// A proof is well-formed when both lists have exactly `rho` entries and
/// the challenge width is nonzero.
pub open spec fn fs_well_formed(v: FsProofView) -> bool {
    &&& v.m.len() == v.z.len()
    &&& v.m.len() == v.rho as int
    &&& v.b > 0
}

/// The canonical encoding: tag, repetition count, challenge width, the
/// list of first messages, the list of responses.
pub open spec fn enc_fs(v: FsProofView) -> Seq<u8> {
    tag_fs() + u16_le(v.rho) + seq![v.b] + enc_list(v.m) + enc_list(v.z)
}

/// The spec-level decoder; trailing bytes after the two lists are ignored,
/// truncated or mistagged input yields nothing.
pub open spec fn dec_fs(s: Seq<u8>) -> Option<FsProofView> {
    if s.len() < 6 {
        None
    } else if s.subrange(0, 3) != tag_fs() {
        None
    } else {
        let rho = le_val(s.subrange(3, 5)) as u16;
        let b = s[5];
        match dec_list(s.skip(6)) {
            None => None,
            Some((m, rem)) => match dec_list(rem) {
                None => None,
                Some((z, _)) => Some(FsProofView { m, z, rho, b }),
            },
        }
    }
}

/// Round trip: decoding an encoded proof yields exactly that proof,
/// whatever bytes follow it.
pub proof fn lemma_fs_round_trip(v: FsProofView, rest: Seq<u8>)
    requires
        fs_encodable(v),
    ensures
        dec_fs(enc_fs(v) + rest) == Some(v),
{
    let s = enc_fs(v) + rest;
    assert(s.subrange(0, 3) =~= tag_fs());
    assert(s.subrange(3, 5) =~= u16_le(v.rho));
    lemma_le_val_u16(v.rho);
    assert(s[5] == v.b);
    assert(s.skip(6) =~= enc_list(v.m) + (enc_list(v.z) + rest));
    lemma_dec_enc_list(v.m, enc_list(v.z) + rest);
    lemma_dec_enc_list(v.z, rest);
}

impl FsProof {
    /// The number of repetitions actually present.
    pub fn len(&self) -> (r: usize)
        ensures
            r == self@.m.len(),
    {
        self.m.len()
    }

    /// True exactly when both lists have `rho` entries and `b` is nonzero.
    pub fn is_well_formed(&self) -> (r: bool)
        ensures
            r == fs_well_formed(self@),
    {
        self.m.len() == self.z.len() && self.m.len() == self.rho as usize && self.b > 0
    }

    /// Encode the proof into its canonical byte format.
    pub fn encode(&self) -> (out: Vec<u8>)
        requires
            fs_encodable(self@),
        ensures
            out@ == enc_fs(self@),
    {
        let mut out: Vec<u8> = Vec::new();
        out.push(70u8);
        out.push(83u8);
        out.push(0u8);
        proof {
            assert(out@ =~= tag_fs());
        }
        push_u16_le(&mut out, self.rho);
        out.push(self.b);
        proof {
            assert(out@ =~= tag_fs() + u16_le(self.rho) + seq![self.b]);
        }
        encode_list(&mut out, &self.m);
        encode_list(&mut out, &self.z);
        proof {
            assert(out@ =~= enc_fs(self@));
        }
        out
    }

    /// Decode a proof from the front of `input`, validating the tag and
    /// every length prefix; trailing bytes are ignored.
    pub fn decode(input: &[u8]) -> (r: Option<FsProof>)
        ensures
            match r {
                Some(p) => dec_fs(input@) == Some(p@),
                None => dec_fs(input@) is None,
            },
    {
        if input.len() < 6 {
            return None;
        }
        if input[0] != 70 || input[1] != 83 || input[2] != 0 {
            proof {
                assert(input@.subrange(0, 3) != tag_fs());
            }
            return None;
        }
        proof {
            assert(input@.subrange(0, 3) =~= tag_fs());
        }
        let rho = read_u16_le(input, 3);
        proof {
            assert(input@.subrange(3, 5) == input@.subrange(3int, 5int));
        }
        let b = input[5];
        let (m, pos1) = match decode_list(input, 6) {
            None => {
                return None;
            },
            Some(p) => p,
        };
        let (z, _pos2) = match decode_list(input, pos1) {
            None => {
                return None;
            },
            Some(p) => p,
        };
        Some(FsProof { m, z, rho, b })
    }
}

/// The ASCII bytes of `"FS"`, the mode value absorbed first.
pub open spec fn fs_mode_value() -> Seq<u8> {
    seq![70u8, 83u8]
}

/// The frames appended for a list of messages absorbed one by one under a
/// single label.
pub open spec fn frames_of(items: Seq<Seq<u8>>, label: Seq<u8>) -> Seq<u8>
    decreases items.len(),
{
    if items.len() == 0 {
        Seq::empty()
    } else {
        framed_entry(label, items[0]) + frames_of(items.drop_first(), label)
    }
}

/// Absorbing one more message appends its frame.
pub proof fn lemma_frames_of_push(items: Seq<Seq<u8>>, label: Seq<u8>, x: Seq<u8>)
    ensures
        frames_of(items.push(x), label) == frames_of(items, label) + framed_entry(label, x),
    decreases items.len(),
{
    if items.len() == 0 {
        assert(items.push(x).drop_first() =~= Seq::<Seq<u8>>::empty());
        assert(items.push(x)[0] == x);
        assert(frames_of(items, label) == Seq::<u8>::empty());
        assert(frames_of(items.push(x).drop_first(), label) == Seq::<u8>::empty());
        assert(frames_of(items.push(x), label) =~= frames_of(items, label) + framed_entry(
            label,
            x,
        ));
    } else {
        lemma_frames_of_push(items.drop_first(), label, x);
        assert(items.push(x).drop_first() =~= items.drop_first().push(x));
        assert(items.push(x)[0] == items[0]);
        assert(frames_of(items.push(x), label) =~= frames_of(items, label) + framed_entry(
            label,
            x,
        ));
    }
}

/// The transcript after the common absorptions of `verify_fs`: the mode,
/// the statement, the session id and every first message, appended to
/// whatever the oracle had absorbed before.
pub open spec fn fs_init_buf(
    buf0: Seq<u8>,
    statement: Seq<u8>,
    sid: Seq<u8>,
    m: Seq<Seq<u8>>,
) -> Seq<u8> {
    buf0 + framed_entry("mode".spec_bytes(), fs_mode_value()) + framed_entry(
        "x".spec_bytes(),
        statement,
    ) + framed_entry("sid".spec_bytes(), sid) + frames_of(m, "m_i".spec_bytes())
}

/// The challenge byte length for a width of `b` bits: the bits rounded up
/// to bytes, and at least one byte.
pub open spec fn chal_len_of(b: u8) -> nat {
    if (b as nat + 7) / 8 == 0 {
        1
    } else {
        (b as nat + 7) / 8
    }
}

/// Mask off the unused high bits of the last challenge byte when `b` is
/// not a multiple of eight.
pub open spec fn mask_challenge(e: Seq<u8>, b: u8) -> Seq<u8> {
    if b % 8 == 0 || e.len() == 0 {
        e
    } else {
        e.update(e.len() - 1, e[e.len() - 1] & (((1u8 << (b % 8)) - 1) as u8))
    }
}

/// The challenge of one repetition: derived from the transcript under the
/// repetition label, then masked to `b` bits.
pub open spec fn fs_round_challenge<RO: RandomOracle>(ro: RO, buf: Seq<u8>, b: u8) -> Seq<u8> {
    mask_challenge(fs_derive(ro, buf, "e_i"@, Seq::<u8>::empty(), chal_len_of(b)), b)
}

/// The transcript after one repetition: the challenge and the response
/// are absorbed in turn.
pub open spec fn fs_buf_next(buf: Seq<u8>, e: Seq<u8>, z: Seq<u8>) -> Seq<u8> {
    buf + framed_entry("e_i".spec_bytes(), e) + framed_entry("z_i".spec_bytes(), z)
}

/// All repetitions from `i` on pass: each challenge is re-derived from
/// the transcript, absorbed together with the response, and the caller's
/// acceptance relation holds for the triple.
pub open spec fn fs_rounds_ok<RO: RandomOracle, V: SigmaVerifier>(
    ro: RO,
    v: V,
    p: FsProofView,
    buf: Seq<u8>,
    i: int,
) -> bool
    decreases p.m.len() - i,
{
    if i >= p.m.len() {
        true
    } else {
        let e = fs_round_challenge(ro, buf, p.b);
        v.accepts(i, p.m[i], e, p.z[i]) && fs_rounds_ok(ro, v, p, fs_buf_next(buf, e, p.z[i]), i + 1)
    }
}

/// The whole outcome of `verify_fs`: the proof is well-formed and every
/// repetition passes the replayed-challenge check and the caller's
/// protocol algebra.
pub open spec fn fs_verify_spec<RO: RandomOracle, V: SigmaVerifier>(
    ro: RO,
    buf0: Seq<u8>,
    v: V,
    statement: Seq<u8>,
    sid: Seq<u8>,
    p: FsProofView,
) -> bool {
    &&& fs_well_formed(p)
    &&& fs_rounds_ok(ro, v, p, fs_init_buf(buf0, statement, sid, p.m), 0)
}

/// Verify a Fiat-Shamir proof: reject a malformed proof, replay the
/// absorptions of the prover, re-derive every challenge deterministically,
/// and hand each triple to the caller's checker. Returns exactly what the
/// verification spec says for the oracle's starting state.
#[verifier::loop_isolation(false)]
pub fn verify_fs<RO: RandomOracle, V: SigmaVerifier>(
    fs_oracle: FSOracle<RO>,
    statement: &[u8],
    sid: &[u8],
    proof: &FsProof,
    sigma_verify: &V,
) -> (r: bool)
    ensures
        r == fs_verify_spec(
            fs_oracle.oracle(),
            fs_oracle.absorbed_bytes(),
            *sigma_verify,
            statement@,
            sid@,
            proof@,
        ),
{
    let mut oracle = fs_oracle;
    let ghost ro0 = oracle.oracle();
    let ghost buf0 = oracle.absorbed_bytes();
    if !proof.is_well_formed() {
        return false;
    }
    let mut modev: Vec<u8> = Vec::new();
    modev.push(70u8);
    modev.push(83u8);
    proof {
        assert(modev@ =~= fs_mode_value());
    }
    oracle.absorb("mode", modev.as_slice());
    oracle.absorb("x", statement);
    oracle.absorb("sid", sid);
    let ghost base = oracle.absorbed_bytes();
    let mut j: usize = 0;
    proof {
        assert(base + frames_of(proof@.m.take(0), "m_i".spec_bytes()) =~= base);
    }
    while j < proof.m.len()
        invariant
            j <= proof.m@.len(),
            oracle.oracle() == ro0,
            oracle.absorbed_bytes() == base + frames_of(
                proof@.m.take(j as int),
                "m_i".spec_bytes(),
            ),
            proof@.m.len() == proof.m@.len(),
        decreases proof.m@.len() - j,
    {
        proof {
            lemma_deep_entry(&proof.m, j as int);
            lemma_frames_of_push(proof@.m.take(j as int), "m_i".spec_bytes(), proof@.m[j as int]);
            assert(proof@.m.take(j + 1) =~= proof@.m.take(j as int).push(proof@.m[j as int]));
        }
        oracle.absorb("m_i", proof.m[j].as_slice());
        j += 1;
    }
    let ghost init = fs_init_buf(buf0, statement@, sid@, proof@.m);
    proof {
        assert(proof@.m.take(proof@.m.len() as int) =~= proof@.m);
        assert(oracle.absorbed_bytes() =~= init);
    }
    let b_bits = proof.b;
    let mut chal_len: usize = (b_bits as usize + 7) / 8;
    if chal_len == 0 {
        chal_len = 1;
    }
    proof {
        assert(chal_len as nat == chal_len_of(b_bits));
    }
    let mask_bits = b_bits % 8;
    let empty_extra: Vec<u8> = Vec::new();
    let mut i: usize = 0;
    while i < proof.m.len()
        invariant
            i <= proof.m@.len(),
            oracle.oracle() == ro0,
            proof@.m.len() == proof.m@.len(),
            proof@.z.len() == proof.z@.len(),
            fs_well_formed(proof@),
            b_bits == proof@.b,
            chal_len as nat == chal_len_of(b_bits),
            mask_bits == b_bits % 8,
            empty_extra@ == Seq::<u8>::empty(),
            fs_rounds_ok(ro0, *sigma_verify, proof@, init, 0) == fs_rounds_ok(
                ro0,
                *sigma_verify,
                proof@,
                oracle.absorbed_bytes(),
                i as int,
            ),
        decreases proof.m@.len() - i,
    {
        let ghost cur = oracle.absorbed_bytes();
        let mut e_bytes = oracle.derive_challenge("e_i", empty_extra.as_slice(), chal_len);
        if mask_bits != 0 && e_bytes.len() > 0 {
            proof {
                assert(1u8 << mask_bits >= 1) by (bit_vector)
                    requires
                        mask_bits < 8u8,
                ;
            }
            let last = e_bytes.len() - 1;
            let masked = e_bytes[last] & ((1u8 << mask_bits) - 1);
            e_bytes[last] = masked;
        }
        proof {
            assert(e_bytes@ == fs_round_challenge(ro0, cur, b_bits));
            lemma_deep_entry(&proof.m, i as int);
            lemma_deep_entry(&proof.z, i as int);
        }
        oracle.absorb("e_i", e_bytes.as_slice());
        oracle.absorb("z_i", proof.z[i].as_slice());
        proof {
            assert(oracle.absorbed_bytes() =~= fs_buf_next(
                cur,
                e_bytes@,
                proof@.z[i as int],
            ));
        }
        if !sigma_verify.check(i, proof.m[i].as_slice(), e_bytes.as_slice(), proof.z[i].as_slice())
        {
            proof {
                assert(!sigma_verify.accepts(
                    i as int,
                    proof@.m[i as int],
                    e_bytes@,
                    proof@.z[i as int],
                ));
                assert(!fs_rounds_ok(ro0, *sigma_verify, proof@, cur, i as int));
                assert(!fs_rounds_ok(ro0, *sigma_verify, proof@, init, 0));
            }
            return false;
        }
        proof {
            assert(fs_rounds_ok(ro0, *sigma_verify, proof@, cur, i as int) == fs_rounds_ok(
                ro0,
                *sigma_verify,
                proof@,
                oracle.absorbed_bytes(),
                i + 1,
            ));
        }
        i += 1;
    }
    proof {
        assert(fs_rounds_ok(
            ro0,
            *sigma_verify,
            proof@,
            oracle.absorbed_bytes(),
            proof@.m.len() as int,
        ));
    }
    true
}

} // verus!
