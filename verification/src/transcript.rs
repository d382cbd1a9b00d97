//! The oracle abstraction driven by a calling Sigma protocol, and the
//! obligation-tracked transcript that refuses to sample a challenge while
//! pre-challenge commitments are still outstanding.

use vstd::prelude::*;

use crate::errors::ProveError;
use crate::errors::ProveResult;

verus! {

use vstd::string::StringSliceAdditionalSpecFns;
use vstd::std_specs::hash::DefaultHasherAdditionalSpecFns;

/// Deterministic canonical encoding: append a byte representation whose
/// value `canon` pins down exactly.
pub trait CanonicalEncode {
    /// The canonical bytes of the value.
    spec fn canon(&self) -> Seq<u8>;

    /// Append the canonical bytes to `out`.
    fn encode(&self, out: &mut Vec<u8>)
        ensures
            final(out)@ == old(out)@ + self.canon(),
    ;
}

/// Canonical decoding: consume a prefix of the input from `pos` and
/// return the value with the position just past it; nothing on truncated
/// or malformed input.
pub trait CanonicalDecode: Sized + CanonicalEncode {
    /// Decode a value from `input` at `pos`.
    fn decode(input: &[u8], pos: usize) -> (r: Option<(Self, usize)>)
        requires
            pos <= input@.len(),
        ensures
            r matches Some(p) ==> pos <= p.1 <= input@.len() && input@.subrange(
                pos as int,
                p.1 as int,
            ) == p.0.canon(),
    ;
}

impl CanonicalEncode for u64 {
    open spec fn canon(&self) -> Seq<u8> {
        crate::bytes::u64_le(*self)
    }

    fn encode(&self, out: &mut Vec<u8>) {
        crate::bytes::push_u64_le(out, *self);
    }
}

impl CanonicalDecode for u64 {
    fn decode(input: &[u8], pos: usize) -> (r: Option<(Self, usize)>) {
        if input.len() - pos < 8 {
            return None;
        }
        let ghost s = input@.subrange(pos as int, pos + 8);
        let b0 = crate::bytes::read_u32_le(input, pos);
        let b1 = crate::bytes::read_u32_le(input, pos + 4);
        proof {
            assert(s.take(4) =~= input@.subrange(pos as int, pos + 4));
            assert(s.skip(4) =~= input@.subrange(pos + 4, pos + 8));
            crate::bytes::lemma_le_val_split(s, 4);
            crate::bytes::lemma_le_val_bound(s);
            vstd::arithmetic::power2::lemma2_to64();
            vstd::arithmetic::power2::lemma2_to64_rest();
        }
        let r: u64 = b0 as u64 + (b1 as u64) * 0x1_0000_0000;
        proof {
            let hi = crate::bytes::le_val(s.skip(4));
            assert(vstd::arithmetic::power2::pow2(32) * hi == 0x1_0000_0000 * hi)
                by (nonlinear_arith)
                requires
                    vstd::arithmetic::power2::pow2(32) == 0x1_0000_0000,
            ;
            assert(b0 as nat == crate::bytes::le_val(s.take(4)));
            assert(b1 as nat == crate::bytes::le_val(s.skip(4)));
            assert(crate::bytes::le_val(s) == crate::bytes::le_val(s.take(4))
                + vstd::arithmetic::power2::pow2(32) * crate::bytes::le_val(s.skip(4)));
            assert(r as nat == crate::bytes::le_val(s));
            crate::bytes::lemma_nat_le_le_val(s);
            assert(r.canon() == s);
        }
        Some((r, pos + 8))
    }
}

impl CanonicalEncode for Vec<u8> {
    open spec fn canon(&self) -> Seq<u8> {
        self@
    }

    fn encode(&self, out: &mut Vec<u8>) {
        crate::bytes::push_all(out, self.as_slice());
    }
}

/// A labelled absorption sink: appending labelled bytes to oracle state,
/// monotonically. The abstract state is the ordered log of absorptions;
/// absorption order is part of the oracle's identity.
pub trait Absorb {
    /// The ordered log of (label, bytes) absorptions so far.
    spec fn absorbed(&self) -> Seq<(Seq<char>, Seq<u8>)>;

    /// Absorb labelled bytes: the log grows by exactly this entry.
    fn absorb_bytes(&mut self, label: &'static str, bytes: &[u8])
        ensures
            final(self).absorbed() == old(self).absorbed().push((label@, bytes@)),
    ;
}

/// A typed challenge: the reduction of oracle bytes into the target
/// domain (for instance modulo a group order), supplied by the calling
/// protocol. The reduction is a mathematical function of the label and
/// the bytes.
pub trait Challenge: Sized {
    /// The reduction, as a mathematical function.
    spec fn from_bytes_spec(label: Seq<char>, input: Seq<u8>) -> Self;

    /// Reduce oracle bytes into the challenge domain.
    fn from_oracle_bytes(domain_label: &str, input: &[u8]) -> (r: Self)
        ensures
            r == Self::from_bytes_spec(domain_label@, input@),
    ;

    /// How many oracle bytes the challenge wants.
    fn byte_len() -> usize;
}

/// An oracle a transcript can draw typed challenges from: the challenge
/// is the reduction of oracle bytes that are a function of the oracle
/// state and the label alone, and drawing one changes no absorption
/// state.
pub trait Oracle: Absorb {
    /// The oracle bytes a challenge under `label` reduces.
    spec fn challenge_input(&self, label: Seq<char>) -> Seq<u8>;

    /// Derive a typed challenge for `label`.
    fn challenge<C: Challenge + CanonicalEncode>(&mut self, label: &'static str) -> (c: C)
        ensures
            final(self).absorbed() == old(self).absorbed(),
            final(self).challenge_input(label@) == old(self).challenge_input(label@),
            c == C::from_bytes_spec(label@, old(self).challenge_input(label@)),
    ;
}

/// A challenge of 64 bits, reduced through the standard library's hasher.
#[derive(Clone, Copy, Debug, PartialEq, Eq, Structural)]
pub struct U64Challenge(pub u64);

impl Challenge for U64Challenge {
    open spec fn from_bytes_spec(label: Seq<char>, input: Seq<u8>) -> Self {
        U64Challenge(
            std::collections::hash_map::DefaultHasher::spec_finish(seq![input]),
        )
    }

    fn from_oracle_bytes(_domain_label: &str, input: &[u8]) -> (r: Self) {
        let mut h = std::collections::hash_map::DefaultHasher::new();
        std::hash::Hasher::write(&mut h, input);
        proof {
            assert(h@ =~= seq![input@]);
        }
        U64Challenge(std::hash::Hasher::finish(&h))
    }

    fn byte_len() -> usize {
        32
    }
}

impl CanonicalEncode for U64Challenge {
    open spec fn canon(&self) -> Seq<u8> {
        crate::bytes::u64_le(self.0)
    }

    fn encode(&self, out: &mut Vec<u8>) {
        crate::bytes::push_u64_le(out, self.0);
    }
}

/// The one-shot Fiat-Shamir oracle: a domain string plus a growing buffer
/// of `domain || label || bytes` triples; a challenge is a pure function
/// of the domain, the label and the buffer.
pub struct HashOracle {
    domain: Vec<u8>,
    buf: Vec<u8>,
    log: Ghost<Seq<(Seq<char>, Seq<u8>)>>,
}

impl HashOracle {
    /// The domain string.
    pub closed spec fn domain_bytes(&self) -> Seq<u8> {
        self.domain@
    }

    /// The absorption buffer.
    pub closed spec fn buf_bytes(&self) -> Seq<u8> {
        self.buf@
    }

    /// Create an oracle for a domain with an empty buffer.
    pub fn new(domain: &[u8]) -> (r: Self)
        ensures
            r.domain_bytes() == domain@,
            r.buf_bytes() == Seq::<u8>::empty(),
            r.absorbed() == Seq::<(Seq<char>, Seq<u8>)>::empty(),
    {
        HashOracle { domain: vstd::slice::slice_to_vec(domain), buf: Vec::new(), log: Ghost(Seq::empty()) }
    }
}

impl Absorb for HashOracle {
    closed spec fn absorbed(&self) -> Seq<(Seq<char>, Seq<u8>)> {
        self.log@
    }

    fn absorb_bytes(&mut self, label: &'static str, bytes: &[u8])
        ensures
            final(self).domain_bytes() == old(self).domain_bytes(),
            final(self).buf_bytes() == old(self).buf_bytes() + old(self).domain_bytes()
                + label.spec_bytes() + bytes@,
    {
        let ghost entry = (label@, bytes@);
        let domain_copy = vstd::slice::slice_to_vec(self.domain.as_slice());
        crate::bytes::push_all(&mut self.buf, domain_copy.as_slice());
        crate::bytes::push_all(&mut self.buf, label.as_bytes());
        crate::bytes::push_all(&mut self.buf, bytes);
        proof {
            self.log@ = self.log@.push(entry);
        }
    }
}

/// The bytes a `HashOracle` challenge reduces: the domain, the label and
/// the whole buffer.
pub open spec fn hash_oracle_input(domain: Seq<u8>, buf: Seq<u8>, label: Seq<char>) -> Seq<u8> {
    domain + vstd::utf8::encode_utf8(label) + buf
}

impl Oracle for HashOracle {
    closed spec fn challenge_input(&self, label: Seq<char>) -> Seq<u8> {
        hash_oracle_input(self.domain@, self.buf@, label)
    }

    fn challenge<C: Challenge + CanonicalEncode>(&mut self, label: &'static str) -> (c: C)
        ensures
            *final(self) == *old(self),
    {
        let mut material: Vec<u8> = Vec::new();
        crate::bytes::push_all(&mut material, self.domain.as_slice());
        crate::bytes::push_all(&mut material, label.as_bytes());
        crate::bytes::push_all(&mut material, self.buf.as_slice());
        proof {
            assert(material@ =~= hash_oracle_input(self.domain@, self.buf@, label@));
        }
        C::from_oracle_bytes(label, material.as_slice())
    }
}

/// The direction a message travels.
#[derive(Clone, Copy, Debug, PartialEq, Eq, Structural)]
pub enum Direction {
    /// Sent by the prover.
    ProverToVerifier,
    /// Sent by the verifier.
    VerifierToProver,
}

/// A message that can bind its fields to the transcript. The mask says
/// which pre-challenge obligations absorbing this message discharges;
/// `bind` performs the canonical absorb of the bound fields, whose exact
/// log entries `bound_entries` names.
pub trait Bindable {
    /// The obligations this message discharges.
    spec fn oblig_mask_spec() -> u128;

    /// The log entries `bind` appends, in order.
    spec fn bound_entries(&self) -> Seq<(Seq<char>, Seq<u8>)>;

    /// The obligations this message discharges, as executable code.
    fn oblig_mask() -> (r: u128)
        ensures
            r == Self::oblig_mask_spec(),
    ;

    /// Absorb the message's bound fields.
    fn bind<A: Absorb>(&self, a: &mut A)
        ensures
            final(a).absorbed() == old(a).absorbed() + self.bound_entries(),
    ;
}

/// A bindable message with a direction and a stable label.
pub trait Message: Bindable {
    /// The direction the message travels.
    fn direction() -> Direction;

    /// The stable label of the message.
    fn label() -> &'static str;
}

/// The obligation-tracked transcript: an oracle plus the pending
/// obligation mask. Absorbing a message clears the bits it discharges;
/// drawing a challenge succeeds only when the mask is all-zero, so a
/// challenge can never be sampled before every required commitment is
/// bound.
pub struct Transcript<O: Oracle> {
    oracle: O,
    pending: u128,
}

impl<O: Oracle> Transcript<O> {
    /// The pending obligation mask.
    pub closed spec fn pending(&self) -> u128 {
        self.pending
    }

    /// The wrapped oracle.
    pub closed spec fn inner(&self) -> O {
        self.oracle
    }

    /// Wrap an oracle with a pending mask.
    pub fn new(oracle: O, pending: u128) -> (t: Self)
        ensures
            t.inner() == oracle,
            t.pending() == pending,
    {
        Transcript { oracle, pending }
    }

    /// Absorb a message: bind its fields, absorb a zero-length sentinel
    /// under the message label (so the presence of the message is bound
    /// independently of its content), and clear the obligations the
    /// message discharges.
    pub fn absorb<M: Bindable>(self, label: &'static str, m: &M) -> (t: Self)
        ensures
            t.pending() == self.pending() & !M::oblig_mask_spec(),
            t.inner().absorbed() == self.inner().absorbed() + m.bound_entries() + seq![
                (label@, Seq::<u8>::empty()),
            ],
    {
        let Transcript { mut oracle, pending } = self;
        m.bind(&mut oracle);
        let empty: Vec<u8> = Vec::new();
        oracle.absorb_bytes(label, empty.as_slice());
        let mask = M::oblig_mask();
        proof {
            assert(oracle.absorbed() =~= self.inner().absorbed() + m.bound_entries() + seq![
                (label@, Seq::<u8>::empty()),
            ]);
        }
        Transcript { oracle, pending: pending & !mask }
    }

    /// Absorb raw labelled bytes without touching the pending mask.
    pub fn absorb_bytes(self, label: &'static str, bytes: &[u8]) -> (t: Self)
        ensures
            t.pending() == self.pending(),
            t.inner().absorbed() == self.inner().absorbed().push((label@, bytes@)),
    {
        let Transcript { mut oracle, pending } = self;
        oracle.absorb_bytes(label, bytes);
        Transcript { oracle, pending }
    }

    /// Draw a typed challenge. This succeeds exactly when no obligation
    /// is pending; with a nonzero mask the transcript refuses and stays
    /// as it is.
    pub fn challenge<C: Challenge + CanonicalEncode>(self, label: &'static str) -> (r: ProveResult<
        (C, Self),
    >)
        ensures
            self.pending() != 0 ==> (r matches Err(e) && e is Malformed),
            self.pending() == 0 ==> (r matches Ok(p) && p.0 == C::from_bytes_spec(
                label@,
                self.inner().challenge_input(label@),
            ) && p.1.pending() == 0 && p.1.inner().absorbed() == self.inner().absorbed()),
    {
        if self.pending != 0 {
            return Err(ProveError::Malformed("transcript: challenge drawn with pending obligations"));
        }
        let Transcript { mut oracle, pending } = self;
        let c: C = oracle.challenge(label);
        Ok((c, Transcript { oracle, pending }))
    }

    /// Borrow the wrapped oracle mutably.
    pub fn oracle_mut(&mut self) -> (r: &mut O)
        ensures
            *r == old(self).inner(),
            final(self).inner() == *final(r),
            final(self).pending() == old(self).pending(),
    {
        &mut self.oracle
    }

    /// Reopen the transcript for the next round with a fresh pending mask.
    pub fn retag(self, pending: u128) -> (t: Self)
        ensures
            t.pending() == pending,
            t.inner() == self.inner(),
    {
        let Transcript { oracle, pending: _ } = self;
        Transcript { oracle, pending }
    }

    /// Move out the inner oracle.
    pub fn into_inner(self) -> (r: O)
        ensures
            r == self.inner(),
    {
        self.oracle
    }

    /// Move out the inner oracle (an alias kept for callers of the
    /// proving flow).
    pub fn into_oracle(self) -> (r: O)
        ensures
            r == self.inner(),
    {
        self.oracle
    }

    /// Drain the recorded events when the oracle records them.
    pub fn into_events(self) -> (r: Vec<crate::recording::RecEvent>) where
        O: crate::recording::IntoEvents,

        ensures
            r@ == self.inner().recorded(),
    {
        crate::recording::IntoEvents::into_events(self.oracle)
    }
}

/// Start a round: wrap an oracle with the round's pending obligations.
pub fn start_round<O: Oracle>(oracle: O, pending: u128) -> (t: Transcript<O>)
    ensures
        t.inner() == oracle,
        t.pending() == pending,
{
    Transcript::new(oracle, pending)
}

/// What a `HashOracle` challenge reduces, spelled out over the oracle's
/// domain and buffer.
pub proof fn lemma_hash_oracle_challenge_input(h: &HashOracle, label: Seq<char>)
    ensures
        h.challenge_input(label) == hash_oracle_input(h.domain_bytes(), h.buf_bytes(), label),
{
}

} // verus!
