//! The Fischlin transform engine: a phase state machine that seals all
//! first-round messages into one common hash, then searches, per
//! repetition, for a challenge/response pair satisfying a cheap predicate.

use vstd::prelude::*;

use crate::errors::ProveError;
use crate::errors::ProveResult;
use crate::runtime::RandomOracle;

verus! {

use vstd::arithmetic::power2::pow2;
use vstd::string::StringSliceAdditionalSpecFns;
use crate::runtime::framed_entry;
use crate::runtime::TranscriptRuntime;

/// Parameters of the Fischlin transform.
#[derive(Clone, Copy, Debug, PartialEq, Eq, Structural)]
pub struct FischlinParams {
    /// The number of repetitions.
    pub rho: u16,
    /// The predicate output-truncation width in bits.
    pub b: u8,
    /// The per-repetition challenge-search width in bits.
    pub t: u8,
    /// The target bits of soundness.
    pub kappa_c: u16,
    /// `n` in n-special soundness (at least 2).
    pub n_special: u16,
}

/// The default search width for given `rho` and `b`: five bits more than
/// `b` for up to 64 repetitions, six above, saturating at the top.
pub open spec fn default_t(rho: u16, b: u8) -> u8 {
    let add: u8 = if rho <= 64 {
        5
    } else {
        6
    };
    if b as int + add as int > 255 {
        255
    } else {
        (b + add) as u8
    }
}

impl FischlinParams {
    /// Parameters with the default search width, 128 bits of target
    /// soundness and 2-special soundness.
    pub fn new(rho: u16, b: u8) -> (r: Self)
        ensures
            r == (FischlinParams {
                rho,
                b,
                t: default_t(rho, b),
                kappa_c: 128u16,
                n_special: 2u16,
            }),
    {
        let add: u8 = if rho <= 64 {
            5
        } else {
            6
        };
        let t = if b <= 255 - add {
            b + add
        } else {
            255
        };
        Self { rho, b, t, kappa_c: 128, n_special: 2 }
    }

    /// Override the search width.
    pub fn with_t(self, t: u8) -> (r: Self)
        ensures
            r == (FischlinParams { t, ..self }),
    {
        FischlinParams { t, ..self }
    }

    /// Override the target soundness.
    pub fn with_kappa(self, k: u16) -> (r: Self)
        ensures
            r == (FischlinParams { kappa_c: k, ..self }),
    {
        FischlinParams { kappa_c: k, ..self }
    }

    /// Set `n` in n-special soundness; values below 2 are raised to 2.
    /// When `n > 2`, the effective security per repetition loses
    /// `ceil(log2(n - 1))` bits.
    pub fn with_n_special(self, n: u16) -> (r: Self)
        ensures
            r == (FischlinParams { n_special: if n < 2 { 2u16 } else { n }, ..self }),
    {
        let m = if n < 2 {
            2
        } else {
            n
        };
        FischlinParams { n_special: m, ..self }
    }
}

/// The phase of the Fischlin state machine.
#[derive(Clone, Copy, Debug, PartialEq, Eq, Structural)]
pub enum Phase {
    /// Freshly created; nothing bound yet.
    Init,
    /// First-round messages may be pushed.
    CollectingFirstMsgs,
    /// The common hash is fixed; the per-repetition search may run.
    Sealed,
}

/// The ceiling of the base-two logarithm: the smallest `k` with
/// `pow2(k) >= x`; zero for `x <= 1`.
pub open spec fn ceil_log2(x: nat) -> nat
    decreases x,
{
    if x <= 1 {
        0
    } else {
        1 + ceil_log2((x + 1) / 2)
    }
}

/// The soundness loss of n-special soundness: `ceil(log2(n - 1))` bits,
/// and none for the standard `n <= 2`.
pub open spec fn soundness_loss(n: u16) -> nat {
    if n <= 2 {
        0
    } else {
        ceil_log2((n - 1) as nat)
    }
}

/// The soundness inequality the parameters must meet before sealing:
/// the predicate width covers the loss, and
/// `rho * (b - loss) >= kappa_c`.
pub open spec fn params_sound(p: FischlinParams) -> bool {
    &&& soundness_loss(p.n_special) <= p.b as nat
    &&& (p.rho as nat) * (p.b as nat - soundness_loss(p.n_special)) >= p.kappa_c as nat
}

/// Compute the ceiling of the base-two logarithm of `x`.
pub fn ceil_log2_u32(x: u32) -> (r: u32)
    ensures
        r == ceil_log2(x as nat),
        r <= 32,
{
    let mut v: u32 = x;
    let mut k: u32 = 0;
    proof {
        lemma_ceil_log2_le_32(x as nat);
    }
    while v > 1
        invariant
            ceil_log2(x as nat) == k + ceil_log2(v as nat),
            k + ceil_log2(v as nat) <= 32,
        decreases v,
    {
        v = v / 2 + v % 2;
        k = k + 1;
    }
    k
}

/// The ceiling logarithm of a 32-bit value is at most 32.
proof fn lemma_ceil_log2_le_32(x: nat)
    requires
        x < 0x1_0000_0000,
    ensures
        ceil_log2(x) <= 32,
{
    vstd::arithmetic::power2::lemma2_to64();
    lemma_ceil_log2_bound(x, 32);
}

/// `ceil_log2(x) <= k` whenever `x <= pow2(k)`.
proof fn lemma_ceil_log2_bound(x: nat, k: nat)
    requires
        x <= pow2(k),
    ensures
        ceil_log2(x) <= k,
    decreases k,
{
    vstd::arithmetic::power2::lemma_pow2_pos(k);
    if x <= 1 {
    } else {
        assert(k >= 1) by {
            vstd::arithmetic::power2::lemma2_to64();
            if k == 0 {
            }
        }
        assert(pow2(k) == 2 * pow2((k - 1) as nat)) by {
            vstd::arithmetic::power2::lemma_pow2_adds(1, (k - 1) as nat);
            vstd::arithmetic::power2::lemma2_to64();
        }
        lemma_ceil_log2_bound((x + 1) / 2, (k - 1) as nat);
    }
}

/// The soundness loss of `n`-special soundness, as executable code.
pub fn ceil_log2_n_minus_1(n: u32) -> (r: u32)
    ensures
        n < 0x1_0000 ==> r == soundness_loss(n as u16),
{
    if n <= 2 {
        0
    } else {
        ceil_log2_u32(n - 1)
    }
}

/// The caller-supplied response generator of a search round: for a
/// candidate challenge it computes the Sigma-protocol response. The
/// calling protocol implements this; `z_of` is its response function.
pub trait ResponseGen {
    /// The response, as a mathematical function of the challenge bytes.
    spec fn z_of(&self, e: Seq<u8>) -> Seq<u8>;

    /// Compute the response for one candidate challenge.
    fn gen_z(&self, e: &[u8]) -> (z: Vec<u8>)
        ensures
            z@ == self.z_of(e@),
    ;
}

/// The caller-supplied incremental response stream of a streaming search
/// round: each call yields the response for the next candidate challenge
/// (for instance `z_{k+1} = z_k + step`), amortizing the response
/// computation to one update per trial.
pub trait ResponseStream: Sized {
    /// The response the next call yields.
    spec fn head(&self) -> Seq<u8>;

    /// The stream state after one call.
    spec fn tail(&self) -> Self;

    /// Yield the next response and advance.
    fn next_z(&mut self) -> (z: Vec<u8>)
        ensures
            z@ == old(self).head(),
            *final(self) == old(self).tail(),
    ;
}

/// The stream state after `k` calls.
pub open spec fn stream_at<S: ResponseStream>(s: S, k: nat) -> S
    decreases k,
{
    if k == 0 {
        s
    } else {
        stream_at(s, (k - 1) as nat).tail()
    }
}

/// The response the stream yields on call `k` (counting from zero).
pub open spec fn stream_z<S: ResponseStream>(s: S, k: nat) -> Seq<u8> {
    stream_at(s, k).head()
}

/// The ASCII bytes of `"mode:FISCHLIN|x|"`, the head of the common-hash
/// input.
pub open spec fn mode_fischlin_prefix() -> Seq<u8> {
    seq![
        109u8, 111u8, 100u8, 101u8, 58u8, 70u8, 73u8, 83u8, 67u8, 72u8, 76u8, 73u8, 78u8, 124u8,
        120u8, 124u8,
    ]
}

/// The ASCII bytes of `"FISCHLIN"`, the mode value absorbed first.
pub open spec fn fischlin_mode_value() -> Seq<u8> {
    seq![70u8, 73u8, 83u8, 67u8, 72u8, 76u8, 73u8, 78u8]
}

/// The ASCII bytes of `"|m_vec|"`.
pub open spec fn marker_m_vec() -> Seq<u8> {
    seq![124u8, 109u8, 95u8, 118u8, 101u8, 99u8, 124u8]
}

/// The ASCII bytes of `"i="`.
pub open spec fn marker_idx() -> Seq<u8> {
    seq![105u8, 61u8]
}

/// The ASCII bytes of `":m="`.
pub open spec fn marker_msg() -> Seq<u8> {
    seq![58u8, 109u8, 61u8]
}

/// The ASCII bytes of `"|sid|"`.
pub open spec fn marker_sid() -> Seq<u8> {
    seq![124u8, 115u8, 105u8, 100u8, 124u8]
}

/// The ASCII bytes of `"pred|"`.
pub open spec fn tag_pred() -> Seq<u8> {
    seq![112u8, 114u8, 101u8, 100u8, 124u8]
}

/// The ASCII bytes of `"|i="`.
pub open spec fn marker_pred_i() -> Seq<u8> {
    seq![124u8, 105u8, 61u8]
}

/// The ASCII bytes of `"|e="`.
pub open spec fn marker_e() -> Seq<u8> {
    seq![124u8, 101u8, 61u8]
}

/// The ASCII bytes of `"|z="`.
pub open spec fn marker_z() -> Seq<u8> {
    seq![124u8, 122u8, 61u8]
}

/// One enumerated first message inside the common-hash input: its index
/// as four little-endian bytes, its bytes, and a closing sentinel byte.
pub open spec fn enum_entry(i: u32, m: Seq<u8>) -> Seq<u8> {
    marker_idx() + crate::bytes::u32_le(i) + marker_msg() + m + seq![255u8]
}

/// The enumerated first messages from index `k` on.
pub open spec fn enum_from(ms: Seq<Seq<u8>>, k: int) -> Seq<u8>
    decreases ms.len() - k,
{
    if k < 0 || k >= ms.len() {
        Seq::empty()
    } else {
        enum_entry(k as u32, ms[k]) + enum_from(ms, k + 1)
    }
}

/// Appending one more message appends its enumerated entry.
pub proof fn lemma_enum_push(ms: Seq<Seq<u8>>, x: Seq<u8>, k: int)
    requires
        0 <= k <= ms.len(),
    ensures
        enum_from(ms.push(x), k) == enum_from(ms, k) + enum_entry(ms.len() as u32, x),
    decreases ms.len() - k,
{
    if k == ms.len() {
        assert(ms.push(x)[k] == x);
        assert(enum_from(ms.push(x), k + 1) == Seq::<u8>::empty());
        assert(enum_from(ms, k) == Seq::<u8>::empty());
        assert(enum_from(ms.push(x), k) =~= enum_from(ms, k) + enum_entry(ms.len() as u32, x));
    } else {
        lemma_enum_push(ms, x, k + 1);
        assert(ms.push(x)[k] == ms[k]);
        assert(enum_from(ms.push(x), k) =~= enum_from(ms, k) + enum_entry(ms.len() as u32, x));
    }
}

/// The input of the common hash: the mode prefix, the statement, the
/// enumerated first messages, and the session id.
pub open spec fn common_input(statement: Seq<u8>, sid: Seq<u8>, ms: Seq<Seq<u8>>) -> Seq<u8> {
    mode_fischlin_prefix() + statement + marker_m_vec() + enum_from(ms, 0) + marker_sid() + sid
}

/// The common hash binding all first messages together.
pub open spec fn common_hash<RO: RandomOracle>(
    ro: RO,
    statement: Seq<u8>,
    sid: Seq<u8>,
    ms: Seq<Seq<u8>>,
) -> Seq<u8> {
    ro.full_digest("fischlin.common"@, common_input(statement, sid, ms))
}

/// The per-repetition predicate prefix: the common hash and the
/// repetition index, under the predicate tag.
pub open spec fn pred_prefix_bytes(common: Seq<u8>, i: u32) -> Seq<u8> {
    tag_pred() + common + marker_pred_i() + crate::bytes::u32_le(i)
}

/// The bytes hashed by the predicate for one candidate pair.
pub open spec fn pred_input(prefix: Seq<u8>, e: Seq<u8>, z: Seq<u8>) -> Seq<u8> {
    prefix + marker_e() + e + marker_z() + z
}

/// The Fischlin predicate: the low `b` bits of the predicate hash are all
/// zero.
pub open spec fn pred_holds<RO: RandomOracle>(
    ro: RO,
    b: u8,
    prefix: Seq<u8>,
    e: Seq<u8>,
    z: Seq<u8>,
) -> bool {
    crate::runtime::trunc_spec(ro.short_digest("fischlin.H_b"@, pred_input(prefix, e, z)), b) == 0
}

/// The Fischlin prover/verifier state: the parameters, the random oracle,
/// the phase, the coverage transcript, the bound statement and session id,
/// the collected first messages, and the common hash once sealed.
pub struct FischlinOracle<RO: RandomOracle> {
    params: FischlinParams,
    ro: RO,
    phase: Phase,
    transcript_buf: Vec<u8>,
    statement_bytes: Vec<u8>,
    sid_bytes: Vec<u8>,
    m_vec: Vec<Vec<u8>>,
    common_h: Option<Vec<u8>>,
    scratch: Vec<u8>,
}

/// Everything of the oracle state that the predicate helpers leave alone:
/// the parameters, the random oracle, the phase, the bound inputs, the
/// collected messages and the common hash.
pub open spec fn same_binding<RO: RandomOracle>(
    a: FischlinOracle<RO>,
    b: FischlinOracle<RO>,
) -> bool {
    &&& a.params() == b.params()
    &&& a.oracle() == b.oracle()
    &&& a.phase() == b.phase()
    &&& a.statement() == b.statement()
    &&& a.sid() == b.sid()
    &&& a.msgs() == b.msgs()
    &&& a.common() == b.common()
}

impl<RO: RandomOracle> FischlinOracle<RO> {
    /// The parameters.
    pub closed spec fn params(&self) -> FischlinParams {
        self.params
    }

    /// The underlying random oracle.
    pub closed spec fn oracle(&self) -> RO {
        self.ro
    }

    /// The phase of the state machine.
    pub closed spec fn phase(&self) -> Phase {
        self.phase
    }

    /// The statement bound by `begin`.
    pub closed spec fn statement(&self) -> Seq<u8> {
        self.statement_bytes@
    }

    /// The session id bound by `begin`.
    pub closed spec fn sid(&self) -> Seq<u8> {
        self.sid_bytes@
    }

    /// The first messages collected so far.
    pub closed spec fn msgs(&self) -> Seq<Seq<u8>> {
        self.m_vec.deep_view()
    }

    /// The common hash, once sealed.
    pub closed spec fn common(&self) -> Option<Seq<u8>> {
        match self.common_h {
            None => None,
            Some(v) => Some(v@),
        }
    }

    /// Wrap a random oracle with fresh state.
    pub fn new(ro: RO, params: FischlinParams) -> (r: Self)
        ensures
            r.params() == params,
            r.oracle() == ro,
            r.phase() == Phase::Init,
            r.statement() == Seq::<u8>::empty(),
            r.sid() == Seq::<u8>::empty(),
            r.msgs() == Seq::<Seq<u8>>::empty(),
            r.common() is None,
            r.absorbed_bytes() == Seq::<u8>::empty(),
    {
        let r = FischlinOracle {
            params,
            ro,
            phase: Phase::Init,
            transcript_buf: Vec::new(),
            statement_bytes: Vec::new(),
            sid_bytes: Vec::new(),
            m_vec: Vec::new(),
            common_h: None,
            scratch: Vec::new(),
        };
        proof {
            assert(r.msgs() =~= Seq::<Seq<u8>>::empty());
        }
        r
    }

    /// Reset the buffers, bind the statement and the session id, and open
    /// the collection of first messages.
    pub fn begin(&mut self, statement: &[u8], sid: &[u8])
        ensures
            final(self).params() == old(self).params(),
            final(self).oracle() == old(self).oracle(),
            final(self).phase() == Phase::CollectingFirstMsgs,
            final(self).statement() == statement@,
            final(self).sid() == sid@,
            final(self).msgs() == Seq::<Seq<u8>>::empty(),
            final(self).common() is None,
            final(self).absorbed_bytes() == old(self).absorbed_bytes() + framed_entry(
                "mode".spec_bytes(),
                fischlin_mode_value(),
            ) + framed_entry("x".spec_bytes(), statement@) + framed_entry(
                "sid".spec_bytes(),
                sid@,
            ),
    {
        self.phase = Phase::CollectingFirstMsgs;
        self.statement_bytes.clear();
        crate::bytes::push_all(&mut self.statement_bytes, statement);
        self.sid_bytes.clear();
        crate::bytes::push_all(&mut self.sid_bytes, sid);
        self.m_vec = Vec::new();
        self.common_h = None;
        self.scratch.clear();
        proof {
            assert(self.msgs() =~= Seq::<Seq<u8>>::empty());
        }
        let mut modev: Vec<u8> = Vec::new();
        modev.push(70u8);
        modev.push(73u8);
        modev.push(83u8);
        modev.push(67u8);
        modev.push(72u8);
        modev.push(76u8);
        modev.push(73u8);
        modev.push(78u8);
        proof {
            assert(modev@ =~= fischlin_mode_value());
        }
        self.absorb("mode", modev.as_slice());
        self.absorb("x", statement);
        self.absorb("sid", sid);
    }

    /// Record one first message; legal only while collecting.
    pub fn push_first_message(&mut self, m_i: &[u8]) -> (r: ProveResult<()>)
        ensures
            old(self).phase() != Phase::CollectingFirstMsgs ==> (r matches Err(e) && e is Malformed)
                && *final(self) == *old(self),
            old(self).phase() == Phase::CollectingFirstMsgs ==> {
                &&& r is Ok
                &&& final(self).msgs() == old(self).msgs().push(m_i@)
                &&& final(self).absorbed_bytes() == old(self).absorbed_bytes() + framed_entry(
                    "m_i".spec_bytes(),
                    m_i@,
                )
                &&& final(self).params() == old(self).params()
                &&& final(self).oracle() == old(self).oracle()
                &&& final(self).phase() == old(self).phase()
                &&& final(self).statement() == old(self).statement()
                &&& final(self).sid() == old(self).sid()
                &&& final(self).common() == old(self).common()
            },
    {
        match self.phase {
            Phase::CollectingFirstMsgs => {},
            _ => {
                return Err(ProveError::Malformed("fischlin: push_first_message before begin"));
            },
        }
        let mut item: Vec<u8> = Vec::new();
        crate::bytes::push_all(&mut item, m_i);
        let ghost msgs0 = self.msgs();
        let ghost item_v = item@;
        self.m_vec.push(item);
        proof {
            assert(self.m_vec@[self.m_vec@.len() - 1].deep_view() =~= item_v);
            assert(self.msgs() =~= msgs0.push(item_v));
        }
        self.absorb("m_i", m_i);
        Ok(())
    }

    /// Build the common-hash input from the bound statement, the session
    /// id and the collected first messages.
    fn build_common_input(&self) -> (out: Vec<u8>)
        requires
            self.msgs().len() < 0x1_0000_0000,
        ensures
            out@ == common_input(self.statement(), self.sid(), self.msgs()),
    {
        let mut buf: Vec<u8> = Vec::new();
        buf.push(109u8);
        buf.push(111u8);
        buf.push(100u8);
        buf.push(101u8);
        buf.push(58u8);
        buf.push(70u8);
        buf.push(73u8);
        buf.push(83u8);
        buf.push(67u8);
        buf.push(72u8);
        buf.push(76u8);
        buf.push(73u8);
        buf.push(78u8);
        buf.push(124u8);
        buf.push(120u8);
        buf.push(124u8);
        proof {
            assert(buf@ =~= mode_fischlin_prefix());
        }
        crate::bytes::push_all(&mut buf, self.statement_bytes.as_slice());
        buf.push(124u8);
        buf.push(109u8);
        buf.push(95u8);
        buf.push(118u8);
        buf.push(101u8);
        buf.push(99u8);
        buf.push(124u8);
        let ghost head = mode_fischlin_prefix() + self.statement() + marker_m_vec();
        proof {
            assert(buf@ =~= head);
            assert(enum_from(self.msgs().take(0), 0) == Seq::<u8>::empty());
            assert(buf@ =~= head + enum_from(self.msgs().take(0), 0));
        }
        let mut j: usize = 0;
        while j < self.m_vec.len()
            invariant
                j <= self.m_vec@.len(),
                self.msgs().len() == self.m_vec@.len(),
                self.msgs().len() < 0x1_0000_0000,
                head == mode_fischlin_prefix() + self.statement() + marker_m_vec(),
                buf@ == head + enum_from(self.msgs().take(j as int), 0),
            decreases self.m_vec@.len() - j,
        {
            let ghost upto = self.msgs().take(j as int);
            buf.push(105u8);
            buf.push(61u8);
            crate::bytes::push_u32_le(&mut buf, j as u32);
            buf.push(58u8);
            buf.push(109u8);
            buf.push(61u8);
            crate::bytes::push_all(&mut buf, self.m_vec[j].as_slice());
            buf.push(255u8);
            proof {
                crate::codec::lemma_deep_entry(&self.m_vec, j as int);
                lemma_enum_push(upto, self.msgs()[j as int], 0);
                assert(self.msgs().take(j + 1) =~= upto.push(self.msgs()[j as int]));
                assert(buf@ =~= head + enum_from(self.msgs().take(j + 1), 0));
            }
            j += 1;
        }
        proof {
            assert(self.msgs().take(self.msgs().len() as int) =~= self.msgs());
        }
        buf.push(124u8);
        buf.push(115u8);
        buf.push(105u8);
        buf.push(100u8);
        buf.push(124u8);
        crate::bytes::push_all(&mut buf, self.sid_bytes.as_slice());
        proof {
            assert(buf@ =~= common_input(self.statement(), self.sid(), self.msgs()));
        }
        buf
    }

    /// Check the collected count and the soundness inequality, then fix
    /// the common hash and move to the sealed phase.
    pub fn seal_first_messages(&mut self) -> (r: ProveResult<()>)
        ensures
            old(self).phase() != Phase::CollectingFirstMsgs ==> (r matches Err(e) && e is Malformed)
                && *final(self) == *old(self),
            old(self).phase() == Phase::CollectingFirstMsgs && old(self).msgs().len() != old(
                self,
            ).params().rho as int ==> (r matches Err(e) && e is Malformed) && *final(self) == *old(
                self,
            ),
            old(self).phase() == Phase::CollectingFirstMsgs && old(self).msgs().len() == old(
                self,
            ).params().rho as int && !params_sound(old(self).params()) ==> (r matches Err(e)
                && e is UnsoundParams) && *final(self) == *old(self),
            old(self).phase() == Phase::CollectingFirstMsgs && old(self).msgs().len() == old(
                self,
            ).params().rho as int && params_sound(old(self).params()) ==> {
                &&& r is Ok
                &&& final(self).phase() == Phase::Sealed
                &&& final(self).common() == Some(
                    common_hash(
                        old(self).oracle(),
                        old(self).statement(),
                        old(self).sid(),
                        old(self).msgs(),
                    ),
                )
                &&& final(self).params() == old(self).params()
                &&& final(self).oracle() == old(self).oracle()
                &&& final(self).statement() == old(self).statement()
                &&& final(self).sid() == old(self).sid()
                &&& final(self).msgs() == old(self).msgs()
                &&& final(self).absorbed_bytes() == old(self).absorbed_bytes()
            },
    {
        match self.phase {
            Phase::CollectingFirstMsgs => {},
            _ => {
                return Err(ProveError::Malformed("fischlin: seal called before begin"));
            },
        }
        if self.m_vec.len() != self.params.rho as usize {
            return Err(ProveError::Malformed("fischlin: first-message count differs from rho"));
        }
        let loss = ceil_log2_n_minus_1(self.params.n_special as u32);
        if (self.params.b as u32) < loss {
            return Err(ProveError::UnsoundParams("fischlin: b too small for n-special soundness"));
        }
        let eff_b = self.params.b as u32 - loss;
        proof {
            vstd::arithmetic::mul::lemma_mul_upper_bound(
                self.params.rho as int,
                0xFFFF,
                eff_b as int,
                0xFF,
            );
        }
        let lhs = self.params.rho as u32 * eff_b;
        if lhs < self.params.kappa_c as u32 {
            return Err(ProveError::UnsoundParams("fischlin: rho*(b - log2(n-1)) < kappa_c"));
        }
        let buf = self.build_common_input();
        let ch = self.ro.H_full("fischlin.common", buf.as_slice());
        self.common_h = Some(ch);
        self.phase = Phase::Sealed;
        Ok(())
    }

    /// The per-repetition predicate prefix, computed once per repetition;
    /// available only once the common hash exists.
    pub fn predicate_prefix(&self, i: u32) -> (r: ProveResult<Vec<u8>>)
        ensures
            match r {
                Ok(p) => self.common() matches Some(c) && p@ == pred_prefix_bytes(c, i),
                Err(e) => self.common() is None && e is Malformed,
            },
    {
        let common = match &self.common_h {
            None => {
                return Err(ProveError::Malformed("fischlin: common hash missing"));
            },
            Some(c) => c,
        };
        let mut prefix: Vec<u8> = Vec::new();
        prefix.push(112u8);
        prefix.push(114u8);
        prefix.push(101u8);
        prefix.push(100u8);
        prefix.push(124u8);
        crate::bytes::push_all(&mut prefix, common.as_slice());
        prefix.push(124u8);
        prefix.push(105u8);
        prefix.push(61u8);
        crate::bytes::push_u32_le(&mut prefix, i);
        proof {
            assert(prefix@ =~= pred_prefix_bytes(self.common()->Some_0, i));
        }
        Ok(prefix)
    }

    /// The predicate check with a precomputed prefix: true exactly when
    /// the truncated predicate hash of the pair is zero. Only the scratch
    /// buffer changes.
    pub fn hb_zero_from_prefix(&mut self, prefix: &[u8], e: &[u8], z: &[u8]) -> (r: bool)
        requires
            old(self).params().b <= 56,
        ensures
            r == pred_holds(old(self).oracle(), old(self).params().b, prefix@, e@, z@),
            same_binding(*final(self), *old(self)),
            final(self).absorbed_bytes() == old(self).absorbed_bytes(),
    {
        self.scratch.clear();
        crate::bytes::push_all(&mut self.scratch, prefix);
        self.scratch.push(124u8);
        self.scratch.push(101u8);
        self.scratch.push(61u8);
        crate::bytes::push_all(&mut self.scratch, e);
        self.scratch.push(124u8);
        self.scratch.push(122u8);
        self.scratch.push(61u8);
        crate::bytes::push_all(&mut self.scratch, z);
        proof {
            assert(self.scratch@ =~= pred_input(prefix@, e@, z@));
        }
        let hb = self.ro.H("fischlin.H_b", self.scratch.as_slice());
        let tr = crate::runtime::trunc_b_to_u64(hb.as_slice(), self.params.b);
        tr == 0
    }

    /// Absorb a triple and re-check the predicate for repetition `i`;
    /// false when the common hash is missing.
    pub fn verify_predicate(&mut self, i: u32, m_i: &[u8], e_i: &[u8], z_i: &[u8]) -> (r: bool)
        requires
            old(self).params().b <= 56,
        ensures
            r == (old(self).common() matches Some(c) && pred_holds(
                old(self).oracle(),
                old(self).params().b,
                pred_prefix_bytes(c, i),
                e_i@,
                z_i@,
            )),
            same_binding(*final(self), *old(self)),
            final(self).absorbed_bytes() == old(self).absorbed_bytes() + framed_entry(
                "m_i".spec_bytes(),
                m_i@,
            ) + framed_entry("e_i".spec_bytes(), e_i@) + framed_entry("z_i".spec_bytes(), z_i@),
    {
        self.absorb("m_i", m_i);
        self.absorb("e_i", e_i);
        self.absorb("z_i", z_i);
        let prefix = match self.predicate_prefix(i) {
            Ok(p) => p,
            Err(_) => {
                return false;
            },
        };
        self.hb_zero_from_prefix(prefix.as_slice(), e_i, z_i)
    }

    /// Recompute the common hash from the bound inputs, on the verifier's
    /// side; the phase is left as it is.
    pub fn verifier_finalize_common_h(&mut self) -> (r: ProveResult<()>)
        requires
            old(self).msgs().len() < 0x1_0000_0000,
        ensures
            r is Ok,
            final(self).common() == Some(
                common_hash(
                    old(self).oracle(),
                    old(self).statement(),
                    old(self).sid(),
                    old(self).msgs(),
                ),
            ),
            final(self).params() == old(self).params(),
            final(self).oracle() == old(self).oracle(),
            final(self).phase() == old(self).phase(),
            final(self).statement() == old(self).statement(),
            final(self).sid() == old(self).sid(),
            final(self).msgs() == old(self).msgs(),
            final(self).absorbed_bytes() == old(self).absorbed_bytes(),
    {
        let buf = self.build_common_input();
        let ch = self.ro.H_full("fischlin.common", buf.as_slice());
        self.common_h = Some(ch);
        Ok(())
    }

    /// The verifier's `begin`: bind the statement and the session id and
    /// open the collection of first messages.
    pub fn begin_verifier(&mut self, statement: &[u8], sid: &[u8])
        ensures
            final(self).params() == old(self).params(),
            final(self).oracle() == old(self).oracle(),
            final(self).phase() == Phase::CollectingFirstMsgs,
            final(self).statement() == statement@,
            final(self).sid() == sid@,
            final(self).msgs() == Seq::<Seq<u8>>::empty(),
            final(self).common() is None,
            final(self).absorbed_bytes() == old(self).absorbed_bytes() + framed_entry(
                "mode".spec_bytes(),
                fischlin_mode_value(),
            ) + framed_entry("x".spec_bytes(), statement@) + framed_entry(
                "sid".spec_bytes(),
                sid@,
            ),
    {
        self.begin(statement, sid);
    }

    /// The verifier's `push_first_message`; legal only while collecting.
    pub fn push_first_message_verifier(&mut self, m_i: &[u8]) -> (r: ProveResult<()>)
        ensures
            old(self).phase() != Phase::CollectingFirstMsgs ==> (r matches Err(e) && e is Malformed)
                && *final(self) == *old(self),
            old(self).phase() == Phase::CollectingFirstMsgs ==> {
                &&& r is Ok
                &&& final(self).msgs() == old(self).msgs().push(m_i@)
                &&& final(self).absorbed_bytes() == old(self).absorbed_bytes() + framed_entry(
                    "m_i".spec_bytes(),
                    m_i@,
                )
                &&& final(self).params() == old(self).params()
                &&& final(self).oracle() == old(self).oracle()
                &&& final(self).phase() == old(self).phase()
                &&& final(self).statement() == old(self).statement()
                &&& final(self).sid() == old(self).sid()
                &&& final(self).common() == old(self).common()
            },
    {
        self.push_first_message(m_i)
    }
}

impl<RO: RandomOracle> crate::runtime::TranscriptRuntime for FischlinOracle<RO> {
    closed spec fn absorbed_bytes(&self) -> Seq<u8> {
        self.transcript_buf@
    }

    fn absorb(&mut self, label: &str, bytes: &[u8])
        ensures
            same_binding(*final(self), *old(self)),
    {
        self.transcript_buf.push(124u8);
        self.transcript_buf.push(108u8);
        self.transcript_buf.push(97u8);
        self.transcript_buf.push(98u8);
        self.transcript_buf.push(101u8);
        self.transcript_buf.push(108u8);
        self.transcript_buf.push(124u8);
        crate::bytes::push_all(&mut self.transcript_buf, label.as_bytes());
        self.transcript_buf.push(124u8);
        self.transcript_buf.push(100u8);
        self.transcript_buf.push(97u8);
        self.transcript_buf.push(116u8);
        self.transcript_buf.push(97u8);
        self.transcript_buf.push(124u8);
        crate::bytes::push_all(&mut self.transcript_buf, bytes);
        proof {
            assert(self.transcript_buf@ =~= old(self).transcript_buf@ + framed_entry(
                label.spec_bytes(),
                bytes@,
            ));
        }
    }
}

/// The effective search width: the configured width clamped to 56 bits.
pub open spec fn search_width(t: u8) -> u8 {
    if t > 56 {
        56
    } else {
        t
    }
}

/// The byte length of a candidate challenge for search width `t`: the
/// bits rounded up to bytes, at least one byte.
pub open spec fn e_byte_len(t: u8) -> nat {
    let k = (t as nat + 7) / 8;
    if k == 0 {
        1
    } else {
        k
    }
}

/// The candidate challenge bytes of trial `ev`, little-endian.
pub open spec fn trial_e(ev: u64, t: u8) -> Seq<u8> {
    crate::bytes::nat_le(ev as nat, e_byte_len(t))
}

/// Trial `ev` of a search round with a response generator accepts: the
/// predicate holds for the candidate challenge and its response.
pub open spec fn round_accepts<RO: RandomOracle, G: ResponseGen>(
    ro: RO,
    b: u8,
    common: Seq<u8>,
    i: u32,
    g: G,
    t: u8,
    ev: u64,
) -> bool {
    pred_holds(ro, b, pred_prefix_bytes(common, i), trial_e(ev, t), g.z_of(trial_e(ev, t)))
}

/// Trial `ev` of a streaming search round accepts: the predicate holds
/// for the candidate challenge and the stream's response for that trial.
pub open spec fn stream_accepts<RO: RandomOracle, S: ResponseStream>(
    ro: RO,
    b: u8,
    common: Seq<u8>,
    i: u32,
    s0: S,
    t: u8,
    ev: u64,
) -> bool {
    pred_holds(ro, b, pred_prefix_bytes(common, i), trial_e(ev, t), stream_z(s0, ev as nat))
}

impl<RO: RandomOracle> FischlinOracle<RO> {
    /// Search repetition `i` for the smallest accepting challenge,
    /// computing each response afresh: candidates are tried in increasing
    /// numeric order, the first hit is absorbed and returned, and an
    /// exhausted range asks for a retry.
    #[verifier::loop_isolation(false)]
    #[verifier::spinoff_prover]
    #[verifier::rlimit(60)]
    pub fn search_round<G: ResponseGen>(&mut self, i: u32, gen_z: &G) -> (r: ProveResult<
        (Vec<u8>, Vec<u8>),
    >)
        requires
            old(self).params().b <= 56,
        ensures
            search_round_spec(*old(self), *final(self), i, *gen_z, r),
    {
        match self.phase {
            Phase::Sealed => {},
            _ => {
                let r = Err::<(Vec<u8>, Vec<u8>), ProveError>(
                    ProveError::Malformed("fischlin: seal_first_messages missing"),
                );
                proof {
                    assert(search_round_spec(*old(self), *self, i, *gen_z, r));
                }
                return r;
            },
        }
        let prefix = match self.predicate_prefix(i) {
            Ok(p) => p,
            Err(e) => {
                let r = Err::<(Vec<u8>, Vec<u8>), ProveError>(e);
                proof {
                    assert(search_round_spec(*old(self), *self, i, *gen_z, r));
                }
                return r;
            },
        };
        let t: u8 = if self.params.t > 56 {
            56
        } else {
            self.params.t
        };
        let bound: u64 = 1u64 << t;
        let blen: usize = {
            let k = (t as usize + 7) / 8;
            if k == 0 {
                1
            } else {
                k
            }
        };
        let ghost c = self.common()->Some_0;
        let ghost ro = self.oracle();
        let ghost b = self.params().b;
        let mut ev: u64 = 0;
        while ev < bound
            invariant
                same_binding(*self, *old(self)),
                self.absorbed_bytes() == old(self).absorbed_bytes(),
                forall|w: u64| w < ev ==> !#[trigger] round_accepts(ro, b, c, i, *gen_z, t, w),
            decreases bound - ev,
        {
            let mut e_bytes: Vec<u8> = Vec::new();
            crate::bytes::push_nat_le(&mut e_bytes, ev, blen);
            let z_bytes = gen_z.gen_z(e_bytes.as_slice());
            let hit = self.hb_zero_from_prefix(
                prefix.as_slice(),
                e_bytes.as_slice(),
                z_bytes.as_slice(),
            );
            proof {
                assert(e_bytes@ == trial_e(ev, t));
                assert(hit == round_accepts(ro, b, c, i, *gen_z, t, ev));
            }
            if hit {
                self.absorb("e_i", e_bytes.as_slice());
                self.absorb("z_i", z_bytes.as_slice());
                let ghost e_v = e_bytes@;
                let ghost z_v = z_bytes@;
                let r = Ok::<(Vec<u8>, Vec<u8>), ProveError>((e_bytes, z_bytes));
                proof {
                    assert(search_hit(
                        old(self).oracle(),
                        old(self).params().b,
                        old(self).common()->Some_0,
                        i,
                        *gen_z,
                        search_width(old(self).params().t),
                        ev,
                        e_v,
                        z_v,
                    ));
                    assert(exists|w: u64|
                        #[trigger] search_hit(
                            old(self).oracle(),
                            old(self).params().b,
                            old(self).common()->Some_0,
                            i,
                            *gen_z,
                            search_width(old(self).params().t),
                            w,
                            e_v,
                            z_v,
                        ));
                    assert(r is Ok);
                    assert(r->Ok_0.0@ == e_v);
                    assert(r->Ok_0.1@ == z_v);
                    assert(search_round_spec(*old(self), *self, i, *gen_z, r));
                }
                return r;
            }
            ev += 1;
        }
        let r = Err::<(Vec<u8>, Vec<u8>), ProveError>(ProveError::RetryNeeded);
        proof {
            assert(search_round_spec(*old(self), *self, i, *gen_z, r));
        }
        r
    }

    /// Search repetition `i` with an incremental response stream: the
    /// same candidate order and tie-break as `search_round`, but the
    /// response for each trial comes from one stream step.
    #[verifier::loop_isolation(false)]
    #[verifier::spinoff_prover]
    #[verifier::rlimit(60)]
    pub fn search_round_stream<S: ResponseStream>(&mut self, i: u32, stream: &mut S) -> (r:
        ProveResult<(Vec<u8>, Vec<u8>)>)
        requires
            old(self).params().b <= 56,
        ensures
            search_round_stream_spec(
                *old(self),
                *final(self),
                i,
                *old(stream),
                *final(stream),
                r,
            ),
    {
        match self.phase {
            Phase::Sealed => {},
            _ => {
                let r = Err::<(Vec<u8>, Vec<u8>), ProveError>(
                    ProveError::Malformed("fischlin: seal_first_messages missing"),
                );
                proof {
                    assert(search_round_stream_spec(*old(self), *self, i, *stream, *stream, r));
                }
                return r;
            },
        }
        let prefix = match self.predicate_prefix(i) {
            Ok(p) => p,
            Err(e) => {
                let r = Err::<(Vec<u8>, Vec<u8>), ProveError>(e);
                proof {
                    assert(search_round_stream_spec(*old(self), *self, i, *stream, *stream, r));
                }
                return r;
            },
        };
        let t: u8 = if self.params.t > 56 {
            56
        } else {
            self.params.t
        };
        let bound: u64 = 1u64 << t;
        let blen: usize = {
            let k = (t as usize + 7) / 8;
            if k == 0 {
                1
            } else {
                k
            }
        };
        let ghost c = self.common()->Some_0;
        let ghost ro = self.oracle();
        let ghost b = self.params().b;
        let ghost s0 = *stream;
        let mut ev: u64 = 0;
        while ev < bound
            invariant
                same_binding(*self, *old(self)),
                self.absorbed_bytes() == old(self).absorbed_bytes(),
                ev <= bound,
                *stream == stream_at(s0, ev as nat),
                forall|w: u64| w < ev ==> !#[trigger] stream_accepts(ro, b, c, i, s0, t, w),
            decreases bound - ev,
        {
            let mut e_bytes: Vec<u8> = Vec::new();
            crate::bytes::push_nat_le(&mut e_bytes, ev, blen);
            let z_bytes = stream.next_z();
            proof {
                assert(z_bytes@ == stream_z(s0, ev as nat));
                assert(stream_at(s0, (ev + 1) as nat) == stream_at(s0, ev as nat).tail());
            }
            let hit = self.hb_zero_from_prefix(
                prefix.as_slice(),
                e_bytes.as_slice(),
                z_bytes.as_slice(),
            );
            proof {
                assert(e_bytes@ == trial_e(ev, t));
                assert(hit == stream_accepts(ro, b, c, i, s0, t, ev));
            }
            if hit {
                self.absorb("e_i", e_bytes.as_slice());
                self.absorb("z_i", z_bytes.as_slice());
                let ghost e_v = e_bytes@;
                let ghost z_v = z_bytes@;
                let ghost s_end = *stream;
                let r = Ok::<(Vec<u8>, Vec<u8>), ProveError>((e_bytes, z_bytes));
                proof {
                    assert(stream_hit(
                        old(self).oracle(),
                        old(self).params().b,
                        old(self).common()->Some_0,
                        i,
                        s0,
                        search_width(old(self).params().t),
                        ev,
                        e_v,
                        z_v,
                        s_end,
                    ));
                    assert(exists|w: u64|
                        #[trigger] stream_hit(
                            old(self).oracle(),
                            old(self).params().b,
                            old(self).common()->Some_0,
                            i,
                            s0,
                            search_width(old(self).params().t),
                            w,
                            e_v,
                            z_v,
                            s_end,
                        ));
                    assert(r is Ok);
                    assert(r->Ok_0.0@ == e_v);
                    assert(r->Ok_0.1@ == z_v);
                    assert(search_round_stream_spec(*old(self), *self, i, s0, s_end, r));
                }
                return r;
            }
            ev += 1;
        }
        let r = Err::<(Vec<u8>, Vec<u8>), ProveError>(ProveError::RetryNeeded);
        proof {
            assert forall|w: u64|
                w < (1u64 << search_width(old(self).params().t)) implies !#[trigger] stream_accepts(
                old(self).oracle(),
                old(self).params().b,
                old(self).common()->Some_0,
                i,
                s0,
                search_width(old(self).params().t),
                w,
            ) by {
                assert(!stream_accepts(ro, b, c, i, s0, t, w));
            }
            assert(ev == bound);
            assert(r is Err);
            assert(r->Err_0 is RetryNeeded);
            assert(*stream == stream_at(
                s0,
                (1u64 << search_width(old(self).params().t)) as nat,
            ));
            assert(search_round_stream_spec(*old(self), *self, i, s0, *stream, r));
        }
        r
    }
}

/// Trial `ev` is the hit a search round returned: in range, the returned
/// challenge and response are the trial's, the predicate holds, and no
/// smaller trial accepts.
pub open spec fn search_hit<RO: RandomOracle, G: ResponseGen>(
    ro: RO,
    b: u8,
    common: Seq<u8>,
    i: u32,
    g: G,
    t: u8,
    ev: u64,
    e: Seq<u8>,
    z: Seq<u8>,
) -> bool {
    &&& ev < (1u64 << t)
    &&& e == trial_e(ev, t)
    &&& z == g.z_of(e)
    &&& round_accepts(ro, b, common, i, g, t, ev)
    &&& forall|w: u64| w < ev ==> !#[trigger] round_accepts(ro, b, common, i, g, t, w)
}

/// Trial `ev` is the hit a streaming search round returned, and `s_end`
/// is where it left the stream: one step past the hit.
pub open spec fn stream_hit<RO: RandomOracle, S: ResponseStream>(
    ro: RO,
    b: u8,
    common: Seq<u8>,
    i: u32,
    s0: S,
    t: u8,
    ev: u64,
    e: Seq<u8>,
    z: Seq<u8>,
    s_end: S,
) -> bool {
    &&& ev < (1u64 << t)
    &&& e == trial_e(ev, t)
    &&& z == stream_z(s0, ev as nat)
    &&& stream_accepts(ro, b, common, i, s0, t, ev)
    &&& forall|w: u64| w < ev ==> !#[trigger] stream_accepts(ro, b, common, i, s0, t, w)
    &&& s_end == stream_at(s0, (ev + 1) as nat)
}

/// The whole contract of `search_round`, relating the oracle state before
/// and after the call, the caller's response generator and the result.
/// Outside the sealed phase the call fails and changes nothing. In the
/// sealed phase nothing but the transcript changes; a success returns the
/// smallest accepting trial, whose challenge and response are also
/// absorbed; a failure is the retry error and means no trial accepts.
pub open spec fn search_round_spec<RO: RandomOracle, G: ResponseGen>(
    pre: FischlinOracle<RO>,
    post: FischlinOracle<RO>,
    i: u32,
    g: G,
    r: ProveResult<(Vec<u8>, Vec<u8>)>,
) -> bool {
    &&& (pre.phase() != Phase::Sealed || pre.common() is None) ==> (r matches Err(e)
        && e is Malformed) && post == pre
    &&& pre.phase() == Phase::Sealed && pre.common() is Some ==> {
        &&& same_binding(post, pre)
        &&& match r {
            Ok(p) => {
                &&& exists|ev: u64|
                    #[trigger] search_hit(
                        pre.oracle(),
                        pre.params().b,
                        pre.common()->Some_0,
                        i,
                        g,
                        search_width(pre.params().t),
                        ev,
                        p.0@,
                        p.1@,
                    )
                &&& post.absorbed_bytes() == pre.absorbed_bytes() + framed_entry(
                    "e_i".spec_bytes(),
                    p.0@,
                ) + framed_entry("z_i".spec_bytes(), p.1@)
            },
            Err(e) => {
                &&& e is RetryNeeded
                &&& forall|ev: u64|
                    ev < (1u64 << search_width(pre.params().t)) ==> !#[trigger] round_accepts(
                        pre.oracle(),
                        pre.params().b,
                        pre.common()->Some_0,
                        i,
                        g,
                        search_width(pre.params().t),
                        ev,
                    )
                &&& post.absorbed_bytes() == pre.absorbed_bytes()
            },
        }
    }
}

/// The whole contract of `search_round_stream`: as `search_round_spec`,
/// with the responses drawn from the stream; a success leaves the stream
/// one step past the hit, exhaustion leaves it past the whole range.
pub open spec fn search_round_stream_spec<RO: RandomOracle, S: ResponseStream>(
    pre: FischlinOracle<RO>,
    post: FischlinOracle<RO>,
    i: u32,
    s_pre: S,
    s_post: S,
    r: ProveResult<(Vec<u8>, Vec<u8>)>,
) -> bool {
    &&& (pre.phase() != Phase::Sealed || pre.common() is None) ==> (r matches Err(e)
        && e is Malformed) && post == pre && s_post == s_pre
    &&& pre.phase() == Phase::Sealed && pre.common() is Some ==> {
        &&& same_binding(post, pre)
        &&& match r {
            Ok(p) => {
                &&& exists|ev: u64|
                    #[trigger] stream_hit(
                        pre.oracle(),
                        pre.params().b,
                        pre.common()->Some_0,
                        i,
                        s_pre,
                        search_width(pre.params().t),
                        ev,
                        p.0@,
                        p.1@,
                        s_post,
                    )
                &&& post.absorbed_bytes() == pre.absorbed_bytes() + framed_entry(
                    "e_i".spec_bytes(),
                    p.0@,
                ) + framed_entry("z_i".spec_bytes(), p.1@)
            },
            Err(e) => {
                &&& e is RetryNeeded
                &&& forall|ev: u64|
                    ev < (1u64 << search_width(pre.params().t)) ==> !#[trigger] stream_accepts(
                        pre.oracle(),
                        pre.params().b,
                        pre.common()->Some_0,
                        i,
                        s_pre,
                        search_width(pre.params().t),
                        ev,
                    )
                &&& s_post == stream_at(s_pre, (1u64 << search_width(pre.params().t)) as nat)
                &&& post.absorbed_bytes() == pre.absorbed_bytes()
            },
        }
    }
}

/// One whole proof attempt under the retry harness, together with its
/// per-attempt hook. The implementer's `possible` describes the outcomes
/// its attempts may produce.
pub trait ProveAttempt<O> {
    /// The proof value a successful attempt produces.
    type Proof;

    /// The outcomes an attempt may produce.
    spec fn possible(r: ProveResult<Self::Proof>) -> bool;

    /// Prepare the oracle before attempt `attempt` (for instance add one
    /// more stream element per try).
    fn prepare(&mut self, oracle: &mut O, attempt: usize) -> (r: ProveResult<()>)
        ensures
            r matches Err(e) ==> Self::possible(Err(e)),
    ;

    /// Run one whole proof attempt.
    fn try_once(&mut self, oracle: &mut O, attempt: usize) -> (r: ProveResult<Self::Proof>)
        ensures
            Self::possible(r),
    ;
}

/// The generic retry harness for whole proof attempts: run up to
/// `retries` attempts (at least one); a retryable failure starts the next
/// attempt, any other outcome propagates at once, and an exhausted budget
/// yields the retry error. Whatever comes back is an outcome an attempt
/// may produce, or the retry error itself.
pub fn search_with_retry<O, A: ProveAttempt<O>>(oracle: O, retries: usize, attempt: &mut A) -> (r:
    ProveResult<A::Proof>)
    ensures
        A::possible(r) || (r matches Err(e) && e == ProveError::RetryNeeded),
{
    let mut o = oracle;
    let max = if retries == 0 {
        1
    } else {
        retries
    };
    let mut i: usize = 0;
    while i < max
        invariant
            i <= max,
        decreases max - i,
    {
        match attempt.prepare(&mut o, i) {
            Ok(u) => {},
            Err(e) => {
                return Err(e);
            },
        }
        match attempt.try_once(&mut o, i) {
            Ok(v) => {
                return Ok(v);
            },
            Err(e) => {
                if !e.is_retry_needed() {
                    return Err(e);
                }
            },
        }
        i += 1;
    }
    Err(ProveError::RetryNeeded)
}

} // verus!
