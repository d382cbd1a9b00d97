//! The timeline interpreter: a declarative description of a proof's
//! fields, a `prove` that extracts their values from a recorded event
//! timeline by a forward scan, and a `verify` that replays the
//! absorptions, re-derives every challenge field and equality-checks it,
//! then evaluates the caller's check.

use vstd::prelude::*;

use crate::recording::RecEvent;
use crate::transcript::hash_oracle_input;
use crate::transcript::lemma_hash_oracle_challenge_input;
use crate::transcript::Absorb;
use crate::transcript::CanonicalEncode;
use crate::transcript::Challenge;
use crate::transcript::HashOracle;
use crate::transcript::Oracle;

verus! {

use vstd::string::StringSliceAdditionalSpecFns;
use vstd::utf8::encode_utf8;

/// Where a proof field comes from: an absorption or a challenge event.
#[derive(Clone, Copy, Debug, PartialEq, Eq, Structural)]
pub enum FieldSource {
    /// The field is the value of an absorption.
    Absorb,
    /// The field is the value of a challenge.
    Challenge,
}

/// One field of a declaratively described proof: its source kind and its
/// stable label.
#[derive(Clone, Copy, Debug)]
pub struct FieldTemplate {
    /// The source kind.
    pub source: FieldSource,
    /// The label the field's events carry.
    pub label: &'static str,
}

impl View for FieldTemplate {
    type V = (FieldSource, Seq<char>);

    open spec fn view(&self) -> (FieldSource, Seq<char>) {
        (self.source, self.label@)
    }
}

/// The views of a field list.
pub open spec fn fields_view(fields: Seq<FieldTemplate>) -> Seq<(FieldSource, Seq<char>)> {
    Seq::new(fields.len(), |i: int| fields[i]@)
}

/// The event satisfies a field: same kind, same label.
pub open spec fn event_matches(ev: RecEvent, src: FieldSource, label: Seq<char>) -> bool {
    match ev {
        RecEvent::Absorb { label: l, bytes: _ } => src == FieldSource::Absorb && l@ == label,
        RecEvent::Challenge { label: l, bytes: _ } => src == FieldSource::Challenge && l@
            == label,
    }
}

/// The bytes an event carries.
pub open spec fn event_bytes(ev: RecEvent) -> Seq<u8> {
    match ev {
        RecEvent::Absorb { label: _, bytes } => bytes@,
        RecEvent::Challenge { label: _, bytes } => bytes@,
    }
}

/// The first event from `cur` on that satisfies the field.
pub open spec fn next_match(
    events: Seq<RecEvent>,
    cur: int,
    src: FieldSource,
    label: Seq<char>,
) -> Option<int>
    decreases events.len() - cur,
{
    if cur < 0 || cur >= events.len() {
        None
    } else if event_matches(events[cur], src, label) {
        Some(cur)
    } else {
        next_match(events, cur + 1, src, label)
    }
}

/// The field values a forward scan of the timeline extracts: each field
/// consumes the next matching event, in order; nothing when one is
/// missing.
pub open spec fn extract_spec(
    events: Seq<RecEvent>,
    fields: Seq<(FieldSource, Seq<char>)>,
    cur: int,
) -> Option<Seq<Seq<u8>>>
    decreases fields.len(),
{
    if fields.len() == 0 {
        Some(Seq::empty())
    } else {
        match next_match(events, cur, fields[0].0, fields[0].1) {
            None => None,
            Some(idx) => match extract_spec(events, fields.drop_first(), idx + 1) {
                None => None,
                Some(rest) => Some(seq![event_bytes(events[idx])] + rest),
            },
        }
    }
}

/// Find the first event from `cur` on that satisfies the field.
fn next_matching(events: &[RecEvent], cur: usize, source: FieldSource, label: &str) -> (r: Option<
    usize,
>)
    requires
        cur <= events@.len(),
    ensures
        match r {
            Some(i) => cur <= i < events@.len() && next_match(
                events@,
                cur as int,
                source,
                label@,
            ) == Some(i as int),
            None => next_match(events@, cur as int, source, label@) is None,
        },
{
    let mut idx: usize = cur;
    while idx < events.len()
        invariant
            cur <= idx <= events@.len(),
            next_match(events@, cur as int, source, label@) == next_match(
                events@,
                idx as int,
                source,
                label@,
            ),
        decreases events@.len() - idx,
    {
        let hit = match &events[idx] {
            RecEvent::Absorb { label: l, bytes: _ } => {
                source == FieldSource::Absorb && crate::bytes::bytes_eq(
                    l.as_bytes(),
                    label.as_bytes(),
                )
            },
            RecEvent::Challenge { label: l, bytes: _ } => {
                source == FieldSource::Challenge && crate::bytes::bytes_eq(
                    l.as_bytes(),
                    label.as_bytes(),
                )
            },
        };
        proof {
            match events@[idx as int] {
                RecEvent::Absorb { label: l, bytes: _ } => {
                    if l.spec_bytes() == label.spec_bytes() {
                        crate::recording::lemma_label_bytes_injective(l@, label@);
                    }
                },
                RecEvent::Challenge { label: l, bytes: _ } => {
                    if l.spec_bytes() == label.spec_bytes() {
                        crate::recording::lemma_label_bytes_injective(l@, label@);
                    }
                },
            }
            assert(hit == event_matches(events@[idx as int], source, label@));
        }
        if hit {
            return Some(idx);
        }
        idx += 1;
    }
    None
}

/// Extract the declared fields of a proof from a recorded timeline by a
/// forward scan: each field takes the next event of its kind and label,
/// and the scan never looks back. Nothing when the timeline lacks a
/// field.
#[verifier::loop_isolation(false)]
pub fn prove(events: &[RecEvent], fields: &[FieldTemplate]) -> (r: Option<Vec<Vec<u8>>>)
    ensures
        match r {
            Some(vals) => extract_spec(events@, fields_view(fields@), 0) == Some(
                vals.deep_view(),
            ),
            None => extract_spec(events@, fields_view(fields@), 0) is None,
        },
{
    let ghost fv = fields_view(fields@);
    let mut out: Vec<Vec<u8>> = Vec::new();
    let mut cur: usize = 0;
    let mut k: usize = 0;
    proof {
        assert(fv.skip(0) =~= fv);
    }
    while k < fields.len()
        invariant
            k <= fields@.len(),
            cur <= events@.len(),
            out@.len() == k,
            match extract_spec(events@, fv.skip(k as int), cur as int) {
                None => extract_spec(events@, fv, 0) is None,
                Some(rest) => extract_spec(events@, fv, 0) == Some(out.deep_view() + rest),
            },
        decreases fields@.len() - k,
    {
        let ghost rem = fv.skip(k as int);
        proof {
            assert(rem[0] == fields@[k as int]@);
            assert(rem.drop_first() =~= fv.skip(k + 1));
        }
        let f = &fields[k];
        let idx = match next_matching(events, cur, f.source, f.label) {
            None => {
                return None;
            },
            Some(i) => i,
        };
        let bytes = match &events[idx] {
            RecEvent::Absorb { label: _, bytes } => vstd::slice::slice_to_vec(bytes.as_slice()),
            RecEvent::Challenge { label: _, bytes } => vstd::slice::slice_to_vec(
                bytes.as_slice(),
            ),
        };
        proof {
            assert(bytes@ == event_bytes(events@[idx as int]));
        }
        let ghost out_d = out.deep_view();
        let ghost item_v = bytes@;
        out.push(bytes);
        cur = idx + 1;
        k += 1;
        proof {
            assert(out@[out@.len() - 1].deep_view() =~= item_v);
            assert(out.deep_view() =~= out_d.push(item_v));
            match extract_spec(events@, fv.skip(k as int), cur as int) {
                None => {},
                Some(rest) => {
                    assert(out_d + (seq![item_v] + rest) =~= out.deep_view() + rest);
                },
            }
        }
    }
    proof {
        assert(fv.skip(fields@.len() as int) =~= Seq::<(FieldSource, Seq<char>)>::empty());
        assert(out.deep_view() + Seq::<Seq<u8>>::empty() =~= out.deep_view());
    }
    Some(out)
}

/// The caller's final check over the extracted field values: the
/// protocol algebra evaluated after every challenge field has been
/// re-derived and compared.
pub trait ProofCheck {
    /// The acceptance relation of the check.
    spec fn ok(&self, values: Seq<Seq<u8>>) -> bool;

    /// Evaluate the check.
    fn check(&self, values: &Vec<Vec<u8>>) -> (r: bool)
        ensures
            r == self.ok(values.deep_view()),
    ;
}

/// The replay of the declared fields against a fresh oracle holds: every
/// absorb field is absorbed in order, and every challenge field equals
/// the canonical encoding of the challenge the oracle derives at that
/// point of the replay.
pub open spec fn replay_ok<C: Challenge + CanonicalEncode>(
    domain: Seq<u8>,
    buf: Seq<u8>,
    fields: Seq<(FieldSource, Seq<char>)>,
    values: Seq<Seq<u8>>,
) -> bool
    decreases fields.len(),
{
    if fields.len() == 0 {
        true
    } else if values.len() == 0 {
        false
    } else {
        let src = fields[0].0;
        let label = fields[0].1;
        let v = values[0];
        if src == FieldSource::Absorb {
            replay_ok::<C>(
                domain,
                buf + domain + encode_utf8(label) + v,
                fields.drop_first(),
                values.drop_first(),
            )
        } else {
            let c = C::from_bytes_spec(label, hash_oracle_input(domain, buf, label));
            &&& c.canon() == v
            &&& replay_ok::<C>(domain, buf, fields.drop_first(), values.drop_first())
        }
    }
}

/// The whole outcome of `verify`: one value per field, a replay that
/// re-derives and matches every challenge field, and the caller's check.
pub open spec fn verify_fields_spec<C: Challenge + CanonicalEncode, K: ProofCheck>(
    domain: Seq<u8>,
    fields: Seq<(FieldSource, Seq<char>)>,
    values: Seq<Seq<u8>>,
    k: K,
) -> bool {
    &&& values.len() == fields.len()
    &&& replay_ok::<C>(domain, Seq::empty(), fields, values)
    &&& k.ok(values)
}

/// Verify extracted field values against their declaration: replay the
/// absorptions into a fresh domain-separated oracle, re-derive every
/// challenge field and compare it with the stored value, then evaluate
/// the caller's check. Returns exactly what the replay spec says.
#[verifier::loop_isolation(false)]
pub fn verify<C: Challenge + CanonicalEncode, K: ProofCheck>(
    domain: &[u8],
    fields: &[FieldTemplate],
    values: &Vec<Vec<u8>>,
    check: &K,
) -> (r: bool)
    ensures
        r == verify_fields_spec::<C, K>(domain@, fields_view(fields@), values.deep_view(), *check),
{
    let ghost fv = fields_view(fields@);
    let ghost vals = values.deep_view();
    if values.len() != fields.len() {
        return false;
    }
    let mut h = HashOracle::new(domain);
    let mut k: usize = 0;
    proof {
        assert(fv.skip(0) =~= fv);
        assert(vals.skip(0) =~= vals);
    }
    while k < fields.len()
        invariant
            k <= fields@.len(),
            vals.len() == fv.len(),
            h.domain_bytes() == domain@,
            replay_ok::<C>(domain@, Seq::empty(), fv, vals) == replay_ok::<C>(
                domain@,
                h.buf_bytes(),
                fv.skip(k as int),
                vals.skip(k as int),
            ),
        decreases fields@.len() - k,
    {
        let ghost remf = fv.skip(k as int);
        let ghost remv = vals.skip(k as int);
        proof {
            assert(remf[0] == fields@[k as int]@);
            assert(remv[0] == vals[k as int]);
            crate::codec::lemma_deep_entry(values, k as int);
            assert(remf.drop_first() =~= fv.skip(k + 1));
            assert(remv.drop_first() =~= vals.skip(k + 1));
        }
        let f = &fields[k];
        match f.source {
            FieldSource::Absorb => {
                h.absorb_bytes(f.label, values[k].as_slice());
            },
            FieldSource::Challenge => {
                proof {
                    lemma_hash_oracle_challenge_input(&h, f.label@);
                }
                let c: C = h.challenge(f.label);
                let mut enc: Vec<u8> = Vec::new();
                c.encode(&mut enc);
                if !crate::bytes::bytes_eq(enc.as_slice(), values[k].as_slice()) {
                    return false;
                }
            },
        }
        k += 1;
    }
    proof {
        assert(fv.skip(fv.len() as int) =~= Seq::<(FieldSource, Seq<char>)>::empty());
    }
    check.check(values)
}

} // verus!
