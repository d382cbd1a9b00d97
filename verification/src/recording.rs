//! The event-recording bridge: an oracle wrapper that timestamps every
//! absorb and challenge, and the timeline interpreter that turns a
//! recorded run into a proof and replays it for verification.

use vstd::prelude::*;

use crate::transcript::Absorb;
use crate::transcript::CanonicalEncode;
use crate::transcript::Challenge;
use crate::transcript::Oracle;

verus! {

use vstd::string::StringSliceAdditionalSpecFns;
use vstd::utf8::encode_utf8;

/// One recorded transcript event: an absorption or a challenge, with its
/// label and bytes, in call order.
#[derive(Clone, Debug, PartialEq, Eq)]
pub enum RecEvent {
    /// Bytes absorbed under a label.
    Absorb {
        /// The label of the absorption.
        label: &'static str,
        /// The absorbed bytes.
        bytes: Vec<u8>,
    },
    /// A challenge derived under a label.
    Challenge {
        /// The label of the challenge.
        label: &'static str,
        /// The canonical encoding of the derived challenge.
        bytes: Vec<u8>,
    },
}

/// Access to the recorded timeline of a finished proving run.
pub trait IntoEvents {
    /// The timeline recorded so far.
    spec fn recorded(&self) -> Seq<RecEvent>;

    /// Hand the timeline out.
    fn into_events(self) -> (r: Vec<RecEvent>)
        ensures
            r@ == self.recorded(),
    ;
}

/// Identical UTF-8 renderings come from identical character sequences.
pub proof fn lemma_label_bytes_injective(a: Seq<char>, b: Seq<char>)
    requires
        encode_utf8(a) == encode_utf8(b),
    ensures
        a == b,
{
    vstd::utf8::encode_utf8_decode_utf8(a);
    vstd::utf8::encode_utf8_decode_utf8(b);
}

/// Wraps an absorb/oracle implementation and records a `RecEvent` for
/// every absorb and every challenge, preserving exact call order. It
/// forwards to the inner oracle unmodified: recording never alters
/// oracle output.
pub struct RecordingHashOracle<H> {
    inner: H,
    events: Vec<RecEvent>,
}

impl<H> RecordingHashOracle<H> {
    /// The wrapped oracle.
    pub closed spec fn inner_oracle(&self) -> H {
        self.inner
    }

    /// The recorded timeline.
    pub closed spec fn events_log(&self) -> Seq<RecEvent> {
        self.events@
    }

    /// Wrap an oracle with an empty timeline.
    pub fn new(inner: H) -> (r: Self)
        ensures
            r.inner_oracle() == inner,
            r.events_log() == Seq::<RecEvent>::empty(),
    {
        RecordingHashOracle { inner, events: Vec::new() }
    }

    /// The recorded events, in call order.
    pub fn events(&self) -> (r: &[RecEvent])
        ensures
            r@ == self.events_log(),
    {
        self.events.as_slice()
    }

    /// Split into the inner oracle and the timeline.
    pub fn into_parts(self) -> (r: (H, Vec<RecEvent>))
        ensures
            r.0 == self.inner_oracle(),
            r.1@ == self.events_log(),
    {
        let RecordingHashOracle { inner, events } = self;
        (inner, events)
    }

    /// Find the latest absorbed bytes for a label.
    pub fn find_absorb(&self, label: &str) -> (r: Option<&Vec<u8>>)
        ensures
            match r {
                Some(v) => latest_absorb(self.events_log(), label@) == Some(v@),
                None => latest_absorb(self.events_log(), label@) is None,
            },
    {
        let mut j: usize = self.events.len();
        proof {
            assert(self.events_log().take(self.events@.len() as int) =~= self.events_log());
        }
        while j > 0
            invariant
                j <= self.events@.len(),
                latest_absorb(self.events_log(), label@) == latest_absorb(
                    self.events_log().take(j as int),
                    label@,
                ),
            decreases j,
        {
            j -= 1;
            let ghost upto = self.events_log().take(j + 1);
            proof {
                assert(upto.drop_last() =~= self.events_log().take(j as int));
                assert(upto.last() == self.events_log()[j as int]);
            }
            match &self.events[j] {
                RecEvent::Absorb { label: l, bytes } => {
                    if crate::bytes::bytes_eq(l.as_bytes(), label.as_bytes()) {
                        proof {
                            lemma_label_bytes_injective(l@, label@);
                        }
                        return Some(bytes);
                    }
                },
                _ => {},
            }
        }
        proof {
            assert(self.events_log().take(0) =~= Seq::<RecEvent>::empty());
        }
        None
    }

    /// Find the latest challenge bytes for a label.
    pub fn find_challenge(&self, label: &str) -> (r: Option<&Vec<u8>>)
        ensures
            match r {
                Some(v) => latest_challenge(self.events_log(), label@) == Some(v@),
                None => latest_challenge(self.events_log(), label@) is None,
            },
    {
        let mut j: usize = self.events.len();
        proof {
            assert(self.events_log().take(self.events@.len() as int) =~= self.events_log());
        }
        while j > 0
            invariant
                j <= self.events@.len(),
                latest_challenge(self.events_log(), label@) == latest_challenge(
                    self.events_log().take(j as int),
                    label@,
                ),
            decreases j,
        {
            j -= 1;
            let ghost upto = self.events_log().take(j + 1);
            proof {
                assert(upto.drop_last() =~= self.events_log().take(j as int));
                assert(upto.last() == self.events_log()[j as int]);
            }
            match &self.events[j] {
                RecEvent::Challenge { label: l, bytes } => {
                    if crate::bytes::bytes_eq(l.as_bytes(), label.as_bytes()) {
                        proof {
                            lemma_label_bytes_injective(l@, label@);
                        }
                        return Some(bytes);
                    }
                },
                _ => {},
            }
        }
        proof {
            assert(self.events_log().take(0) =~= Seq::<RecEvent>::empty());
        }
        None
    }
}

/// The latest absorption for a label in a timeline.
pub open spec fn latest_absorb(events: Seq<RecEvent>, label: Seq<char>) -> Option<Seq<u8>>
    decreases events.len(),
{
    if events.len() == 0 {
        None
    } else if events.last() matches RecEvent::Absorb { label: l, bytes } && l@ == label {
        Some((events.last()->Absorb_bytes)@)
    } else {
        latest_absorb(events.drop_last(), label)
    }
}

/// The latest challenge for a label in a timeline.
pub open spec fn latest_challenge(events: Seq<RecEvent>, label: Seq<char>) -> Option<Seq<u8>>
    decreases events.len(),
{
    if events.len() == 0 {
        None
    } else if events.last() matches RecEvent::Challenge { label: l, bytes } && l@ == label {
        Some((events.last()->Challenge_bytes)@)
    } else {
        latest_challenge(events.drop_last(), label)
    }
}

impl<H: Absorb> Absorb for RecordingHashOracle<H> {
    closed spec fn absorbed(&self) -> Seq<(Seq<char>, Seq<u8>)> {
        self.inner.absorbed()
    }

    fn absorb_bytes(&mut self, label: &'static str, bytes: &[u8])
        ensures
            final(self).inner_oracle().absorbed() == old(self).inner_oracle().absorbed().push(
                (label@, bytes@),
            ),
            final(self).events_log().len() == old(self).events_log().len() + 1,
            final(self).events_log().drop_last() == old(self).events_log(),
            final(self).events_log().last() matches RecEvent::Absorb { label: l, bytes: b }
                && l@ == label@ && b@ == bytes@,
    {
        self.inner.absorb_bytes(label, bytes);
        let copy = vstd::slice::slice_to_vec(bytes);
        self.events.push(RecEvent::Absorb { label, bytes: copy });
        proof {
            assert(self.events@.drop_last() =~= old(self).events@);
        }
    }
}

impl<H: Oracle> Oracle for RecordingHashOracle<H> {
    closed spec fn challenge_input(&self, label: Seq<char>) -> Seq<u8> {
        self.inner.challenge_input(label)
    }

    fn challenge<C: Challenge + CanonicalEncode>(&mut self, label: &'static str) -> (c: C)
        ensures
            final(self).events_log().len() == old(self).events_log().len() + 1,
            final(self).events_log().drop_last() == old(self).events_log(),
            final(self).events_log().last() matches RecEvent::Challenge { label: l, bytes: b }
                && l@ == label@ && b@ == c.canon(),
    {
        let c: C = self.inner.challenge(label);
        let mut v: Vec<u8> = Vec::new();
        c.encode(&mut v);
        self.events.push(RecEvent::Challenge { label, bytes: v });
        proof {
            assert(self.events@.drop_last() =~= old(self).events@);
        }
        c
    }
}

impl<H> IntoEvents for RecordingHashOracle<H> {
    closed spec fn recorded(&self) -> Seq<RecEvent> {
        self.events@
    }

    fn into_events(self) -> (r: Vec<RecEvent>) {
        let RecordingHashOracle { inner: _, events } = self;
        events
    }
}

} // verus!
