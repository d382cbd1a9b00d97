//! The Fiat-Shamir runtime: a stateful oracle wrapper that supports
//! repeated challenge derivation against the accumulated transcript.

use vstd::prelude::*;

use crate::runtime::framed_entry;
use crate::runtime::RandomOracle;
use crate::runtime::TranscriptRuntime;

verus! {

use vstd::string::StringSliceAdditionalSpecFns;

/// The ASCII bytes of `"mode:FS|"`, the domain prefix of every derived
/// challenge.
pub open spec fn mode_fs_prefix() -> Seq<u8> {
    seq![109u8, 111u8, 100u8, 101u8, 58u8, 70u8, 83u8, 124u8]
}

/// The ASCII bytes of `"|extra|"`, the marker before the extra bytes of a
/// derivation.
pub open spec fn marker_extra() -> Seq<u8> {
    seq![124u8, 101u8, 120u8, 116u8, 114u8, 97u8, 124u8]
}

/// The bytes hashed for one challenge derivation: the mode prefix, the
/// whole absorbed transcript, and the framed extra bytes if there are any.
pub open spec fn fs_challenge_input(buf: Seq<u8>, extra: Seq<u8>) -> Seq<u8> {
    if extra.len() == 0 {
        mode_fs_prefix() + buf
    } else {
        mode_fs_prefix() + buf + marker_extra() + extra
    }
}

/// The bytes a challenge derivation returns: the label-separated full
/// digest of the challenge input, cut down to `out_len` bytes.
pub open spec fn fs_derive<RO: RandomOracle>(
    ro: RO,
    buf: Seq<u8>,
    label: Seq<char>,
    extra: Seq<u8>,
    out_len: nat,
) -> Seq<u8> {
    let h = ro.full_digest(label, fs_challenge_input(buf, extra));
    if out_len < h.len() {
        h.take(out_len as int)
    } else {
        h
    }
}

/// The Fiat-Shamir oracle: a random oracle plus the transcript absorbed so
/// far. Unlike the one-shot hash oracle it supports several sequential
/// challenge draws against a growing transcript.
pub struct FSOracle<RO: RandomOracle> {
    ro: RO,
    buf: Vec<u8>,
}

impl<RO: RandomOracle> FSOracle<RO> {
    /// The underlying random oracle.
    pub closed spec fn oracle(&self) -> RO {
        self.ro
    }

    /// Wrap a random oracle with an empty transcript.
    pub fn new(ro: RO) -> (r: Self)
        ensures
            r.oracle() == ro,
            r.absorbed_bytes() == Seq::<u8>::empty(),
    {
        FSOracle { ro, buf: Vec::new() }
    }

    /// Derive a challenge of `out_len` bytes from the current transcript
    /// state and the optional extra bytes; the transcript is unchanged.
    pub fn derive_challenge(&mut self, label: &str, extra: &[u8], out_len: usize) -> (r: Vec<u8>)
        ensures
            *final(self) == *old(self),
            r@ == fs_derive(
                old(self).oracle(),
                old(self).absorbed_bytes(),
                label@,
                extra@,
                out_len as nat,
            ),
    {
        let mut msg: Vec<u8> = Vec::new();
        msg.push(109u8);
        msg.push(111u8);
        msg.push(100u8);
        msg.push(101u8);
        msg.push(58u8);
        msg.push(70u8);
        msg.push(83u8);
        msg.push(124u8);
        proof {
            assert(msg@ =~= mode_fs_prefix());
        }
        crate::bytes::push_all(&mut msg, self.buf.as_slice());
        if extra.len() > 0 {
            msg.push(124u8);
            msg.push(101u8);
            msg.push(120u8);
            msg.push(116u8);
            msg.push(114u8);
            msg.push(97u8);
            msg.push(124u8);
            crate::bytes::push_all(&mut msg, extra);
            proof {
                assert(msg@ =~= fs_challenge_input(self.buf@, extra@));
            }
        } else {
            proof {
                assert(msg@ =~= fs_challenge_input(self.buf@, extra@));
            }
        }
        let h = self.ro.H_full(label, msg.as_slice());
        if out_len < h.len() {
            let cut = vstd::slice::slice_subrange(h.as_slice(), 0, out_len);
            let r = vstd::slice::slice_to_vec(cut);
            proof {
                assert(r@ =~= h@.take(out_len as int));
            }
            r
        } else {
            h
        }
    }

    /// Clear the transcript between proofs; the random oracle is kept.
    pub fn reset(&mut self)
        ensures
            final(self).oracle() == old(self).oracle(),
            final(self).absorbed_bytes() == Seq::<u8>::empty(),
    {
        self.buf.clear();
    }
}

impl<RO: RandomOracle> TranscriptRuntime for FSOracle<RO> {
    closed spec fn absorbed_bytes(&self) -> Seq<u8> {
        self.buf@
    }

    fn absorb(&mut self, label: &str, bytes: &[u8])
        ensures
            final(self).oracle() == old(self).oracle(),
    {
        self.buf.push(124u8);
        self.buf.push(108u8);
        self.buf.push(97u8);
        self.buf.push(98u8);
        self.buf.push(101u8);
        self.buf.push(108u8);
        self.buf.push(124u8);
        crate::bytes::push_all(&mut self.buf, label.as_bytes());
        self.buf.push(124u8);
        self.buf.push(100u8);
        self.buf.push(97u8);
        self.buf.push(116u8);
        self.buf.push(97u8);
        self.buf.push(124u8);
        crate::bytes::push_all(&mut self.buf, bytes);
        proof {
            assert(self.buf@ =~= old(self).buf@ + framed_entry(label.spec_bytes(), bytes@));
        }
    }
}

/// Fiat-Shamir challenge derivation is deterministic: two oracle
/// instances over the same random oracle that have absorbed the same
/// transcript derive the same bytes for the same label, extra bytes and
/// output length.
pub proof fn lemma_fs_challenge_deterministic<RO: RandomOracle>(
    a: FSOracle<RO>,
    b: FSOracle<RO>,
    label: Seq<char>,
    extra: Seq<u8>,
    out_len: nat,
)
    requires
        a.oracle() == b.oracle(),
        a.absorbed_bytes() == b.absorbed_bytes(),
    ensures
        fs_derive(a.oracle(), a.absorbed_bytes(), label, extra, out_len) == fs_derive(
            b.oracle(),
            b.absorbed_bytes(),
            label,
            extra,
            out_len,
        ),
{
}

} // verus!
