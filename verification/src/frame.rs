//! Length-prefixed frames carrying a labelled challenge across an
//! abstract channel: the pure byte layout, verified; the channel itself
//! lives with the caller.

use vstd::prelude::*;

use crate::bytes::le_val;
use crate::bytes::lemma_le_val_u16;
use crate::bytes::push_all;
use crate::bytes::push_u16_le;
use crate::bytes::read_u16_le;
use crate::bytes::u16_le;

verus! {

use vstd::string::StringSliceAdditionalSpecFns;

/// The one frame kind: a challenge frame.
pub open spec fn tag_challenge() -> u8 {
    1u8
}

/// The frame layout: the tag, the label length and bytes, the payload
/// length and bytes.
pub open spec fn enc_frame(label: Seq<u8>, payload: Seq<u8>) -> Seq<u8> {
    seq![tag_challenge()] + u16_le(label.len() as u16) + label + u16_le(payload.len() as u16)
        + payload
}

/// Both parts fit their length prefixes.
pub open spec fn frame_encodable(label: Seq<u8>, payload: Seq<u8>) -> bool {
    &&& label.len() < 0x1_0000
    &&& payload.len() < 0x1_0000
}

/// The spec-level frame decoder: the label and payload bytes, or nothing
/// on a wrong tag or truncated input.
pub open spec fn dec_frame(s: Seq<u8>) -> Option<(Seq<u8>, Seq<u8>)> {
    if s.len() < 3 {
        None
    } else if s[0] != tag_challenge() {
        None
    } else {
        let ll = le_val(s.subrange(1, 3)) as int;
        if s.len() < 3 + ll + 2 {
            None
        } else {
            let label = s.subrange(3, 3 + ll);
            let pl = le_val(s.subrange(3 + ll, 3 + ll + 2)) as int;
            if s.len() < 3 + ll + 2 + pl {
                None
            } else {
                Some((label, s.subrange(3 + ll + 2, 3 + ll + 2 + pl)))
            }
        }
    }
}

/// Round trip: decoding an encoded frame yields its label and payload.
pub proof fn lemma_frame_round_trip(label: Seq<u8>, payload: Seq<u8>)
    requires
        frame_encodable(label, payload),
    ensures
        dec_frame(enc_frame(label, payload)) == Some((label, payload)),
{
    let s = enc_frame(label, payload);
    let ll = label.len() as int;
    assert(s[0] == tag_challenge());
    assert(s.subrange(1, 3) =~= u16_le(label.len() as u16));
    lemma_le_val_u16(label.len() as u16);
    assert(s.subrange(3, 3 + ll) =~= label);
    assert(s.subrange(3 + ll, 3 + ll + 2) =~= u16_le(payload.len() as u16));
    lemma_le_val_u16(payload.len() as u16);
    assert(s.subrange(3 + ll + 2, 3 + ll + 2 + payload.len()) =~= payload);
}

/// Encode a labelled challenge payload into one frame.
pub fn encode_frame(label: &str, payload: &[u8]) -> (out: Vec<u8>)
    requires
        label.spec_bytes().len() < 0x1_0000,
        payload@.len() < 0x1_0000,
    ensures
        out@ == enc_frame(label.spec_bytes(), payload@),
{
    let lb = label.as_bytes();
    let mut out: Vec<u8> = Vec::new();
    out.push(1u8);
    push_u16_le(&mut out, lb.len() as u16);
    push_all(&mut out, lb);
    push_u16_le(&mut out, payload.len() as u16);
    push_all(&mut out, payload);
    proof {
        assert(out@ =~= enc_frame(label.spec_bytes(), payload@));
    }
    out
}

/// Decode one frame into its label bytes and payload; nothing on a wrong
/// tag or truncated input, exactly as the spec-level decoder says.
pub fn decode_frame(bytes: &[u8]) -> (r: Option<(Vec<u8>, Vec<u8>)>)
    ensures
        match r {
            Some(p) => dec_frame(bytes@) == Some((p.0@, p.1@)),
            None => dec_frame(bytes@) is None,
        },
{
    if bytes.len() < 3 {
        return None;
    }
    if bytes[0] != 1u8 {
        return None;
    }
    let ll = read_u16_le(bytes, 1) as usize;
    proof {
        assert(bytes@.subrange(1, 3) == bytes@.subrange(1int, 3int));
    }
    if bytes.len() - 3 < ll {
        return None;
    }
    if bytes.len() - 3 - ll < 2 {
        return None;
    }
    let label = vstd::slice::slice_to_vec(vstd::slice::slice_subrange(bytes, 3, 3 + ll));
    let pl = read_u16_le(bytes, 3 + ll) as usize;
    proof {
        assert(bytes@.subrange(3 + ll, 3 + ll + 2) == bytes@.subrange(
            (3 + ll) as int,
            (3 + ll) as int + 2,
        ));
    }
    if bytes.len() - 3 - ll - 2 < pl {
        return None;
    }
    let payload = vstd::slice::slice_to_vec(
        vstd::slice::slice_subrange(bytes, 3 + ll + 2, 3 + ll + 2 + pl),
    );
    proof {
        assert(label@ == bytes@.subrange(3, 3 + ll as int));
        assert(payload@ == bytes@.subrange(3 + ll as int + 2, 3 + ll as int + 2 + pl as int));
    }
    Some((label, payload))
}

} // verus!
