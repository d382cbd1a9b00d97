//! The length-prefixed list layout shared by the proof byte formats: a
//! `u32` count followed by one `u32` length prefix and the raw bytes per
//! item, everything little-endian. The executable encoder and decoder are
//! verified against spec-level counterparts, and the decoder recovers
//! exactly what the encoder produced.

use vstd::prelude::*;

use crate::bytes::le_val;
use crate::bytes::lemma_le_val_u32;
use crate::bytes::push_all;
use crate::bytes::push_u32_le;
use crate::bytes::read_u32_le;
use crate::bytes::u32_le;

verus! {

/// One encoded item: its length as four little-endian bytes, then its bytes.
pub open spec fn enc_item(item: Seq<u8>) -> Seq<u8> {
    u32_le(item.len() as u32) + item
}

/// The concatenation of the encoded items, in order.
pub open spec fn enc_items(items: Seq<Seq<u8>>) -> Seq<u8>
    decreases items.len(),
{
    if items.len() == 0 {
        Seq::empty()
    } else {
        enc_item(items[0]) + enc_items(items.drop_first())
    }
}

/// A whole encoded list: the item count, then the encoded items.
pub open spec fn enc_list(items: Seq<Seq<u8>>) -> Seq<u8> {
    u32_le(items.len() as u32) + enc_items(items)
}

/// The list fits the wire format: the count and every item length fit in
/// a `u32`.
pub open spec fn list_valid(items: Seq<Seq<u8>>) -> bool {
    &&& items.len() < 0x1_0000_0000
    &&& forall|i: int| 0 <= i < items.len() ==> #[trigger] items[i].len() < 0x1_0000_0000
}

/// The spec-level decoder for `count` consecutive items: the items and the
/// remaining bytes, or nothing when the input is truncated.
pub open spec fn dec_items(s: Seq<u8>, count: nat) -> Option<(Seq<Seq<u8>>, Seq<u8>)>
    decreases count,
{
    if count == 0 {
        Some((Seq::empty(), s))
    } else if s.len() < 4 {
        None
    } else {
        let l = le_val(s.subrange(0, 4));
        if s.len() - 4 < l {
            None
        } else {
            match dec_items(s.skip(4 + l as int), (count - 1) as nat) {
                None => None,
                Some((rest, rem)) => Some((seq![s.subrange(4, 4 + l as int)] + rest, rem)),
            }
        }
    }
}

/// The spec-level decoder for a whole list.
pub open spec fn dec_list(s: Seq<u8>) -> Option<(Seq<Seq<u8>>, Seq<u8>)> {
    if s.len() < 4 {
        None
    } else {
        dec_items(s.skip(4), le_val(s.subrange(0, 4)))
    }
}

/// An entry of the deep view of a vector of byte vectors is the view of
/// the entry.
pub proof fn lemma_deep_entry(v: &Vec<Vec<u8>>, i: int)
    requires
        0 <= i < v@.len(),
    ensures
        v.deep_view()[i] == v@[i]@,
{
    assert(v@[i].deep_view() =~= v@[i]@);
}

/// Encoding one more item appends its encoding.
pub proof fn lemma_enc_items_push(items: Seq<Seq<u8>>, x: Seq<u8>)
    ensures
        enc_items(items.push(x)) == enc_items(items) + enc_item(x),
    decreases items.len(),
{
    if items.len() == 0 {
        assert(items.push(x).drop_first() =~= Seq::<Seq<u8>>::empty());
        assert(items.push(x)[0] == x);
        assert(enc_items(items) == Seq::<u8>::empty());
        assert(enc_items(items.push(x).drop_first()) == Seq::<u8>::empty());
        assert(enc_items(items.push(x)) =~= enc_items(items) + enc_item(x));
    } else {
        lemma_enc_items_push(items.drop_first(), x);
        assert(items.push(x).drop_first() =~= items.drop_first().push(x));
        assert(items.push(x)[0] == items[0]);
        assert(enc_items(items.push(x)) =~= enc_items(items) + enc_item(x));
    }
}

/// The item decoder recovers whatever the item encoder produced, and
/// leaves exactly the trailing bytes behind.
pub proof fn lemma_dec_enc_items(items: Seq<Seq<u8>>, rest: Seq<u8>)
    requires
        forall|i: int| 0 <= i < items.len() ==> #[trigger] items[i].len() < 0x1_0000_0000,
    ensures
        dec_items(enc_items(items) + rest, items.len() as nat) == Some((items, rest)),
    decreases items.len(),
{
    if items.len() == 0 {
        assert(enc_items(items) + rest =~= rest);
        assert(dec_items(rest, 0) == Some((Seq::<Seq<u8>>::empty(), rest)));
        assert(items =~= Seq::<Seq<u8>>::empty());
    } else {
        let head = items[0];
        let l = head.len() as int;
        let s = enc_items(items) + rest;
        let tail_enc = enc_items(items.drop_first()) + rest;
        assert(s =~= (u32_le(head.len() as u32) + head) + tail_enc);
        assert(s.subrange(0, 4) =~= u32_le(head.len() as u32));
        lemma_le_val_u32(head.len() as u32);
        assert(le_val(s.subrange(0, 4)) == head.len());
        assert(s.len() - 4 >= l);
        assert(s.subrange(4, 4 + l) =~= head);
        assert(s.skip(4 + l) =~= tail_enc);
        lemma_dec_enc_items(items.drop_first(), rest);
        assert(seq![head] + items.drop_first() =~= items);
    }
}

/// The list decoder recovers whatever the list encoder produced: the
/// round-trip law of the wire format, for any trailing bytes.
pub proof fn lemma_dec_enc_list(items: Seq<Seq<u8>>, rest: Seq<u8>)
    requires
        list_valid(items),
    ensures
        dec_list(enc_list(items) + rest) == Some((items, rest)),
{
    let s = enc_list(items) + rest;
    assert(s.subrange(0, 4) =~= u32_le(items.len() as u32));
    lemma_le_val_u32(items.len() as u32);
    assert(s.skip(4) =~= enc_items(items) + rest);
    lemma_dec_enc_items(items, rest);
}

/// Append the encoding of `list` to `out`.
pub fn encode_list(out: &mut Vec<u8>, list: &Vec<Vec<u8>>)
    requires
        list_valid(list.deep_view()),
    ensures
        final(out)@ == old(out)@ + enc_list(list.deep_view()),
{
    let ghost d = list.deep_view();
    push_u32_le(out, list.len() as u32);
    let mut j: usize = 0;
    proof {
        assert(d.take(0) =~= Seq::<Seq<u8>>::empty());
    }
    while j < list.len()
        invariant
            j <= list@.len(),
            d == list.deep_view(),
            list_valid(d),
            d.len() == list@.len(),
            forall|i: int| 0 <= i < d.len() ==> d[i] == #[trigger] list@[i]@,
            out@ == old(out)@ + u32_le(d.len() as u32) + enc_items(d.take(j as int)),
        decreases list@.len() - j,
    {
        let item: &Vec<u8> = &list[j];
        push_u32_le(out, item.len() as u32);
        push_all(out, item.as_slice());
        proof {
            lemma_enc_items_push(d.take(j as int), d[j as int]);
            assert(d.take(j + 1) =~= d.take(j as int).push(d[j as int]));
        }
        j += 1;
    }
    proof {
        assert(d.take(d.len() as int) =~= d);
        assert(old(out)@ + u32_le(d.len() as u32) + enc_items(d) =~= old(out)@ + enc_list(d));
    }
}

/// Decode a length-prefixed list starting at `pos`; on success the items
/// and the position just past them, on truncated or inconsistent input
/// nothing, exactly as the spec-level decoder says.
pub fn decode_list(input: &[u8], pos: usize) -> (r: Option<(Vec<Vec<u8>>, usize)>)
    requires
        pos <= input@.len(),
    ensures
        match r {
            Some(p) => {
                &&& pos <= p.1 <= input@.len()
                &&& dec_list(input@.skip(pos as int)) == Some(
                    (p.0.deep_view(), input@.skip(p.1 as int)),
                )
            },
            None => dec_list(input@.skip(pos as int)) is None,
        },
{
    let ghost s0 = input@.skip(pos as int);
    if input.len() - pos < 4 {
        return None;
    }
    let count_u32 = read_u32_le(input, pos);
    proof {
        assert(s0.subrange(0, 4) =~= input@.subrange(pos as int, pos + 4));
    }
    let count = count_u32 as usize;
    let ghost body = s0.skip(4);
    let mut cur: usize = pos + 4;
    let mut out: Vec<Vec<u8>> = Vec::new();
    let mut k: usize = 0;
    proof {
        assert(body =~= input@.skip(cur as int));
    }
    while k < count
        invariant
            k <= count,
            pos + 4 <= cur <= input@.len(),
            out@.len() == k,
            body == s0.skip(4),
            count == le_val(s0.subrange(0, 4)),
            s0 == input@.skip(pos as int),
            pos <= input@.len(),
            4 <= s0.len(),
            match dec_items(input@.skip(cur as int), (count - k) as nat) {
                None => dec_items(body, count as nat) is None,
                Some(p) => dec_items(body, count as nat) == Some(
                    (out.deep_view() + p.0, p.1),
                ),
            },
        decreases count - k,
    {
        let ghost scur = input@.skip(cur as int);
        if input.len() - cur < 4 {
            proof {
                assert(scur.len() < 4);
                assert(dec_items(scur, (count - k) as nat) is None);
            }
            return None;
        }
        let len_u32 = read_u32_le(input, cur);
        proof {
            assert(scur.subrange(0, 4) =~= input@.subrange(cur as int, cur + 4));
        }
        let l = len_u32 as usize;
        if input.len() - (cur + 4) < l {
            proof {
                assert(scur.len() - 4 < l);
                assert(dec_items(scur, (count - k) as nat) is None);
            }
            return None;
        }
        let item_slice = vstd::slice::slice_subrange(input, cur + 4, cur + 4 + l);
        let item = vstd::slice::slice_to_vec(item_slice);
        let ghost out_d = out.deep_view();
        let ghost item_v = item@;
        proof {
            assert(item@ =~= scur.subrange(4, 4 + l as int));
            assert(scur.skip(4 + l as int) =~= input@.skip(cur + 4 + l));
        }
        out.push(item);
        cur = cur + 4 + l;
        k += 1;
        proof {
            assert(out@[out@.len() - 1].deep_view() =~= item_v);
            assert(out.deep_view() =~= out_d.push(item_v));
            match dec_items(input@.skip(cur as int), (count - k) as nat) {
                None => {},
                Some(p) => {
                    assert(out_d + (seq![item_v] + p.0) =~= out.deep_view() + p.0);
                },
            }
        }
    }
    proof {
        assert(dec_items(input@.skip(cur as int), 0) == Some(
            (Seq::<Seq<u8>>::empty(), input@.skip(cur as int)),
        ));
        assert(out.deep_view() + Seq::<Seq<u8>>::empty() =~= out.deep_view());
    }
    Some((out, cur))
}

} // verus!
