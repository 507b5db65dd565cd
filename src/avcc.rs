//! H.264 NAL units in AVCC form: each unit preceded by its byte length as a
//! 4-byte big-endian integer, and the AVC decoder configuration record.

use vstd::prelude::*;
use vstd::slice::{slice_subrange, slice_to_vec};
use crate::endian::{
    be_u16, be_u32, u32_of_be, push_all, push_be_u16, push_be_u32, read_be_u32,
    lemma_be_u32_round_trip,
};

verus! {

/// The `nal_unit_type` of a NAL unit: the low five bits of its first byte.
pub open spec fn nal_type(nal: Seq<u8>) -> u8 {
    nal[0] & 0x1f
}

/// NAL units laid end to end, each preceded by its 4-byte big-endian length.
pub open spec fn avcc_frame(nals: Seq<Seq<u8>>) -> Seq<u8>
    decreases nals.len(),
{
    if nals.len() == 0 {
        Seq::empty()
    } else {
        be_u32(nals[0].len() as u32) + nals[0] + avcc_frame(nals.drop_first())
    }
}

/// Reads a message as `length || bytes` repeatedly from the front. `None` when a
/// length field is cut short or points past the end.
pub open spec fn avcc_split(b: Seq<u8>) -> Option<Seq<Seq<u8>>>
    decreases b.len(),
{
    if b.len() == 0 {
        Some(Seq::empty())
    } else if b.len() < 4 {
        None
    } else {
        let n = u32_of_be(b[0], b[1], b[2], b[3]) as int;
        if 4 + n > b.len() {
            None
        } else {
            match avcc_split(b.subrange(4 + n, b.len() as int)) {
                Some(rest) => Some(seq![b.subrange(4, 4 + n)] + rest),
                None => None,
            }
        }
    }
}

/// The sum of the lengths of the units.
pub open spec fn total_len(nals: Seq<Seq<u8>>) -> nat
    decreases nals.len(),
{
    if nals.len() == 0 {
        0
    } else {
        nals[0].len() + total_len(nals.drop_first())
    }
}

/// Every unit's length fits the 4-byte length field.
#[verifier::opaque]
pub open spec fn lengths_fit(nals: Seq<Seq<u8>>) -> bool {
    forall|i: int| 0 <= i < nals.len() ==> #[trigger] nals[i].len() <= u32::MAX
}

pub proof fn lemma_avcc_frame_push(nals: Seq<Seq<u8>>, x: Seq<u8>)
    ensures
        avcc_frame(nals.push(x)) == avcc_frame(nals) + be_u32(x.len() as u32) + x,
    decreases nals.len(),
{
    if nals.len() == 0 {
        let s = nals.push(x);
        assert(s[0] == x);
        assert(s.drop_first() =~= Seq::<Seq<u8>>::empty());
        assert(avcc_frame(s.drop_first()) == Seq::<u8>::empty());
        assert(avcc_frame(nals) == Seq::<u8>::empty());
        assert(avcc_frame(s) =~= avcc_frame(nals) + be_u32(x.len() as u32) + x);
    } else {
        lemma_avcc_frame_push(nals.drop_first(), x);
        assert(nals.push(x).drop_first() =~= nals.drop_first().push(x));
        assert(avcc_frame(nals.push(x)) =~= avcc_frame(nals) + be_u32(x.len() as u32) + x);
    }
}

/// Framing two lists of units one after the other is framing their concatenation.
pub proof fn lemma_avcc_frame_concat(a: Seq<Seq<u8>>, b: Seq<Seq<u8>>)
    ensures
        avcc_frame(a + b) == avcc_frame(a) + avcc_frame(b),
    decreases a.len(),
{
    if a.len() == 0 {
        assert(a + b =~= b);
        assert(avcc_frame(a) + avcc_frame(b) =~= avcc_frame(b));
    } else {
        lemma_avcc_frame_concat(a.drop_first(), b);
        assert((a + b).drop_first() =~= a.drop_first() + b);
        assert(avcc_frame(a + b) =~= avcc_frame(a) + avcc_frame(b));
    }
}

proof fn lemma_split_cons(x: Seq<u8>, tail: Seq<u8>)
    requires
        x.len() <= u32::MAX,
    ensures
        avcc_split(be_u32(x.len() as u32) + x + tail) == match avcc_split(tail) {
            Some(r) => Some(seq![x] + r),
            None => None,
        },
{
    let l = x.len() as u32;
    let b = be_u32(l) + x + tail;
    lemma_be_u32_round_trip(l);
    assert(b[0] == be_u32(l)[0] && b[1] == be_u32(l)[1] && b[2] == be_u32(l)[2] && b[3]
        == be_u32(l)[3]);
    assert(u32_of_be(b[0], b[1], b[2], b[3]) == l);
    assert(b.subrange(4 + x.len() as int, b.len() as int) =~= tail);
    assert(b.subrange(4, 4 + x.len() as int) =~= x);
}

proof fn lemma_avcc_frame_len(nals: Seq<Seq<u8>>)
    ensures
        total_len(nals) + 4 * nals.len() == avcc_frame(nals).len(),
    decreases nals.len(),
{
    if nals.len() > 0 {
        lemma_avcc_frame_len(nals.drop_first());
    }
}

proof fn lemma_avcc_split_frame(nals: Seq<Seq<u8>>)
    requires
        lengths_fit(nals),
    ensures
        avcc_split(avcc_frame(nals)) == Some(nals),
    decreases nals.len(),
{
    if nals.len() > 0 {
        let rest = nals.drop_first();
        let x = nals[0];
        assert(lengths_fit(rest) && x.len() <= u32::MAX) by {
            reveal(lengths_fit);
            assert forall|i: int| 0 <= i < rest.len() implies #[trigger] rest[i].len()
                <= u32::MAX by {
                assert(rest[i] == nals[i + 1]);
            }
        }
        lemma_avcc_split_frame(rest);
        let tail = avcc_frame(rest);
        assert(avcc_frame(nals) == be_u32(x.len() as u32) + x + tail);
        lemma_split_cons(x, tail);
        assert(seq![x] + rest =~= nals);
    } else {
        assert(avcc_frame(nals) =~= Seq::<u8>::empty());
    }
}

/// AVCC framing round trip: reading a framed message as `u32_be length || bytes`
/// consumes it whole and gives back the units, and the units' lengths add up to
/// the message length less four bytes per unit.
pub proof fn lemma_avcc_round_trip(nals: Seq<Seq<u8>>)
    requires
        lengths_fit(nals),
    ensures
        avcc_split(avcc_frame(nals)) == Some(nals),
        total_len(nals) + 4 * nals.len() == avcc_frame(nals).len(),
{
    lemma_avcc_split_frame(nals);
    lemma_avcc_frame_len(nals);
}

/// How many leading bytes a raw encoder NAL carries before its payload: a 4- or
/// 3-byte Annex B start code, or else a 4-byte length field that is positive and
/// points within the buffer.
pub open spec fn leading_len(b: Seq<u8>) -> int {
    if b.len() >= 4 && b[0] == 0 && b[1] == 0 && b[2] == 0 && b[3] == 1 {
        4
    } else if b.len() >= 3 && b[0] == 0 && b[1] == 0 && b[2] == 1 {
        3
    } else if b.len() >= 4 && u32_of_be(b[0], b[1], b[2], b[3]) > 0 && u32_of_be(
        b[0],
        b[1],
        b[2],
        b[3],
    ) + 4 <= b.len() {
        4
    } else {
        0
    }
}

/// The payload of a raw encoder NAL, or `None` when nothing is left of it.
pub open spec fn normalized(b: Seq<u8>) -> Option<Seq<u8>> {
    if b.len() == 0 || leading_len(b) >= b.len() {
        None
    } else {
        Some(b.subrange(leading_len(b), b.len() as int))
    }
}

/// Strips a start code or a length prefix from a NAL as the encoder hands it out.
pub fn normalize_nal(nal: &[u8]) -> (r: Option<Vec<u8>>)
    ensures
        r matches Some(v) ==> normalized(nal@) == Some(v@),
        r is None ==> normalized(nal@) is None,
{
    let len = nal.len();
    if len == 0 {
        return None;
    }
    let mut offset: usize = if len >= 4 && nal[0] == 0 && nal[1] == 0 && nal[2] == 0 && nal[3]
        == 1 {
        4
    } else if len >= 3 && nal[0] == 0 && nal[1] == 0 && nal[2] == 1 {
        3
    } else {
        0
    };
    if offset == 0 && len >= 4 {
        let declared = read_be_u32(nal, 0) as u64;
        if declared > 0 && declared + 4 <= len as u64 {
            offset = 4;
        }
    }
    assert(offset == leading_len(nal@));
    if offset >= len {
        None
    } else {
        Some(slice_to_vec(slice_subrange(nal, offset, len)))
    }
}

/// Frames the units as one AVCC message.
pub fn nals_to_avcc(nals: &[Vec<u8>]) -> (r: Vec<u8>)
    requires
        lengths_fit(nals.deep_view()),
    ensures
        r@ == avcc_frame(nals.deep_view()),
{
    let ghost dv = nals.deep_view();
    let mut out: Vec<u8> = Vec::new();
    let mut i: usize = 0;
    while i < nals.len()
        invariant
            dv == nals.deep_view(),
            lengths_fit(dv),
            i <= nals@.len(),
            out@ == avcc_frame(dv.subrange(0, i as int)),
        decreases nals@.len() - i,
    {
        let nal = &nals[i];
        assert(nal@ == dv[i as int]);
        assert(dv[i as int].len() <= u32::MAX) by {
            reveal(lengths_fit);
        }
        let len = nal.len() as u32;
        push_be_u32(&mut out, len);
        push_all(&mut out, nal.as_slice());
        proof {
            lemma_avcc_frame_push(dv.subrange(0, i as int), dv[i as int]);
            assert(dv.subrange(0, i + 1) =~= dv.subrange(0, i as int).push(dv[i as int]));
        }
        i = i + 1;
    }
    assert(dv.subrange(0, nals@.len() as int) =~= dv);
    out
}

/// The index of the last unit of the given type among the first `n`, if any.
pub open spec fn last_of_type(nals: Seq<Seq<u8>>, t: u8, n: int) -> Option<int>
    decreases n,
{
    if n <= 0 {
        None
    } else if nals[n - 1].len() > 0 && nal_type(nals[n - 1]) == t {
        Some(n - 1)
    } else {
        last_of_type(nals, t, n - 1)
    }
}

/// The AVC decoder configuration record for one SPS and one PPS.
pub open spec fn avc_record(sps: Seq<u8>, pps: Seq<u8>) -> Seq<u8> {
    seq![1u8, sps[1], sps[2], sps[3], 0xFFu8, 0xE1u8] + be_u16(sps.len() as u16) + sps + seq![1u8]
        + be_u16(pps.len() as u16) + pps
}

/// The record built from the last SPS (type 7) and the last PPS (type 8) among
/// the units: `None` when one is missing, when the SPS is shorter than four
/// bytes, or when either is too long for its 2-byte length field.
pub open spec fn avcc_record_of(nals: Seq<Seq<u8>>) -> Option<Seq<u8>> {
    match (last_of_type(nals, 7, nals.len() as int), last_of_type(nals, 8, nals.len() as int)) {
        (Some(s), Some(p)) => {
            let sps = nals[s];
            let pps = nals[p];
            if sps.len() < 4 || sps.len() > u16::MAX || pps.len() > u16::MAX {
                None
            } else {
                Some(avc_record(sps, pps))
            }
        },
        _ => None,
    }
}

proof fn lemma_last_of_type_bounds(nals: Seq<Seq<u8>>, t: u8, n: int)
    ensures
        last_of_type(nals, t, n) matches Some(k) ==> 0 <= k < n && nals[k].len() > 0,
    decreases n,
{
    if n > 0 {
        lemma_last_of_type_bounds(nals, t, n - 1);
    }
}

pub proof fn lemma_record_len(nals: Seq<Seq<u8>>)
    ensures
        avcc_record_of(nals) matches Some(r) ==> r.len() <= 11 + 2 * 0xffff,
{
    lemma_last_of_type_bounds(nals, 7, nals.len() as int);
    lemma_last_of_type_bounds(nals, 8, nals.len() as int);
}

/// Builds the AVC decoder configuration record from the parameter sets among
/// the units.
pub fn build_avcc_from_nals(nals: &[Vec<u8>]) -> (r: Option<Vec<u8>>)
    ensures
        r matches Some(v) ==> avcc_record_of(nals.deep_view()) == Some(v@),
        r is None ==> avcc_record_of(nals.deep_view()) is None,
{
    let ghost dv = nals.deep_view();
    let mut sps: Option<usize> = None;
    let mut pps: Option<usize> = None;
    let mut i: usize = 0;
    while i < nals.len()
        invariant
            dv == nals.deep_view(),
            i <= nals@.len(),
            sps == (match last_of_type(dv, 7, i as int) {
                Some(k) => Some(k as usize),
                None => None::<usize>,
            }),
            pps == (match last_of_type(dv, 8, i as int) {
                Some(k) => Some(k as usize),
                None => None::<usize>,
            }),
        decreases nals@.len() - i,
    {
        proof {
            lemma_last_of_type_bounds(dv, 7, i as int);
            lemma_last_of_type_bounds(dv, 8, i as int);
        }
        let nal = &nals[i];
        assert(nal@ == dv[i as int]);
        if nal.len() > 0 {
            let t = nal[0] & 0x1f;
            if t == 7 {
                sps = Some(i);
            } else if t == 8 {
                pps = Some(i);
            }
        }
        i = i + 1;
    }
    proof {
        lemma_last_of_type_bounds(dv, 7, i as int);
        lemma_last_of_type_bounds(dv, 8, i as int);
    }
    let (s, p) = match (sps, pps) {
        (Some(s), Some(p)) => (s, p),
        _ => return None,
    };
    let sps = &nals[s];
    let pps = &nals[p];
    assert(sps@ == dv[s as int] && pps@ == dv[p as int]);
    if sps.len() < 4 || sps.len() > 0xffff || pps.len() > 0xffff {
        return None;
    }
    let mut avcc: Vec<u8> = Vec::new();
    avcc.push(1);
    avcc.push(sps[1]);
    avcc.push(sps[2]);
    avcc.push(sps[3]);
    avcc.push(0xFF);
    avcc.push(0xE1);
    push_be_u16(&mut avcc, sps.len() as u16);
    push_all(&mut avcc, sps.as_slice());
    avcc.push(1);
    push_be_u16(&mut avcc, pps.len() as u16);
    push_all(&mut avcc, pps.as_slice());
    assert(avcc@ =~= avc_record(sps@, pps@));
    Some(avcc)
}

} // verus!
