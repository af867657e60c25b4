//! The detector on another machine. It is sent an encoded image and
//! answers with its detections:
//!
//! ```text
//! answer    = count:u32  detection ...
//! detection = x1:u32  y1:u32  x2:u32  y2:u32  probability:u32  class:u32  label:text
//! text      = length:u32  bytes in UTF-8
//! ```
//!
//! Numbers are little-endian; a coordinate is written with 2^31 added to
//! it. The identifiers that a caller may attach to a detection are not
//! part of the answer.

use crate::bq::{
    lemma_parse_text_at, parse_text, parse_u32, put_text, put_u32, read_text, read_u32, text_bytes,
};
use crate::error::Failure;
use crate::geometry::{XYXYc, XYXY};
use vstd::bytes::spec_u32_to_le_bytes;
use vstd::prelude::*;
use vstd::utf8::encode_utf8;

verus! {

/// A detection as the answer carries it: the box and the label.
pub struct Detection {
    pub xyxy: XYXY,
    pub label: Seq<char>,
}

/// What the answer carries of each detection of a list.
pub open spec fn carried(list: Seq<XYXYc>) -> Seq<Detection> {
    Seq::new(list.len(), |k: int| Detection { xyxy: list[k].xyxy, label: list[k].label@ })
}

/// Every detection of the list is without identifiers.
pub open spec fn bare(list: Seq<XYXYc>) -> bool {
    forall|k: int|
        0 <= k < list.len() ==> (#[trigger] list[k]).source_id is None && list[k].track_id is None
}

/// A coordinate as it is written: with 2^31 added.
pub open spec fn shifted(coordinate: i32) -> u32 {
    (coordinate + 0x8000_0000) as u32
}

/// The bytes of one detection.
pub open spec fn detection_bytes(detection: Detection) -> Seq<u8> {
    spec_u32_to_le_bytes(shifted(detection.xyxy.x1)) + spec_u32_to_le_bytes(
        shifted(detection.xyxy.y1),
    ) + spec_u32_to_le_bytes(shifted(detection.xyxy.x2)) + spec_u32_to_le_bytes(
        shifted(detection.xyxy.y2),
    ) + spec_u32_to_le_bytes(detection.xyxy.prob) + spec_u32_to_le_bytes(
        detection.xyxy.class_id as u32,
    ) + text_bytes(detection.label)
}

/// The bytes of some detections, one after the other.
pub open spec fn detections_bytes(list: Seq<Detection>) -> Seq<u8>
    decreases list.len(),
{
    if list.len() == 0 {
        Seq::empty()
    } else {
        detections_bytes(list.drop_last()) + detection_bytes(list.last())
    }
}

/// The answer that carries the detections `list`.
pub open spec fn answer_bytes(list: Seq<Detection>) -> Seq<u8> {
    spec_u32_to_le_bytes(list.len() as u32) + detections_bytes(list)
}

/// The answer can be written: every box is a box, and count and labels
/// are short enough for their length fields.
pub open spec fn sendable(list: Seq<Detection>) -> bool {
    &&& list.len() <= u32::MAX
    &&& forall|k: int|
        0 <= k < list.len() ==> (#[trigger] list[k]).xyxy.valid() && encode_utf8(list[k].label).len()
            <= u32::MAX
}

/// The detection at `at`, and where it ends; none where the bytes end
/// before it does, its class is no class index, its label is not UTF-8 or
/// its box is no box.
pub open spec fn parse_detection(bytes: Seq<u8>, at: int) -> Option<(Detection, int)> {
    match (
        parse_u32(bytes, at),
        parse_u32(bytes, at + 4),
        parse_u32(bytes, at + 8),
        parse_u32(bytes, at + 12),
        parse_u32(bytes, at + 16),
        parse_u32(bytes, at + 20),
        parse_text(bytes, at + 24),
    ) {
        (
            Some((x1, _)),
            Some((y1, _)),
            Some((x2, _)),
            Some((y2, _)),
            Some((prob, _)),
            Some((class, _)),
            Some((label, end)),
        ) => {
            let xyxy = XYXY {
                x1: (x1 - 0x8000_0000) as i32,
                y1: (y1 - 0x8000_0000) as i32,
                x2: (x2 - 0x8000_0000) as i32,
                y2: (y2 - 0x8000_0000) as i32,
                prob,
                class_id: class as u16,
            };
            if class <= u16::MAX && xyxy.valid() {
                Some((Detection { xyxy, label }, end))
            } else {
                None
            }
        },
        _ => None,
    }
}

/// The `count` detections from `at` on, and where they end.
pub open spec fn parse_detections(bytes: Seq<u8>, at: int, count: nat) -> Option<
    (Seq<Detection>, int),
>
    decreases count,
{
    if count == 0 {
        Some((Seq::empty(), at))
    } else {
        match parse_detections(bytes, at, (count - 1) as nat) {
            Some((list, next)) => match parse_detection(bytes, next) {
                Some((detection, end)) => Some((list.push(detection), end)),
                None => None,
            },
            None => None,
        }
    }
}

/// The detections that the answer `bytes` carries, if the bytes are an
/// answer and nothing else.
pub open spec fn parse_answer(bytes: Seq<u8>) -> Option<Seq<Detection>> {
    match parse_u32(bytes, 0) {
        Some((count, start)) => match parse_detections(bytes, start, count as nat) {
            Some((list, end)) => if end == bytes.len() {
                Some(list)
            } else {
                None
            },
            None => None,
        },
        None => None,
    }
}

proof fn lemma_detections_step(list: Seq<Detection>, n: int)
    requires
        0 <= n < list.len(),
    ensures
        detections_bytes(list.take(n + 1)) == detections_bytes(list.take(n)) + detection_bytes(
            list[n],
        ),
{
    assert(list.take(n + 1).drop_last() =~= list.take(n));
    assert(list.take(n + 1).last() == list[n]);
}

proof fn lemma_parse_detections_fails(bytes: Seq<u8>, at: int, failed: nat, count: nat)
    requires
        failed <= count,
        parse_detections(bytes, at, failed) is None,
    ensures
        parse_detections(bytes, at, count) is None,
    decreases count,
{
    if failed < count {
        lemma_parse_detections_fails(bytes, at, failed, (count - 1) as nat);
    }
}

fn put_coordinate(out: &mut Vec<u8>, coordinate: i32)
    ensures
        final(out)@ == old(out)@ + spec_u32_to_le_bytes(shifted(coordinate)),
{
    put_u32(out, (coordinate as i64 + 0x8000_0000) as u32);
}

/// Writes the answer that carries the detections `list`, or nothing where
/// a box is malformed or the count or a label is too long for its length
/// field.
pub fn encode_answer(list: &Vec<XYXYc>) -> (answer: Option<Vec<u8>>)
    ensures
        answer is Some <==> sendable(carried(list@)),
        answer matches Some(bytes) ==> bytes@ == answer_bytes(carried(list@)),
{
    let ghost all = carried(list@);
    if list.len() > 0xffff_ffff {
        return None;
    }
    let mut out: Vec<u8> = Vec::new();
    put_u32(&mut out, list.len() as u32);
    let ghost head = out@;
    let mut k: usize = 0;
    assert(all.take(0) =~= Seq::empty());
    while k < list.len()
        invariant
            k <= list.len(),
            all == carried(list@),
            out@ == head + detections_bytes(all.take(k as int)),
            forall|j: int|
                0 <= j < k ==> (#[trigger] all[j]).xyxy.valid() && encode_utf8(all[j].label).len()
                    <= u32::MAX,
        decreases list.len() - k,
    {
        proof {
            lemma_detections_step(all, k as int);
        }
        let found = &list[k].xyxy;
        if found.x1 > found.x2 || found.y1 > found.y2 || found.prob > crate::geometry::SCORE_ONE {
            assert(!all[k as int].xyxy.valid());
            return None;
        }
        let ghost before = out@;
        put_coordinate(&mut out, found.x1);
        put_coordinate(&mut out, found.y1);
        put_coordinate(&mut out, found.x2);
        put_coordinate(&mut out, found.y2);
        put_u32(&mut out, found.prob);
        put_u32(&mut out, found.class_id as u32);
        if !put_text(&mut out, list[k].label.as_str()) {
            assert(encode_utf8(all[k as int].label).len() > u32::MAX);
            return None;
        }
        assert(out@ =~= before + detection_bytes(all[k as int]));
        assert(out@ =~= head + detections_bytes(all.take(k + 1)));
        k += 1;
    }
    assert(all.take(k as int) =~= all);
    Some(out)
}

fn read_detection(bytes: &[u8], at: usize) -> (read: Option<(XYXYc, usize)>)
    requires
        at <= bytes.len(),
    ensures
        match read {
            Some((found, end)) => parse_detection(bytes@, at as int) == Some(
                (Detection { xyxy: found.xyxy, label: found.label@ }, end as int),
            ) && end <= bytes.len() && found.source_id is None && found.track_id is None,
            None => parse_detection(bytes@, at as int) is None,
        },
{
    let (x1, a) = match read_u32(bytes, at) {
        Some(read) => read,
        None => return None,
    };
    let (y1, b) = match read_u32(bytes, a) {
        Some(read) => read,
        None => return None,
    };
    let (x2, c) = match read_u32(bytes, b) {
        Some(read) => read,
        None => return None,
    };
    let (y2, d) = match read_u32(bytes, c) {
        Some(read) => read,
        None => return None,
    };
    let (prob, e) = match read_u32(bytes, d) {
        Some(read) => read,
        None => return None,
    };
    let (class, f) = match read_u32(bytes, e) {
        Some(read) => read,
        None => return None,
    };
    let (label, end) = match read_text(bytes, f) {
        Some(read) => read,
        None => return None,
    };
    if class > 0xffff {
        return None;
    }
    let xyxy = XYXY {
        x1: (x1 as i64 - 0x8000_0000) as i32,
        y1: (y1 as i64 - 0x8000_0000) as i32,
        x2: (x2 as i64 - 0x8000_0000) as i32,
        y2: (y2 as i64 - 0x8000_0000) as i32,
        prob,
        class_id: class as u16,
    };
    if xyxy.x1 > xyxy.x2 || xyxy.y1 > xyxy.y2 || xyxy.prob > crate::geometry::SCORE_ONE {
        return None;
    }
    Some((XYXYc { xyxy, label, source_id: None, track_id: None }, end))
}

/// Reads the answer of a remote detector. Fails with `ProtocolFailure`
/// where the bytes are not an answer: they end early or go on after the
/// last detection, a label is not UTF-8, a class is no class index or a
/// box is malformed.
pub fn decode_answer(bytes: &[u8]) -> (read: Result<Vec<XYXYc>, Failure>)
    ensures
        match read {
            Ok(list) => parse_answer(bytes@) == Some(carried(list@)) && bare(list@),
            Err(failure) => failure == Failure::ProtocolFailure && parse_answer(bytes@) is None,
        },
{
    let (count, start) = match read_u32(bytes, 0) {
        Some(read) => read,
        None => return Err(Failure::ProtocolFailure),
    };
    let mut list: Vec<XYXYc> = Vec::new();
    let mut next: usize = start;
    let mut i: u32 = 0;
    assert(carried(list@) =~= Seq::empty());
    while i < count
        invariant
            i <= count,
            next <= bytes.len(),
            parse_u32(bytes@, 0) == Some((count, start as int)),
            parse_detections(bytes@, start as int, i as nat) == Some((carried(list@), next as int)),
            bare(list@),
        decreases count - i,
    {
        let ghost before = carried(list@);
        match read_detection(bytes, next) {
            None => {
                proof {
                    assert(parse_detections(bytes@, start as int, (i + 1) as nat) is None);
                    lemma_parse_detections_fails(
                        bytes@,
                        start as int,
                        (i + 1) as nat,
                        count as nat,
                    );
                }
                return Err(Failure::ProtocolFailure);
            },
            Some((found, end)) => {
                list.push(found);
                next = end;
                assert(carried(list@) =~= before.push(
                    Detection { xyxy: found.xyxy, label: found.label@ },
                ));
            },
        }
        i += 1;
    }
    if next != bytes.len() {
        return Err(Failure::ProtocolFailure);
    }
    Ok(list)
}

/// A detection that stands at `at` is read there.
proof fn lemma_parse_detection_at(bytes: Seq<u8>, at: int, detection: Detection)
    requires
        0 <= at,
        at + detection_bytes(detection).len() <= bytes.len(),
        bytes.subrange(at, at + detection_bytes(detection).len()) == detection_bytes(detection),
        detection.xyxy.valid(),
        encode_utf8(detection.label).len() <= u32::MAX,
    ensures
        parse_detection(bytes, at) == Some((detection, at + detection_bytes(detection).len())),
{
    vstd::bytes::lemma_auto_spec_u32_to_from_le_bytes();
    let whole = detection_bytes(detection);
    let b = detection.xyxy;
    assert(bytes.subrange(at, at + 4) =~= spec_u32_to_le_bytes(shifted(b.x1))) by {
        assert(bytes.subrange(at, at + 4) =~= whole.subrange(0, 4));
    }
    assert(bytes.subrange(at + 4, at + 8) =~= spec_u32_to_le_bytes(shifted(b.y1))) by {
        assert(bytes.subrange(at + 4, at + 8) =~= whole.subrange(4, 8));
    }
    assert(bytes.subrange(at + 8, at + 12) =~= spec_u32_to_le_bytes(shifted(b.x2))) by {
        assert(bytes.subrange(at + 8, at + 12) =~= whole.subrange(8, 12));
    }
    assert(bytes.subrange(at + 12, at + 16) =~= spec_u32_to_le_bytes(shifted(b.y2))) by {
        assert(bytes.subrange(at + 12, at + 16) =~= whole.subrange(12, 16));
    }
    assert(bytes.subrange(at + 16, at + 20) =~= spec_u32_to_le_bytes(b.prob)) by {
        assert(bytes.subrange(at + 16, at + 20) =~= whole.subrange(16, 20));
    }
    assert(bytes.subrange(at + 20, at + 24) =~= spec_u32_to_le_bytes(b.class_id as u32)) by {
        assert(bytes.subrange(at + 20, at + 24) =~= whole.subrange(20, 24));
    }
    assert(bytes.subrange(at + 24, at + 24 + text_bytes(detection.label).len()) =~= text_bytes(
        detection.label,
    )) by {
        assert(bytes.subrange(at + 24, at + whole.len()) =~= whole.subrange(
            24,
            whole.len() as int,
        ));
    }
    lemma_parse_text_at(bytes, at + 24, detection.label);
}

/// Detections that stand at `at` one after the other are read there.
proof fn lemma_parse_detections_at(bytes: Seq<u8>, at: int, list: Seq<Detection>)
    requires
        0 <= at,
        at + detections_bytes(list).len() <= bytes.len(),
        bytes.subrange(at, at + detections_bytes(list).len()) == detections_bytes(list),
        sendable(list),
    ensures
        parse_detections(bytes, at, list.len()) == Some((list, at + detections_bytes(list).len())),
    decreases list.len(),
{
    if list.len() > 0 {
        let first = list.drop_last();
        let last = list.last();
        let whole = detections_bytes(list);
        let split = detections_bytes(first).len() as int;
        assert(bytes.subrange(at, at + split) =~= whole.subrange(0, split));
        assert(whole.subrange(0, split) =~= detections_bytes(first));
        assert forall|k: int| 0 <= k < first.len() implies (#[trigger] first[k]).xyxy.valid()
            && encode_utf8(first[k].label).len() <= u32::MAX by {
            assert(first[k] == list[k]);
        }
        lemma_parse_detections_at(bytes, at, first);
        assert(bytes.subrange(at + split, at + split + detection_bytes(last).len())
            =~= whole.subrange(split, whole.len() as int));
        assert(whole.subrange(split, whole.len() as int) =~= detection_bytes(last));
        lemma_parse_detection_at(bytes, at + split, last);
        assert(first.push(last) =~= list);
    }
}

/// Reading an answer undoes writing it: the detections come back as they
/// were sent, box for box and label for label.
pub proof fn law_decode_inverts_encode(list: Seq<Detection>)
    requires
        sendable(list),
    ensures
        parse_answer(answer_bytes(list)) == Some(list),
{
    vstd::bytes::lemma_auto_spec_u32_to_from_le_bytes();
    let bytes = answer_bytes(list);
    assert(bytes.subrange(0, 4) =~= spec_u32_to_le_bytes(list.len() as u32));
    assert(bytes.subrange(4, bytes.len() as int) =~= detections_bytes(list));
    lemma_parse_detections_at(bytes, 4, list);
}

/// Every detection that is read from an answer has a box that is a box.
pub proof fn law_decoded_boxes_are_valid(bytes: Seq<u8>, list: Seq<Detection>)
    requires
        parse_answer(bytes) == Some(list),
    ensures
        forall|k: int| 0 <= k < list.len() ==> (#[trigger] list[k]).xyxy.valid(),
{
    let count = match parse_u32(bytes, 0) {
        Some((count, _)) => count as nat,
        None => 0,
    };
    lemma_parsed_boxes_are_valid(bytes, 4, count);
}

proof fn lemma_parsed_boxes_are_valid(bytes: Seq<u8>, at: int, count: nat)
    ensures
        parse_detections(bytes, at, count) matches Some((list, _)) ==> forall|k: int|
            0 <= k < list.len() ==> (#[trigger] list[k]).xyxy.valid(),
    decreases count,
{
    if count > 0 {
        lemma_parsed_boxes_are_valid(bytes, at, (count - 1) as nat);
    }
}

} // verus!
