//! The model bundle: one file that holds the description of a model and,
//! after it, the model's graph.
//!
//! ```text
//! bundle   = format:u32  metadata-length:u32  metadata  graph-length:u64  graph
//! metadata = name:text  description:text  version:u32  count:u32  label:text ...
//!            input-width:u32  input-height:u32  confidence:u32  nms:u32
//!            classes:u32  masks:u32  task:u8
//! text     = length:u32  bytes in UTF-8
//! ```
//!
//! Numbers are little-endian. `task` is 0 for detection, 1 for
//! classification and 2 for segmentation.

use crate::descriptor::{texts_of, AIView, Task, AI};
use crate::error::Failure;
use vstd::bytes::{
    spec_u32_from_le_bytes, spec_u32_to_le_bytes, spec_u64_from_le_bytes, spec_u64_to_le_bytes,
    u32_from_le_bytes, u32_to_le_bytes, u64_from_le_bytes, u64_to_le_bytes,
};
use vstd::prelude::*;
use vstd::slice::{slice_subrange, slice_to_vec};
use vstd::utf8::{decode_utf8, encode_utf8, valid_utf8};

verus! {

/// The format that this library writes and reads.
pub const FORMAT_VERSION: u32 = 1;

/// The bytes of a text: its length in bytes, then its UTF-8 encoding.
pub open spec fn text_bytes(text: Seq<char>) -> Seq<u8> {
    spec_u32_to_le_bytes(encode_utf8(text).len() as u32) + encode_utf8(text)
}

/// The bytes of some texts, one after the other.
pub open spec fn texts_bytes(texts: Seq<Seq<char>>) -> Seq<u8>
    decreases texts.len(),
{
    if texts.len() == 0 {
        Seq::empty()
    } else {
        texts_bytes(texts.drop_last()) + text_bytes(texts.last())
    }
}

/// The byte that stands for a task.
pub open spec fn task_byte(task: Task) -> u8 {
    match task {
        Task::Detect => 0,
        Task::Classify => 1,
        Task::Segment => 2,
    }
}

/// The numbers that end the metadata.
pub open spec fn numbers_bytes(ai: AIView) -> Seq<u8> {
    spec_u32_to_le_bytes(ai.input_width) + spec_u32_to_le_bytes(ai.input_height)
        + spec_u32_to_le_bytes(ai.confidence_threshold) + spec_u32_to_le_bytes(ai.nms_threshold)
        + spec_u32_to_le_bytes(ai.num_classes) + spec_u32_to_le_bytes(ai.num_masks)
        + seq![task_byte(ai.task)]
}

/// The metadata of a bundle for the description `ai`.
pub open spec fn metadata_bytes(ai: AIView) -> Seq<u8> {
    text_bytes(ai.name) + text_bytes(ai.description) + spec_u32_to_le_bytes(ai.version)
        + spec_u32_to_le_bytes(ai.classes.len() as u32) + texts_bytes(ai.classes) + numbers_bytes(
        ai,
    )
}

/// The bundle for the description `ai` and the graph `graph`.
pub open spec fn bundle_bytes(ai: AIView, graph: Seq<u8>) -> Seq<u8> {
    spec_u32_to_le_bytes(FORMAT_VERSION) + spec_u32_to_le_bytes(metadata_bytes(ai).len() as u32)
        + metadata_bytes(ai) + spec_u64_to_le_bytes(graph.len() as u64) + graph
}

/// The description can be written: it is consistent, and its metadata is
/// short enough for the length field.
pub open spec fn writable(ai: AIView) -> bool {
    ai.sane() && metadata_bytes(ai).len() <= u32::MAX
}

/// The number at `at`, and where it ends.
pub open spec fn parse_u32(bytes: Seq<u8>, at: int) -> Option<(u32, int)> {
    if 0 <= at && at + 4 <= bytes.len() {
        Some((spec_u32_from_le_bytes(bytes.subrange(at, at + 4)), at + 4))
    } else {
        None
    }
}

/// The text at `at`, and where it ends.
pub open spec fn parse_text(bytes: Seq<u8>, at: int) -> Option<(Seq<char>, int)> {
    match parse_u32(bytes, at) {
        Some((len, start)) => if start + len <= bytes.len() && valid_utf8(
            bytes.subrange(start, start + len),
        ) {
            Some((decode_utf8(bytes.subrange(start, start + len)), start + len))
        } else {
            None
        },
        None => None,
    }
}

/// The `count` texts from `at` on, and where they end.
pub open spec fn parse_texts(bytes: Seq<u8>, at: int, count: nat) -> Option<(Seq<Seq<char>>, int)>
    decreases count,
{
    if count == 0 {
        Some((Seq::empty(), at))
    } else {
        match parse_texts(bytes, at, (count - 1) as nat) {
            Some((texts, next)) => match parse_text(bytes, next) {
                Some((text, end)) => Some((texts.push(text), end)),
                None => None,
            },
            None => None,
        }
    }
}

/// The task that a byte stands for.
pub open spec fn parse_task(byte: u8) -> Option<Task> {
    if byte == 0 {
        Some(Task::Detect)
    } else if byte == 1 {
        Some(Task::Classify)
    } else if byte == 2 {
        Some(Task::Segment)
    } else {
        None
    }
}

/// The length of the numbers that end the metadata.
pub open spec fn numbers_len() -> int {
    25
}

/// The description that the metadata `bytes` holds, if they are the
/// metadata of a consistent description and nothing else.
pub open spec fn parse_metadata(bytes: Seq<u8>) -> Option<AIView> {
    match parse_text(bytes, 0) {
        Some((name, a)) => match parse_text(bytes, a) {
            Some((description, b)) => match (parse_u32(bytes, b), parse_u32(bytes, b + 4)) {
                (Some((version, _)), Some((count, c))) => match parse_texts(
                    bytes,
                    c,
                    count as nat,
                ) {
                    Some((classes, d)) => if d + numbers_len() == bytes.len() {
                        match parse_task(bytes[d + 24]) {
                            Some(task) => {
                                let ai = AIView {
                                    name,
                                    description,
                                    version,
                                    classes,
                                    input_width: spec_u32_from_le_bytes(bytes.subrange(d, d + 4)),
                                    input_height: spec_u32_from_le_bytes(
                                        bytes.subrange(d + 4, d + 8),
                                    ),
                                    confidence_threshold: spec_u32_from_le_bytes(
                                        bytes.subrange(d + 8, d + 12),
                                    ),
                                    nms_threshold: spec_u32_from_le_bytes(
                                        bytes.subrange(d + 12, d + 16),
                                    ),
                                    num_classes: spec_u32_from_le_bytes(
                                        bytes.subrange(d + 16, d + 20),
                                    ),
                                    num_masks: spec_u32_from_le_bytes(
                                        bytes.subrange(d + 20, d + 24),
                                    ),
                                    task,
                                };
                                if ai.sane() {
                                    Some(ai)
                                } else {
                                    None
                                }
                            },
                            None => None,
                        }
                    } else {
                        None
                    },
                    None => None,
                },
                _ => None,
            },
            None => None,
        },
        None => None,
    }
}

/// The description and the graph that the bundle `bytes` holds, if the
/// format is this library's, the lengths written in it are those of its
/// parts, and the metadata holds a consistent description.
pub open spec fn parse_bundle(bytes: Seq<u8>) -> Option<(AIView, Seq<u8>)> {
    if bytes.len() < 8 || spec_u32_from_le_bytes(bytes.subrange(0, 4)) != FORMAT_VERSION {
        None
    } else {
        let meta_len = spec_u32_from_le_bytes(bytes.subrange(4, 8)) as int;
        if bytes.len() < 16 + meta_len {
            None
        } else {
            let graph_len = spec_u64_from_le_bytes(
                bytes.subrange(8 + meta_len, 16 + meta_len),
            ) as int;
            if bytes.len() != 16 + meta_len + graph_len {
                None
            } else {
                match parse_metadata(bytes.subrange(8, 8 + meta_len)) {
                    Some(ai) => Some((ai, bytes.subrange(16 + meta_len, bytes.len() as int))),
                    None => None,
                }
            }
        }
    }
}

/// `String::from_utf8` of std: the text whose UTF-8 encoding the bytes are,
/// or nothing where they are not UTF-8.
#[verifier::external_body]
fn text_from_utf8(bytes: Vec<u8>) -> (text: Option<String>)
    ensures
        text is Some <==> valid_utf8(bytes@),
        text matches Some(s) ==> encode_utf8(s@) == bytes@,
{
    String::from_utf8(bytes).ok()
}

/// The encodings of the first texts of a list are no longer than those of
/// the whole list.
proof fn lemma_texts_prefix_len(texts: Seq<Seq<char>>, n: int)
    requires
        0 <= n <= texts.len(),
    ensures
        texts_bytes(texts.take(n)).len() <= texts_bytes(texts).len(),
    decreases texts.len(),
{
    if n == texts.len() {
        assert(texts.take(n) =~= texts);
    } else {
        assert(texts.drop_last().take(n) =~= texts.take(n));
        lemma_texts_prefix_len(texts.drop_last(), n);
    }
}

/// One more text adds its bytes at the end.
proof fn lemma_texts_step(texts: Seq<Seq<char>>, n: int)
    requires
        0 <= n < texts.len(),
    ensures
        texts_bytes(texts.take(n + 1)) == texts_bytes(texts.take(n)) + text_bytes(texts[n]),
{
    assert(texts.take(n + 1).drop_last() =~= texts.take(n));
    assert(texts.take(n + 1).last() == texts[n]);
}

/// Once reading a list of texts has failed it fails for every longer list.
proof fn lemma_parse_texts_fails(bytes: Seq<u8>, at: int, failed: nat, count: nat)
    requires
        failed <= count,
        parse_texts(bytes, at, failed) is None,
    ensures
        parse_texts(bytes, at, count) is None,
    decreases count,
{
    if failed < count {
        lemma_parse_texts_fails(bytes, at, failed, (count - 1) as nat);
    }
}

pub(crate) fn put_u32(out: &mut Vec<u8>, value: u32)
    ensures
        final(out)@ == old(out)@ + spec_u32_to_le_bytes(value),
        final(out)@.len() == old(out)@.len() + 4,
{
    let mut bytes = u32_to_le_bytes(value);
    out.append(&mut bytes);
}

pub(crate) fn put_text(out: &mut Vec<u8>, text: &str) -> (fits: bool)
    ensures
        fits == (encode_utf8(text@).len() <= u32::MAX),
        fits ==> final(out)@ == old(out)@ + text_bytes(text@),
        !fits ==> final(out)@ == old(out)@,
        text_bytes(text@).len() == 4 + encode_utf8(text@).len(),
{
    proof {
        vstd::bytes::lemma_auto_spec_u32_to_from_le_bytes();
    }
    let bytes = text.as_bytes();
    if bytes.len() > 0xffff_ffff {
        return false;
    }
    let ghost before = out@;
    put_u32(out, bytes.len() as u32);
    out.extend_from_slice(bytes);
    assert(out@ =~= before + text_bytes(text@));
    true
}

/// Writes the bundle for `ai` and `graph`, or nothing where `ai` is
/// inconsistent or too long for the format.
pub fn export_bq(ai: &AI, graph: &[u8]) -> (bundle: Option<Vec<u8>>)
    ensures
        bundle is Some <==> writable(ai@),
        bundle matches Some(bytes) ==> bytes@ == bundle_bytes(ai@, graph@),
{
    if !ai.is_sane() {
        return None;
    }
    proof {
        vstd::bytes::lemma_auto_spec_u32_to_from_le_bytes();
    }
    let ghost texts = texts_of(ai.classes@);
    let mut meta: Vec<u8> = Vec::new();
    if !put_text(&mut meta, ai.name.as_str()) {
        return None;
    }
    if !put_text(&mut meta, ai.description.as_str()) {
        return None;
    }
    put_u32(&mut meta, ai.version);
    put_u32(&mut meta, ai.classes.len() as u32);
    let ghost head = meta@;
    assert(head =~= text_bytes(ai@.name) + text_bytes(ai@.description) + spec_u32_to_le_bytes(
        ai@.version,
    ) + spec_u32_to_le_bytes(ai@.classes.len() as u32));
    let mut i: usize = 0;
    assert(texts.take(0) =~= Seq::empty());
    while i < ai.classes.len()
        invariant
            i <= ai.classes.len(),
            texts == texts_of(ai.classes@),
            meta@ == head + texts_bytes(texts.take(i as int)),
            head.len() >= 16,
        decreases ai.classes.len() - i,
    {
        proof {
            lemma_texts_step(texts, i as int);
            lemma_texts_prefix_len(texts, i + 1);
        }
        if !put_text(&mut meta, ai.classes[i].as_str()) {
            return None;
        }
        assert(meta@ =~= head + texts_bytes(texts.take(i + 1)));
        i += 1;
    }
    assert(texts.take(i as int) =~= texts);
    let ghost listed = meta@;
    put_u32(&mut meta, ai.input_width);
    put_u32(&mut meta, ai.input_height);
    put_u32(&mut meta, ai.confidence_threshold);
    put_u32(&mut meta, ai.nms_threshold);
    put_u32(&mut meta, ai.num_classes);
    put_u32(&mut meta, ai.num_masks);
    meta.push(
        match ai.task {
            Task::Detect => 0,
            Task::Classify => 1,
            Task::Segment => 2,
        },
    );
    assert(meta@ =~= listed + numbers_bytes(ai@));
    assert(meta@ =~= metadata_bytes(ai@));
    if meta.len() > 0xffff_ffff {
        return None;
    }
    let mut out: Vec<u8> = Vec::new();
    put_u32(&mut out, FORMAT_VERSION);
    put_u32(&mut out, meta.len() as u32);
    out.append(&mut meta);
    let mut graph_len = u64_to_le_bytes(graph.len() as u64);
    out.append(&mut graph_len);
    out.extend_from_slice(graph);
    assert(out@ =~= bundle_bytes(ai@, graph@));
    Some(out)
}

pub(crate) fn read_u32(bytes: &[u8], at: usize) -> (read: Option<(u32, usize)>)
    ensures
        match read {
            Some((value, end)) => parse_u32(bytes@, at as int) == Some((value, end as int)) && end
                == at + 4 && end <= bytes.len(),
            None => parse_u32(bytes@, at as int) is None,
        },
{
    if bytes.len() < 4 || at > bytes.len() - 4 {
        None
    } else {
        Some((u32_from_le_bytes(slice_subrange(bytes, at, at + 4)), at + 4))
    }
}

pub(crate) fn read_text(bytes: &[u8], at: usize) -> (read: Option<(String, usize)>)
    ensures
        match read {
            Some((text, end)) => parse_text(bytes@, at as int) == Some((text@, end as int)) && end
                <= bytes.len(),
            None => parse_text(bytes@, at as int) is None,
        },
{
    match read_u32(bytes, at) {
        None => None,
        Some((len, start)) => {
            if len as u64 > (bytes.len() - start) as u64 {
                return None;
            }
            let end: usize = start + len as usize;
            match text_from_utf8(slice_to_vec(slice_subrange(bytes, start, end))) {
                None => None,
                Some(text) => {
                    proof {
                        vstd::utf8::encode_utf8_decode_utf8(text@);
                    }
                    Some((text, end))
                },
            }
        },
    }
}

fn read_texts(bytes: &[u8], at: usize, count: u32) -> (read: Option<(Vec<String>, usize)>)
    requires
        at <= bytes.len(),
    ensures
        match read {
            Some((texts, end)) => parse_texts(bytes@, at as int, count as nat) == Some(
                (texts_of(texts@), end as int),
            ) && end <= bytes.len() && texts.len() == count,
            None => parse_texts(bytes@, at as int, count as nat) is None,
        },
{
    let mut texts: Vec<String> = Vec::new();
    let mut next: usize = at;
    let mut i: u32 = 0;
    assert(texts_of(texts@) =~= Seq::empty());
    while i < count
        invariant
            i <= count,
            next <= bytes.len(),
            texts.len() == i,
            parse_texts(bytes@, at as int, i as nat) == Some((texts_of(texts@), next as int)),
        decreases count - i,
    {
        let ghost before = texts_of(texts@);
        match read_text(bytes, next) {
            None => {
                proof {
                    assert(parse_texts(bytes@, at as int, (i + 1) as nat) is None);
                    lemma_parse_texts_fails(bytes@, at as int, (i + 1) as nat, count as nat);
                }
                return None;
            },
            Some((text, end)) => {
                texts.push(text);
                next = end;
                assert(texts_of(texts@) =~= before.push(text@));
            },
        }
        i += 1;
    }
    Some((texts, next))
}

fn read_task(byte: u8) -> (task: Option<Task>)
    ensures
        task == parse_task(byte),
{
    if byte == 0 {
        Some(Task::Detect)
    } else if byte == 1 {
        Some(Task::Classify)
    } else if byte == 2 {
        Some(Task::Segment)
    } else {
        None
    }
}

fn read_number(bytes: &[u8], at: usize) -> (value: u32)
    requires
        at + 4 <= bytes.len(),
    ensures
        value == spec_u32_from_le_bytes(bytes@.subrange(at as int, at + 4)),
{
    u32_from_le_bytes(slice_subrange(bytes, at, at + 4))
}

fn read_metadata(bytes: &[u8]) -> (read: Option<AI>)
    ensures
        match read {
            Some(ai) => parse_metadata(bytes@) == Some(ai@),
            None => parse_metadata(bytes@) is None,
        },
{
    let (name, a) = match read_text(bytes, 0) {
        Some(read) => read,
        None => return None,
    };
    let (description, b) = match read_text(bytes, a) {
        Some(read) => read,
        None => return None,
    };
    let (version, _) = match read_u32(bytes, b) {
        Some(read) => read,
        None => return None,
    };
    let (count, c) = match read_u32(bytes, b + 4) {
        Some(read) => read,
        None => return None,
    };
    let (classes, d) = match read_texts(bytes, c, count) {
        Some(read) => read,
        None => return None,
    };
    if bytes.len() - d != 25 {
        return None;
    }
    let task = match read_task(bytes[d + 24]) {
        Some(task) => task,
        None => return None,
    };
    let ai = AI {
        name,
        description,
        version,
        classes,
        input_width: read_number(bytes, d),
        input_height: read_number(bytes, d + 4),
        confidence_threshold: read_number(bytes, d + 8),
        nms_threshold: read_number(bytes, d + 12),
        num_classes: read_number(bytes, d + 16),
        num_masks: read_number(bytes, d + 20),
        task,
    };
    if ai.is_sane() {
        Some(ai)
    } else {
        None
    }
}

/// Reads a bundle: the description and the graph that `bytes` hold. Fails
/// with `CorruptBundle` where the format is not this library's, a length
/// written in the bundle is not that of its part, a text is not UTF-8 or
/// the description is inconsistent.
pub fn import_bq(bytes: &[u8]) -> (read: Result<(AI, Vec<u8>), Failure>)
    ensures
        match read {
            Ok((ai, graph)) => parse_bundle(bytes@) == Some((ai@, graph@)),
            Err(failure) => failure == Failure::CorruptBundle && parse_bundle(bytes@) is None,
        },
{
    if bytes.len() < 8 || read_number(bytes, 0) != FORMAT_VERSION {
        return Err(Failure::CorruptBundle);
    }
    let meta_len: u32 = read_number(bytes, 4);
    if (bytes.len() as u64) < 16 + meta_len as u64 {
        return Err(Failure::CorruptBundle);
    }
    let meta_end: usize = 8 + meta_len as usize;
    let graph_len: u64 = u64_from_le_bytes(slice_subrange(bytes, meta_end, meta_end + 8));
    if (bytes.len() - meta_end - 8) as u64 != graph_len {
        return Err(Failure::CorruptBundle);
    }
    match read_metadata(slice_subrange(bytes, 8, meta_end)) {
        Some(ai) => Ok((ai, slice_to_vec(slice_subrange(bytes, meta_end + 8, bytes.len())))),
        None => Err(Failure::CorruptBundle),
    }
}

/// A text that stands at `at` is read there.
pub(crate) proof fn lemma_parse_text_at(bytes: Seq<u8>, at: int, text: Seq<char>)
    requires
        0 <= at,
        at + text_bytes(text).len() <= bytes.len(),
        bytes.subrange(at, at + text_bytes(text).len()) == text_bytes(text),
        encode_utf8(text).len() <= u32::MAX,
    ensures
        parse_text(bytes, at) == Some((text, at + text_bytes(text).len())),
        text_bytes(text).len() == 4 + encode_utf8(text).len(),
{
    vstd::bytes::lemma_auto_spec_u32_to_from_le_bytes();
    let encoded = encode_utf8(text);
    let whole = text_bytes(text);
    assert(bytes.subrange(at, at + 4) =~= whole.subrange(0, 4));
    assert(whole.subrange(0, 4) =~= spec_u32_to_le_bytes(encoded.len() as u32));
    assert(bytes.subrange(at + 4, at + 4 + encoded.len()) =~= whole.subrange(
        4,
        whole.len() as int,
    ));
    assert(whole.subrange(4, whole.len() as int) =~= encoded);
    vstd::utf8::encode_utf8_valid_utf8(text);
    vstd::utf8::encode_utf8_decode_utf8(text);
}

/// Texts that stand at `at` one after the other are read there.
proof fn lemma_parse_texts_at(bytes: Seq<u8>, at: int, texts: Seq<Seq<char>>)
    requires
        0 <= at,
        at + texts_bytes(texts).len() <= bytes.len(),
        bytes.subrange(at, at + texts_bytes(texts).len()) == texts_bytes(texts),
        texts_bytes(texts).len() <= u32::MAX,
    ensures
        parse_texts(bytes, at, texts.len()) == Some((texts, at + texts_bytes(texts).len())),
    decreases texts.len(),
{
    vstd::bytes::lemma_auto_spec_u32_to_from_le_bytes();
    if texts.len() > 0 {
        let first = texts.drop_last();
        let last = texts.last();
        let whole = texts_bytes(texts);
        let split = texts_bytes(first).len() as int;
        assert(whole == texts_bytes(first) + text_bytes(last));
        assert(bytes.subrange(at, at + split) =~= whole.subrange(0, split));
        assert(whole.subrange(0, split) =~= texts_bytes(first));
        lemma_parse_texts_at(bytes, at, first);
        assert(bytes.subrange(at + split, at + split + text_bytes(last).len()) =~= whole.subrange(
            split,
            whole.len() as int,
        ));
        assert(whole.subrange(split, whole.len() as int) =~= text_bytes(last));
        lemma_parse_text_at(bytes, at + split, last);
        assert(first.push(last) =~= texts);
    }
}

/// The metadata written for a description is read as that description.
proof fn lemma_metadata_roundtrip(ai: AIView)
    requires
        writable(ai),
    ensures
        parse_metadata(metadata_bytes(ai)) == Some(ai),
{
    vstd::bytes::lemma_auto_spec_u32_to_from_le_bytes();
    let m = metadata_bytes(ai);
    let name = text_bytes(ai.name);
    let description = text_bytes(ai.description);
    let listed = texts_bytes(ai.classes);
    let numbers = numbers_bytes(ai);
    let a = name.len() as int;
    let b = a + description.len();
    let c = b + 8;
    let d = c + listed.len();
    assert(m.len() == d + 25);
    assert(m.subrange(0, a) =~= name);
    lemma_parse_text_at(m, 0, ai.name);
    assert(m.subrange(a, b) =~= description);
    lemma_parse_text_at(m, a, ai.description);
    assert(m.subrange(b, b + 4) =~= spec_u32_to_le_bytes(ai.version));
    assert(m.subrange(b + 4, b + 8) =~= spec_u32_to_le_bytes(ai.classes.len() as u32));
    assert(m.subrange(c, d) =~= listed);
    lemma_parse_texts_at(m, c, ai.classes);
    assert(m.subrange(d, d + 4) =~= spec_u32_to_le_bytes(ai.input_width));
    assert(m.subrange(d + 4, d + 8) =~= spec_u32_to_le_bytes(ai.input_height));
    assert(m.subrange(d + 8, d + 12) =~= spec_u32_to_le_bytes(ai.confidence_threshold));
    assert(m.subrange(d + 12, d + 16) =~= spec_u32_to_le_bytes(ai.nms_threshold));
    assert(m.subrange(d + 16, d + 20) =~= spec_u32_to_le_bytes(ai.num_classes));
    assert(m.subrange(d + 20, d + 24) =~= spec_u32_to_le_bytes(ai.num_masks));
    assert(m[d + 24] == task_byte(ai.task));
    assert(parse_task(task_byte(ai.task)) == Some(ai.task));
}

/// Reading a bundle undoes writing it: the description comes back field
/// for field and the graph byte for byte.
pub proof fn law_import_inverts_export(ai: AIView, graph: Seq<u8>)
    requires
        writable(ai),
        graph.len() <= u64::MAX,
    ensures
        parse_bundle(bundle_bytes(ai, graph)) == Some((ai, graph)),
{
    vstd::bytes::lemma_auto_spec_u32_to_from_le_bytes();
    vstd::bytes::lemma_auto_spec_u64_to_from_le_bytes();
    let bytes = bundle_bytes(ai, graph);
    let meta = metadata_bytes(ai);
    let n = meta.len() as int;
    assert(bytes.subrange(0, 4) =~= spec_u32_to_le_bytes(FORMAT_VERSION));
    assert(bytes.subrange(4, 8) =~= spec_u32_to_le_bytes(n as u32));
    assert(bytes.subrange(8 + n, 16 + n) =~= spec_u64_to_le_bytes(graph.len() as u64));
    assert(bytes.subrange(8, 8 + n) =~= meta);
    assert(bytes.subrange(16 + n, bytes.len() as int) =~= graph);
    lemma_metadata_roundtrip(ai);
}

/// A bundle that was cut short anywhere is not read: neither a description
/// nor a part of the graph comes out of it.
pub proof fn law_truncated_is_corrupt(ai: AIView, graph: Seq<u8>, kept: int)
    requires
        writable(ai),
        graph.len() <= u64::MAX,
        0 <= kept < bundle_bytes(ai, graph).len(),
    ensures
        parse_bundle(bundle_bytes(ai, graph).subrange(0, kept)) is None,
{
    vstd::bytes::lemma_auto_spec_u32_to_from_le_bytes();
    vstd::bytes::lemma_auto_spec_u64_to_from_le_bytes();
    let bytes = bundle_bytes(ai, graph);
    let cut = bytes.subrange(0, kept);
    let n = metadata_bytes(ai).len() as int;
    if kept >= 8 {
        assert(cut.subrange(0, 4) =~= spec_u32_to_le_bytes(FORMAT_VERSION));
        assert(cut.subrange(4, 8) =~= spec_u32_to_le_bytes(n as u32));
        if kept >= 16 + n {
            assert(cut.subrange(8 + n, 16 + n) =~= spec_u64_to_le_bytes(graph.len() as u64));
        }
    }
}

/// A text that was read stands where it was read from.
proof fn lemma_parse_text_sound(bytes: Seq<u8>, at: int, text: Seq<char>, end: int)
    requires
        parse_text(bytes, at) == Some((text, end)),
    ensures
        0 <= at <= end <= bytes.len(),
        bytes.subrange(at, end) == text_bytes(text),
{
    vstd::bytes::lemma_auto_spec_u32_to_from_le_bytes();
    let len = spec_u32_from_le_bytes(bytes.subrange(at, at + 4));
    let encoded = bytes.subrange(at + 4, at + 4 + len);
    vstd::utf8::decode_utf8_encode_utf8(encoded);
    assert(encode_utf8(text) == encoded);
    assert(bytes.subrange(at, end) =~= bytes.subrange(at, at + 4) + encoded);
}

/// Texts that were read stand where they were read from.
proof fn lemma_parse_texts_sound(
    bytes: Seq<u8>,
    at: int,
    count: nat,
    texts: Seq<Seq<char>>,
    end: int,
)
    requires
        parse_texts(bytes, at, count) == Some((texts, end)),
        0 <= at <= bytes.len(),
    ensures
        at <= end <= bytes.len(),
        texts.len() == count,
        bytes.subrange(at, end) == texts_bytes(texts),
    decreases count,
{
    if count == 0 {
        assert(bytes.subrange(at, end) =~= texts_bytes(texts));
    } else {
        let (first, next) = parse_texts(bytes, at, (count - 1) as nat)->0;
        let (last, _) = parse_text(bytes, next)->0;
        lemma_parse_texts_sound(bytes, at, (count - 1) as nat, first, next);
        lemma_parse_text_sound(bytes, next, last, end);
        assert(texts.drop_last() =~= first);
        assert(bytes.subrange(at, end) =~= bytes.subrange(at, next) + bytes.subrange(next, end));
    }
}

/// Metadata that was read is the metadata written for what was read.
proof fn lemma_metadata_sound(bytes: Seq<u8>, ai: AIView)
    requires
        parse_metadata(bytes) == Some(ai),
    ensures
        ai.sane(),
        metadata_bytes(ai) == bytes,
{
    vstd::bytes::lemma_auto_spec_u32_to_from_le_bytes();
    let (name, a) = parse_text(bytes, 0)->0;
    let (description, b) = parse_text(bytes, a)->0;
    let (count, c) = parse_u32(bytes, b + 4)->0;
    let (classes, d) = parse_texts(bytes, c, count as nat)->0;
    lemma_parse_text_sound(bytes, 0, name, a);
    lemma_parse_text_sound(bytes, a, description, b);
    lemma_parse_texts_sound(bytes, c, count as nat, classes, d);
    assert(ai.classes == classes);
    assert(task_byte(ai.task) == bytes[d + 24]);
    assert(numbers_bytes(ai) =~= bytes.subrange(d, d + 4) + bytes.subrange(d + 4, d + 8)
        + bytes.subrange(d + 8, d + 12) + bytes.subrange(d + 12, d + 16) + bytes.subrange(
        d + 16,
        d + 20,
    ) + bytes.subrange(d + 20, d + 24) + seq![bytes[d + 24]]);
    assert(numbers_bytes(ai) =~= bytes.subrange(d, bytes.len() as int));
    assert(metadata_bytes(ai) =~= bytes.subrange(0, a) + bytes.subrange(a, b) + bytes.subrange(
        b,
        b + 4,
    ) + bytes.subrange(b + 4, c) + bytes.subrange(c, d) + bytes.subrange(d, bytes.len() as int));
    assert(metadata_bytes(ai) =~= bytes);
}

/// Whatever is read as a bundle is a bundle that can be written: the bytes
/// are those written for the description and the graph that were read.
pub proof fn law_import_reads_exports_only(bytes: Seq<u8>, ai: AIView, graph: Seq<u8>)
    requires
        parse_bundle(bytes) == Some((ai, graph)),
    ensures
        writable(ai),
        graph.len() <= u64::MAX,
        bundle_bytes(ai, graph) == bytes,
{
    vstd::bytes::lemma_auto_spec_u32_to_from_le_bytes();
    vstd::bytes::lemma_auto_spec_u64_to_from_le_bytes();
    let n = spec_u32_from_le_bytes(bytes.subrange(4, 8)) as int;
    lemma_metadata_sound(bytes.subrange(8, 8 + n), ai);
    assert(bundle_bytes(ai, graph) =~= bytes.subrange(0, 4) + bytes.subrange(4, 8) + bytes.subrange(
        8,
        8 + n,
    ) + bytes.subrange(8 + n, 16 + n) + bytes.subrange(16 + n, bytes.len() as int));
    assert(bundle_bytes(ai, graph) =~= bytes);
}

/// The text `text` ends with `ending`.
pub open spec fn ends_with(text: Seq<char>, ending: Seq<char>) -> bool {
    text.len() >= ending.len() && text.subrange(text.len() - ending.len(), text.len() as int)
        == ending
}

/// The path of the bundle of the model called `model_name`: the name in
/// the directory `models`, with the ending `.bq` unless it has it.
pub open spec fn bundle_path(model_name: Seq<char>) -> Seq<char> {
    if ends_with(model_name, ".bq"@) {
        "models/"@ + model_name
    } else {
        "models/"@ + model_name + ".bq"@
    }
}

/// Whether a file of this name is taken for a bundle: whether the name
/// ends with `.bq`.
pub fn is_bq_file_name(file_name: &str) -> (is_bundle: bool)
    ensures
        is_bundle == ends_with(file_name@, ".bq"@),
{
    proof {
        reveal_strlit(".bq");
    }
    let n = file_name.unicode_len();
    if n < 3 {
        return false;
    }
    let is_bundle = file_name.get_char(n - 3) == '.' && file_name.get_char(n - 2) == 'b'
        && file_name.get_char(n - 1) == 'q';
    proof {
        let ending = file_name@.subrange(n - 3, n as int);
        if is_bundle {
            assert(ending =~= ".bq"@);
        } else {
            assert(ending[0] == file_name@[n - 3]);
            assert(ending[1] == file_name@[n - 2]);
            assert(ending[2] == file_name@[n - 1]);
        }
    }
    is_bundle
}

/// The path from which the bundle of the model called `model_name` is
/// read.
pub fn model_path(model_name: &str) -> (path: String)
    ensures
        path@ == bundle_path(model_name@),
{
    let mut path = "models/".to_owned();
    path.append(model_name);
    if !is_bq_file_name(model_name) {
        path.append(".bq");
    }
    path
}

/// The descriptions that the files `files` hold, in the order of the
/// files; a file that is no bundle gives none.
pub open spec fn descriptions_of(files: Seq<Seq<u8>>) -> Seq<AIView>
    decreases files.len(),
{
    if files.len() == 0 {
        Seq::empty()
    } else {
        match parse_bundle(files.last()) {
            Some((ai, _)) => descriptions_of(files.drop_last()).push(ai),
            None => descriptions_of(files.drop_last()),
        }
    }
}

/// The descriptions that a list of models holds.
pub open spec fn views_of(models: Seq<AI>) -> Seq<AIView> {
    Seq::new(models.len(), |i: int| models[i]@)
}

/// The bytes that a list of files holds.
pub open spec fn contents_of(files: Seq<Vec<u8>>) -> Seq<Seq<u8>> {
    Seq::new(files.len(), |i: int| files[i]@)
}

/// The models that can be loaded from the files `files`: the description
/// of each file that is a bundle, in the order of the files. A file that
/// is corrupt is passed over and does not keep the others from loading.
pub fn get_bqs(files: &Vec<Vec<u8>>) -> (models: Vec<AI>)
    ensures
        views_of(models@) == descriptions_of(contents_of(files@)),
{
    let ghost contents = contents_of(files@);
    let mut models: Vec<AI> = Vec::new();
    let mut i: usize = 0;
    assert(contents.take(0) =~= Seq::empty());
    assert(views_of(models@) =~= Seq::empty());
    while i < files.len()
        invariant
            i <= files.len(),
            contents == contents_of(files@),
            views_of(models@) == descriptions_of(contents.take(i as int)),
        decreases files.len() - i,
    {
        proof {
            assert(contents.take(i + 1).drop_last() =~= contents.take(i as int));
            assert(contents.take(i + 1).last() == files@[i as int]@);
        }
        let ghost before = views_of(models@);
        match import_bq(files[i].as_slice()) {
            Ok((ai, _)) => {
                models.push(ai);
                assert(views_of(models@) =~= before.push(ai@));
            },
            Err(_) => {},
        }
        i += 1;
    }
    assert(contents.take(i as int) =~= contents);
    models
}

/// A corrupt file among the files changes nothing in what the others give.
pub proof fn law_corrupt_file_is_passed_over(
    before: Seq<Seq<u8>>,
    corrupt: Seq<u8>,
    after: Seq<Seq<u8>>,
)
    requires
        parse_bundle(corrupt) is None,
    ensures
        descriptions_of(before.push(corrupt) + after) == descriptions_of(before + after),
    decreases after.len(),
{
    if after.len() == 0 {
        assert(before.push(corrupt) + after =~= before.push(corrupt));
        assert(before + after =~= before);
        assert(before.push(corrupt).drop_last() =~= before);
    } else {
        let with = before.push(corrupt) + after;
        let without = before + after;
        assert(with.drop_last() =~= before.push(corrupt) + after.drop_last());
        assert(without.drop_last() =~= before + after.drop_last());
        assert(with.last() == after.last());
        assert(without.last() == after.last());
        law_corrupt_file_is_passed_over(before, corrupt, after.drop_last());
    }
}

} // verus!
