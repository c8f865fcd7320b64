//! Reading the sampler metadata of a WAV file from its bytes: the RIFF
//! chunk walk, made with the riff crate, and the metadata extraction over
//! the chunks it finds.

use vstd::prelude::*;
use crate::text::{join2, push_char, str_eq};
use crate::wav::{
    acid_id, adtl_id, cue_id, describes_scan, extract_from_chunks, fmt_id, labl_id, label_payload_needed, le32,
    list_id, payload_needed, smpl_id, utf8_lossy, utf8_text, wav_outcome, ChunkBody, RiffChunk, WavInfo,
};

verus! {

/// A chunk header as the riff crate reads it: where it starts, its id and
/// the length of its payload.
pub struct ChunkHead {
    pub offset: u64,
    pub id: [u8; 4],
    pub len: u32,
}

/// A header as plain values: offset, id bytes, payload length.
pub open spec fn head_view(h: ChunkHead) -> (int, Seq<u8>, nat) {
    (h.offset as int, h.id@, h.len as nat)
}

pub open spec fn heads_view(s: Seq<ChunkHead>) -> Seq<(int, Seq<u8>, nat)> {
    s.map_values(|h: ChunkHead| head_view(h))
}

/// The chunk header at `pos`: its id is the four bytes there and its
/// length the little-endian number after them; there is none when fewer
/// than eight bytes are left.
pub open spec fn head_at(b: Seq<u8>, pos: int) -> Option<(int, Seq<u8>, nat)> {
    if 0 <= pos && pos + 8 <= b.len() {
        Some((pos, b.subrange(pos, pos + 4), le32(b, pos + 4) as nat))
    } else {
        None
    }
}

/// The headers met walking chunks from `cur` while before `end`, each
/// chunk followed by the next after its payload and a pad byte for an odd
/// length; an error when a header is cut short.
pub open spec fn walk_from(b: Seq<u8>, cur: int, end: int) -> Result<Seq<(int, Seq<u8>, nat)>, ()>
    decreases (if cur < end { end - cur } else { 0 }),
{
    if cur >= end {
        Ok(Seq::empty())
    } else {
        match head_at(b, cur) {
            None => Err(()),
            Some(h) => {
                match walk_from(b, cur + h.2 + 8 + h.2 % 2, end) {
                    Err(_) => Err(()),
                    Ok(rest) => Ok(seq![h] + rest),
                }
            },
        }
    }
}

/// The children of the chunk whose header is `h`: the walk over its
/// payload after the four-byte form type.
pub open spec fn children_of(b: Seq<u8>, h: (int, Seq<u8>, nat)) -> Result<Seq<(int, Seq<u8>, nat)>, ()> {
    walk_from(b, h.0 + 12, h.0 + 4 + h.2)
}

/// Reads the chunk header at `pos` (`riff::Chunk::read` over the bytes).
/// The text of a failed read is the I/O error's and is not stated.
#[verifier::external_body]
fn riff_read_head(bytes: &[u8], pos: u64) -> (r: Result<ChunkHead, String>)
    ensures
        match head_at(bytes@, pos as int) {
            Some(h) => r matches Ok(c) && head_view(c) == h,
            None => r is Err,
        },
{
    let mut cursor = std::io::Cursor::new(bytes);
    match ::riff::Chunk::read(&mut cursor, pos) {
        Ok(c) => Ok(ChunkHead { offset: c.offset(), id: c.id().value, len: c.len() }),
        Err(e) => Err(e.to_string()),
    }
}

/// The headers of the children of the chunk at `pos` (`riff::Chunk::read`,
/// then `Chunk::iter` collected up to its first error). The text of an
/// error is the I/O error's and is not stated.
#[verifier::external_body]
fn riff_children(bytes: &[u8], pos: u64) -> (r: Result<Vec<ChunkHead>, String>)
    requires
        head_at(bytes@, pos as int) is Some,
    ensures
        match children_of(bytes@, head_at(bytes@, pos as int)->Some_0) {
            Ok(hs) => r matches Ok(v) && heads_view(v@) == hs,
            Err(_) => r is Err,
        },
{
    let mut cursor = std::io::Cursor::new(bytes);
    let chunk = ::riff::Chunk::read(&mut cursor, pos).map_err(|e| e.to_string())?;
    let found: Result<Vec<::riff::Chunk>, std::io::Error> = chunk.iter(&mut cursor).collect();
    let found = found.map_err(|e| e.to_string())?;
    Ok(found.iter().map(|c| ChunkHead { offset: c.offset(), id: c.id().value, len: c.len() }).collect())
}

/// The form type of the chunk at `pos`: the four bytes after its header
/// (`riff::Chunk::read`, then `Chunk::read_type`). The text of a failed
/// read is the I/O error's and is not stated.
#[verifier::external_body]
fn riff_read_type(bytes: &[u8], pos: u64) -> (r: Result<[u8; 4], String>)
    requires
        head_at(bytes@, pos as int) is Some,
    ensures
        (if pos + 12 <= bytes@.len() {
            r matches Ok(t) && t@ == bytes@.subrange(pos + 8, pos + 12)
        } else {
            r is Err
        }),
{
    let mut cursor = std::io::Cursor::new(bytes);
    let chunk = ::riff::Chunk::read(&mut cursor, pos).map_err(|e| e.to_string())?;
    chunk.read_type(&mut cursor).map(|t| t.value).map_err(|e| e.to_string())
}

/// The payload of the chunk at `pos` (`riff::Chunk::read`, then
/// `Chunk::read_contents`), which allocates the stated length before
/// reading. The text of a failed read is the I/O error's and is not stated.
#[verifier::external_body]
fn riff_read_contents(bytes: &[u8], pos: u64) -> (r: Result<Vec<u8>, String>)
    requires
        head_at(bytes@, pos as int) is Some,
    ensures
        ({
            let h = head_at(bytes@, pos as int)->Some_0;
            if h.0 + 8 + h.2 <= bytes@.len() {
                r matches Ok(d) && d@ == bytes@.subrange(h.0 + 8, h.0 + 8 + h.2)
            } else {
                r is Err
            }
        }),
{
    let mut cursor = std::io::Cursor::new(bytes);
    let chunk = ::riff::Chunk::read(&mut cursor, pos).map_err(|e| e.to_string())?;
    chunk.read_contents(&mut cursor).map_err(|e| e.to_string())
}

/// Four bytes, all below 128.
pub open spec fn is_ascii_id(b: Seq<u8>) -> bool {
    forall|i: int| 0 <= i < b.len() ==> b[i] < 128
}

/// The text of a chunk id: its characters when it is ASCII, otherwise the
/// bytes decoded as UTF-8 with invalid sequences replaced.
pub open spec fn id_text(b: Seq<u8>) -> Seq<char> {
    if is_ascii_id(b) {
        b.map_values(|x: u8| x as char)
    } else {
        utf8_text(b)
    }
}

/// The text of a chunk id.
fn id_string(id: &[u8; 4]) -> (r: String)
    ensures
        r@ == id_text(id@),
{
    let mut ascii = true;
    let mut i: usize = 0;
    while i < 4
        invariant
            i <= 4,
            id@.len() == 4,
            ascii == (forall|k: int| 0 <= k < i ==> id@[k] < 128),
        decreases 4 - i,
    {
        if id[i] >= 128 {
            ascii = false;
        }
        i = i + 1;
    }
    if ascii {
        let mut s = String::new();
        let mut j: usize = 0;
        while j < 4
            invariant
                j <= 4,
                id@.len() == 4,
                is_ascii_id(id@),
                s@ == id@.take(j as int).map_values(|x: u8| x as char),
            decreases 4 - j,
        {
            let c = id[j] as char;
            push_char(&mut s, c);
            proof {
                assert(id@.take(j + 1).map_values(|x: u8| x as char)
                    =~= id@.take(j as int).map_values(|x: u8| x as char).push(c));
            }
            j = j + 1;
        }
        proof {
            assert(id@.take(4) =~= id@);
        }
        s
    } else {
        utf8_lossy(id.as_slice())
    }
}

/// The payload read for a chunk: its bytes, or an error when the file
/// ends inside it.
pub open spec fn payload_matches(b: Seq<u8>, h: (int, Seq<u8>, nat), p: Result<Vec<u8>, String>) -> bool {
    if h.0 + 8 + h.2 <= b.len() {
        p matches Ok(d) && d@ == b.subrange(h.0 + 8, h.0 + 8 + h.2)
    } else {
        p is Err
    }
}

/// A sub-chunk of an `adtl` list as read: a `labl` chunk with its payload,
/// any other unread.
pub open spec fn sub_matches(b: Seq<u8>, h: (int, Seq<u8>, nat), c: RiffChunk) -> bool {
    &&& c.id@ == id_text(h.1)
    &&& if id_text(h.1) == labl_id() {
        c.body matches ChunkBody::Payload(p) && payload_matches(b, h, p)
    } else {
        c.body is Unread
    }
}

pub open spec fn subs_match(b: Seq<u8>, hs: Seq<(int, Seq<u8>, nat)>, cs: Seq<RiffChunk>) -> bool {
    &&& cs.len() == hs.len()
    &&& forall|i: int| 0 <= i < hs.len() ==> #[trigger] sub_matches(b, hs[i], cs[i])
}

/// The form type read for a `LIST` chunk.
pub open spec fn type_matches(b: Seq<u8>, h: (int, Seq<u8>, nat), ty: Result<String, String>) -> bool {
    if h.0 + 12 <= b.len() {
        ty matches Ok(t) && t@ == id_text(b.subrange(h.0 + 8, h.0 + 12))
    } else {
        ty is Err
    }
}

/// The sub-chunks read for a `LIST` chunk of form type `ty`: those of an
/// `adtl` list, none for any other.
pub open spec fn list_subs_match(
    b: Seq<u8>,
    h: (int, Seq<u8>, nat),
    ty: Result<String, String>,
    subs: Result<Vec<RiffChunk>, String>,
) -> bool {
    if ty matches Ok(t) && t@ == adtl_id() {
        match children_of(b, h) {
            Ok(hs) => subs matches Ok(v) && subs_match(b, hs, v@),
            Err(_) => subs is Err,
        }
    } else {
        subs matches Ok(v) && v@.len() == 0
    }
}

/// The id needs its payload read.
pub open spec fn needs_payload(id: Seq<char>) -> bool {
    id == fmt_id() || id == smpl_id() || id == cue_id() || id == acid_id()
}

/// A top-level chunk as read: a `LIST` chunk with its form type and
/// sub-chunks, a chunk the metadata uses with its payload, any other
/// unread.
pub open spec fn top_matches(b: Seq<u8>, h: (int, Seq<u8>, nat), c: RiffChunk) -> bool {
    &&& c.id@ == id_text(h.1)
    &&& if id_text(h.1) == list_id() {
        c.body matches ChunkBody::List(ty, subs) && type_matches(b, h, ty) && list_subs_match(b, h, ty, subs)
    } else if needs_payload(id_text(h.1)) {
        c.body matches ChunkBody::Payload(p) && payload_matches(b, h, p)
    } else {
        c.body is Unread
    }
}

pub open spec fn tops_match(b: Seq<u8>, hs: Seq<(int, Seq<u8>, nat)>, cs: Seq<RiffChunk>) -> bool {
    &&& cs.len() == hs.len()
    &&& forall|i: int| 0 <= i < hs.len() ==> #[trigger] top_matches(b, hs[i], cs[i])
}

/// Every header of a walk is the header found at its offset.
proof fn lemma_walk_heads(b: Seq<u8>, cur: int, end: int)
    ensures
        walk_from(b, cur, end) matches Ok(hs) ==> forall|k: int| 0 <= k < hs.len() ==> head_at(b, (#[trigger] hs[k]).0) == Some(hs[k]),
    decreases (if cur < end { end - cur } else { 0 }),
{
    if cur < end {
        if let Some(h) = head_at(b, cur) {
            lemma_walk_heads(b, cur + h.2 + 8 + h.2 % 2, end);
            if let Ok(rest) = walk_from(b, cur + h.2 + 8 + h.2 % 2, end) {
                let hs = seq![h] + rest;
                assert forall|k: int| 0 <= k < hs.len() implies head_at(b, (#[trigger] hs[k]).0) == Some(hs[k]) by {
                    if k > 0 {
                        assert(hs[k] == rest[k - 1]);
                    }
                }
            }
        }
    }
}

/// Reads the sub-chunks of an `adtl` list.
fn read_subs(bytes: &[u8], heads: &Vec<ChunkHead>) -> (r: Vec<RiffChunk>)
    requires
        forall|k: int| 0 <= k < heads@.len() ==> head_at(bytes@, (#[trigger] heads@[k]).offset as int) == Some(head_view(heads@[k])),
    ensures
        subs_match(bytes@, heads_view(heads@), r@),
{
    let mut out: Vec<RiffChunk> = Vec::new();
    let mut i: usize = 0;
    while i < heads.len()
        invariant
            i <= heads@.len(),
            out@.len() == i,
            forall|k: int| 0 <= k < heads@.len() ==> head_at(bytes@, (#[trigger] heads@[k]).offset as int) == Some(head_view(heads@[k])),
            forall|k: int| 0 <= k < i ==> #[trigger] sub_matches(bytes@, heads_view(heads@)[k], out@[k]),
        decreases heads@.len() - i,
    {
        let h = &heads[i];
        assert(head_at(bytes@, h.offset as int) == Some(head_view(*h)));
        let id = id_string(&h.id);
        let body = if label_payload_needed(id.as_str()) {
            ChunkBody::Payload(riff_read_contents(bytes, h.offset))
        } else {
            ChunkBody::Unread
        };
        out.push(RiffChunk { id, body });
        proof {
            assert(heads_view(heads@)[i as int] == head_view(heads@[i as int]));
            assert(sub_matches(bytes@, heads_view(heads@)[i as int], out@[i as int]));
        }
        i = i + 1;
    }
    out
}

/// Reads one top-level chunk.
fn read_top(bytes: &[u8], h: &ChunkHead) -> (r: RiffChunk)
    requires
        head_at(bytes@, h.offset as int) == Some(head_view(*h)),
    ensures
        top_matches(bytes@, head_view(*h), r),
{
    let id = id_string(&h.id);
    proof {
        reveal_strlit("LIST");
        reveal_strlit("adtl");
    }
    if str_eq(id.as_str(), "LIST") {
        let ty: Result<String, String> = match riff_read_type(bytes, h.offset) {
            Ok(t) => Ok(id_string(&t)),
            Err(e) => Err(e),
        };
        let adtl = match &ty {
            Ok(t) => str_eq(t.as_str(), "adtl"),
            Err(_) => false,
        };
        let subs: Result<Vec<RiffChunk>, String> = if adtl {
            match riff_children(bytes, h.offset) {
                Ok(hs) => {
                    proof {
                        lemma_walk_heads(bytes@, h.offset + 12, h.offset + 4 + h.len);
                        assert forall|k: int| 0 <= k < hs@.len() implies head_at(bytes@, (#[trigger] hs@[k]).offset as int) == Some(head_view(hs@[k])) by {
                            assert(heads_view(hs@)[k] == head_view(hs@[k]));
                        }
                    }
                    Ok(read_subs(bytes, &hs))
                },
                Err(e) => Err(e),
            }
        } else {
            Ok(Vec::new())
        };
        RiffChunk { id, body: ChunkBody::List(ty, subs) }
    } else if payload_needed(id.as_str()) {
        RiffChunk { id, body: ChunkBody::Payload(riff_read_contents(bytes, h.offset)) }
    } else {
        RiffChunk { id, body: ChunkBody::Unread }
    }
}

/// The top-level chunks of a RIFF file: the root header at the start, then
/// the chunks inside it, each with what the metadata needs of it. An error
/// when the file is shorter than a header (`Failed to read RIFF: `) or a
/// chunk header inside the root is cut short (`Failed to iterate chunks: `).
pub fn riff_chunks(bytes: &[u8]) -> (r: Result<Vec<RiffChunk>, String>)
    ensures
        bytes@.len() < 8 ==> (r matches Err(e) && "Failed to read RIFF: "@.is_prefix_of(e@)),
        bytes@.len() >= 8 ==> match walk_from(bytes@, 12, 4 + le32(bytes@, 4)) {
            Err(_) => r matches Err(e) && "Failed to iterate chunks: "@.is_prefix_of(e@),
            Ok(hs) => r matches Ok(v) && tops_match(bytes@, hs, v@),
        },
{
    let root = riff_read_head(bytes, 0);
    match root {
        Err(e) => {
            let m = join2("Failed to read RIFF: ", e.as_str());
            assert("Failed to read RIFF: "@.is_prefix_of(m@)) by {
                assert(m@.subrange(0, "Failed to read RIFF: "@.len() as int) =~= "Failed to read RIFF: "@);
            }
            return Err(m);
        },
        Ok(_) => {},
    }
    let heads = match riff_children(bytes, 0) {
        Ok(v) => v,
        Err(e) => {
            let m = join2("Failed to iterate chunks: ", e.as_str());
            assert("Failed to iterate chunks: "@.is_prefix_of(m@)) by {
                assert(m@.subrange(0, "Failed to iterate chunks: "@.len() as int) =~= "Failed to iterate chunks: "@);
            }
            return Err(m);
        },
    };
    proof {
        lemma_walk_heads(bytes@, 12, 4 + le32(bytes@, 4));
    }
    let mut out: Vec<RiffChunk> = Vec::new();
    let mut i: usize = 0;
    while i < heads.len()
        invariant
            i <= heads@.len(),
            out@.len() == i,
            forall|k: int| 0 <= k < heads_view(heads@).len() ==> head_at(bytes@, (#[trigger] heads_view(heads@)[k]).0) == Some(heads_view(heads@)[k]),
            forall|k: int| 0 <= k < i ==> #[trigger] top_matches(bytes@, heads_view(heads@)[k], out@[k]),
        decreases heads@.len() - i,
    {
        let h = &heads[i];
        proof {
            assert(heads_view(heads@)[i as int] == head_view(*h));
        }
        let c = read_top(bytes, h);
        out.push(c);
        i = i + 1;
    }
    Ok(out)
}

/// The metadata outcome `r` is that of the chunk list `cs` for a file of
/// `frames` frames.
pub open spec fn outcome_of(r: Result<WavInfo, String>, cs: Seq<RiffChunk>, frames: u64) -> bool {
    match wav_outcome(cs) {
        Ok(st) => r matches Ok(info) && describes_scan(info, st, frames),
        Err(e) => r matches Err(m) && m@ == e,
    }
}

/// Reads the sampler metadata of a WAV file from its bytes: the RIFF
/// chunks, then the metadata they hold. The errors of the chunk walk come
/// first; then those of the metadata, as `extract_from_chunks` gives them.
pub fn extract(bytes: &[u8], total_data_frames: u64) -> (r: Result<WavInfo, String>)
    ensures
        bytes@.len() < 8 ==> (r matches Err(e) && "Failed to read RIFF: "@.is_prefix_of(e@)),
        bytes@.len() >= 8 ==> match walk_from(bytes@, 12, 4 + le32(bytes@, 4)) {
            Err(_) => r matches Err(e) && "Failed to iterate chunks: "@.is_prefix_of(e@),
            Ok(hs) => exists|cs: Seq<RiffChunk>| tops_match(bytes@, hs, cs) && outcome_of(r, cs, total_data_frames),
        },
{
    match riff_chunks(bytes) {
        Err(e) => Err(e),
        Ok(chunks) => {
            let r = extract_from_chunks(chunks.as_slice(), total_data_frames);
            proof {
                assert(outcome_of(r, chunks@, total_data_frames));
            }
            r
        },
    }
}

} // verus!
