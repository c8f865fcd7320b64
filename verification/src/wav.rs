//! RIFF/WAVE byte parsing: little-endian fields and the vendor chunks that
//! mark a file as a wavetable with a given frame size.

use vstd::prelude::*;
use crate::text::{join2, str_eq};

verus! {

/// The little-endian 16-bit value at `offset`.
pub open spec fn le16(data: Seq<u8>, offset: int) -> int {
    data[offset] + 256 * data[offset + 1]
}

/// The little-endian 32-bit value at `offset`.
pub open spec fn le32(data: Seq<u8>, offset: int) -> int {
    data[offset] + 256 * data[offset + 1] + 65536 * data[offset + 2] + 16777216 * data[offset + 3]
}

/// Reads a little-endian `u16` at `offset`.
pub fn read_u16_le(data: &[u8], offset: usize) -> (r: u16)
    requires
        offset + 2 <= data@.len(),
    ensures
        r == le16(data@, offset as int),
{
    let a = data[offset];
    let b = data[offset + 1];
    let r: u16 = (a as u16) | ((b as u16) << 8u16);
    assert(r == a + 256 * b) by (bit_vector)
        requires r == (a as u16) | ((b as u16) << 8u16);
    r
}

/// Reads a little-endian `u32` at `offset`.
pub fn read_u32_le(data: &[u8], offset: usize) -> (r: u32)
    requires
        offset + 4 <= data@.len(),
    ensures
        r == le32(data@, offset as int),
{
    let a = data[offset];
    let b = data[offset + 1];
    let c = data[offset + 2];
    let d = data[offset + 3];
    let r: u32 = (a as u32) | ((b as u32) << 8u32) | ((c as u32) << 16u32) | ((d as u32) << 24u32);
    assert(r == a + 256 * b + 65536 * c + 16777216 * d) by (bit_vector)
        requires r == (a as u32) | ((b as u32) << 8u32) | ((c as u32) << 16u32) | ((d as u32) << 24u32);
    r
}

/// The four bytes at `pos` are `t`.
pub open spec fn tag_at(data: Seq<u8>, pos: int, t: Seq<u8>) -> bool {
    0 <= pos && pos + 4 <= data.len() && data.subrange(pos, pos + 4) == t
}

pub open spec fn riff_tag() -> Seq<u8> { seq![0x52u8, 0x49u8, 0x46u8, 0x46u8] }
pub open spec fn wave_tag() -> Seq<u8> { seq![0x57u8, 0x41u8, 0x56u8, 0x45u8] }
/// Serum's chunk: `clm `.
pub open spec fn clm_tag() -> Seq<u8> { seq![0x63u8, 0x6cu8, 0x6du8, 0x20u8] }
/// u-he Hive's chunk: `uhWT`.
pub open spec fn uhwt_tag() -> Seq<u8> { seq![0x75u8, 0x68u8, 0x57u8, 0x54u8] }
/// Surge's chunk: `srge`.
pub open spec fn srge_tag() -> Seq<u8> { seq![0x73u8, 0x72u8, 0x67u8, 0x65u8] }

fn has_tag(data: &[u8], pos: usize, t0: u8, t1: u8, t2: u8, t3: u8) -> (r: bool)
    ensures
        r == tag_at(data@, pos as int, seq![t0, t1, t2, t3]),
{
    if pos <= data.len() && data.len() - pos >= 4 {
        let r = data[pos] == t0 && data[pos + 1] == t1 && data[pos + 2] == t2 && data[pos + 3] == t3;
        proof {
            let w = data@.subrange(pos as int, pos + 4);
            if r {
                assert(w =~= seq![t0, t1, t2, t3]);
            } else {
                if w == seq![t0, t1, t2, t3] {
                    assert(w[0] == t0 && w[1] == t1 && w[2] == t2 && w[3] == t3);
                }
            }
        }
        r
    } else {
        false
    }
}

pub open spec fn is_digit(b: u8) -> bool {
    0x30 <= b <= 0x39
}

/// How many ASCII digits `s` starts with.
pub open spec fn digit_run(s: Seq<u8>) -> nat
    decreases s.len(),
{
    if s.len() > 0 && is_digit(s[0]) {
        1 + digit_run(s.drop_first())
    } else {
        0
    }
}

/// The decimal value of a run of ASCII digits.
pub open spec fn digits_value(s: Seq<u8>) -> nat
    decreases s.len(),
{
    if s.len() == 0 {
        0
    } else {
        digits_value(s.drop_last()) * 10 + (s.last() - 0x30) as nat
    }
}

/// The frame size in Serum's `clm ` payload (its first 256 bytes): `<!>`,
/// then decimal digits ended by a non-digit within the bytes read, giving a
/// positive value that fits a `usize`.
pub open spec fn clm_frame_size(buf: Seq<u8>) -> Option<usize> {
    if buf.len() >= 3 && buf[0] == 0x3c && buf[1] == 0x21 && buf[2] == 0x3e {
        let rest = buf.skip(3);
        let k = digit_run(rest);
        let v = digits_value(rest.take(k as int));
        if 0 < k < rest.len() && 0 < v <= usize::MAX {
            Some(v as usize)
        } else {
            None
        }
    } else {
        None
    }
}

/// The wavetable frame size found by walking the chunks from `pos`: each
/// chunk is a 4-byte id, a little-endian 32-bit size and a payload padded
/// to even length. The first `clm ` chunk with a frame size, `uhWT`
/// (2048), or `srge` chunk of version 1 with a positive frame size decides;
/// running out of bytes gives none.
pub open spec fn scan_chunks(data: Seq<u8>, pos: int) -> Option<usize>
    decreases data.len() - pos,
{
    if pos < 0 || pos + 8 > data.len() {
        None
    } else {
        let size = le32(data, pos + 4);
        let body = pos + 8;
        let next = body + size + size % 2;
        let rest = if next <= data.len() { scan_chunks(data, next) } else { None };
        if tag_at(data, pos, clm_tag()) {
            let n = if size < 256 { size } else { 256 };
            if body + n > data.len() {
                None
            } else {
                match clm_frame_size(data.subrange(body, body + n)) {
                    Some(f) => Some(f),
                    None => rest,
                }
            }
        } else if tag_at(data, pos, uhwt_tag()) {
            Some(2048)
        } else if tag_at(data, pos, srge_tag()) && size >= 8 {
            if body + 8 > data.len() {
                None
            } else {
                let version = le32(data, body);
                let frame = le32(data, body + 4);
                if version == 1 && 0 < frame < 0x8000_0000 {
                    Some(frame as usize)
                } else {
                    rest
                }
            }
        } else {
            rest
        }
    }
}

/// The wavetable frame size of a WAV file's bytes: none unless it starts
/// with a `RIFF` header of form `WAVE`.
pub open spec fn wavetable_frame_size(data: Seq<u8>) -> Option<usize> {
    if tag_at(data, 0, riff_tag()) && tag_at(data, 8, wave_tag()) {
        scan_chunks(data, 12)
    } else {
        None
    }
}

proof fn lemma_digit_run(s: Seq<u8>, m: int)
    requires
        0 <= m <= s.len(),
        forall|j: int| 0 <= j < m ==> is_digit(#[trigger] s[j]),
        m == s.len() || !is_digit(s[m]),
    ensures
        digit_run(s) == m,
    decreases m,
{
    if m > 0 {
        let t = s.drop_first();
        assert forall|j: int| 0 <= j < m - 1 implies is_digit(#[trigger] t[j]) by {
            assert(t[j] == s[j + 1]);
        }
        if m < s.len() {
            assert(t[m - 1] == s[m]);
        }
        lemma_digit_run(t, m - 1);
    }
}

/// Serum's frame size in the bytes read from a `clm ` payload.
fn clm_frame_size_of(buf: &[u8]) -> (r: Option<usize>)
    ensures
        r == clm_frame_size(buf@),
{
    if buf.len() < 3 || buf[0] != 0x3c || buf[1] != 0x21 || buf[2] != 0x3e {
        return None;
    }
    let ghost rest = buf@.skip(3);
    let mut k: usize = 3;
    let mut v: usize = 0;
    let mut overflow = false;
    while k < buf.len() && buf[k] >= 0x30 && buf[k] <= 0x39
        invariant
            3 <= k <= buf@.len(),
            rest == buf@.skip(3),
            forall|j: int| 0 <= j < k - 3 ==> is_digit(#[trigger] rest[j]),
            !overflow ==> v == digits_value(rest.take(k - 3)),
            overflow ==> digits_value(rest.take(k - 3)) > usize::MAX,
        decreases buf@.len() - k,
    {
        let d = (buf[k] - 0x30) as usize;
        proof {
            assert(rest.take(k - 2).drop_last() =~= rest.take(k - 3));
            assert(rest.take(k - 2).last() == buf@[k as int]);
            let prev = digits_value(rest.take(k - 3));
            assert(prev * 10 + d >= prev) by (nonlinear_arith)
                requires prev >= 0, d >= 0;
        }
        if !overflow {
            match v.checked_mul(10) {
                Some(t) => match t.checked_add(d) {
                    Some(u) => {
                        v = u;
                    },
                    None => {
                        overflow = true;
                    },
                },
                None => {
                    proof {
                        assert(v * 10 + d >= v * 10) by (nonlinear_arith)
                            requires d >= 0;
                    }
                    overflow = true;
                },
            }
        }
        k = k + 1;
    }
    proof {
        lemma_digit_run(rest, k - 3);
    }
    if k > 3 && k < buf.len() && !overflow && v > 0 {
        Some(v)
    } else {
        None
    }
}

/// The wavetable frame size of a WAV file's bytes, from Serum (`clm `),
/// u-he Hive (`uhWT`) or Surge (`srge`) chunks; `None` for anything that
/// is not a WAV file or carries no such metadata.
pub fn detect_wavetable_frame_size(data: &[u8]) -> (r: Option<usize>)
    ensures
        r == wavetable_frame_size(data@),
{
    if !(has_tag(data, 0, 0x52, 0x49, 0x46, 0x46) && has_tag(data, 8, 0x57, 0x41, 0x56, 0x45)) {
        return None;
    }
    let mut pos: usize = 12;
    loop
        invariant
            pos <= data@.len(),
            wavetable_frame_size(data@) == scan_chunks(data@, pos as int),
        decreases data@.len() - pos,
    {
        if data.len() - pos < 8 {
            return None;
        }
        let size = read_u32_le(data, pos + 4);
        let body = pos + 8;
        let room = data.len() - body;
        let skip: u64 = (size as u64) + ((size % 2) as u64);
        let has_next = skip <= room as u64;
        let ghost next = body + size + size % 2;
        if has_tag(data, pos, 0x63, 0x6c, 0x6d, 0x20) {
            let n: usize = if size < 256 { size as usize } else { 256 };
            if n > room {
                return None;
            }
            let buf = vstd::slice::slice_subrange(data, body, body + n);
            match clm_frame_size_of(buf) {
                Some(f) => {
                    return Some(f);
                },
                None => {},
            }
        } else if has_tag(data, pos, 0x75, 0x68, 0x57, 0x54) {
            return Some(2048);
        } else if has_tag(data, pos, 0x73, 0x72, 0x67, 0x65) && size >= 8 {
            if room < 8 {
                return None;
            }
            let version = read_u32_le(data, body);
            let frame = read_u32_le(data, body + 4);
            if version == 1 && frame > 0 && frame < 0x8000_0000 {
                return Some(frame as usize);
            }
        }
        if !has_next {
            return None;
        }
        pos = body + (skip as usize);
        assert(pos == next);
    }
}

// ---------------------------------------------------------------------------
// Sampler metadata in RIFF chunks
// ---------------------------------------------------------------------------

/// How a sample plays, from its Acid chunk.
#[derive(Clone, Copy, Debug, PartialEq, Eq, Structural)]
pub enum PlaybackMode {
    OneShot,
    Loop,
}

/// The direction of a sampler loop.
#[derive(Clone, Copy, Debug, PartialEq, Eq, Structural)]
pub enum LoopType {
    Forward,
    PingPong,
    Backward,
}

/// A sampler loop, in sample frames.
#[derive(Clone, Copy, Debug, PartialEq, Eq, Structural)]
pub struct SampleLoop {
    pub loop_type: LoopType,
    pub start_sample: u32,
    pub end_sample: u32,
}

/// Where the pitch of a sample comes from.
#[derive(Clone, Copy, Debug, PartialEq, Eq, Structural)]
pub enum PitchSource {
    /// The sampler chunk's MIDI unity note and its fraction of a semitone in 1/2^32 steps.
    Sampler { midi_unity_note: u32, pitch_fraction: u32 },
    /// The Acid chunk's root note.
    RootNote(u16),
}

/// A cue point: its position in sample frames and its label.
pub struct CueMark {
    pub sample_offset: u32,
    pub label: String,
}

/// What a RIFF chunk holds as it was read from the file.
pub enum ChunkBody {
    /// The payload, or the error met reading it.
    Payload(Result<Vec<u8>, String>),
    /// A `LIST` chunk: its form type or the error reading it, and the
    /// sub-chunks of an `adtl` list or the error met walking them.
    List(Result<String, String>, Result<Vec<RiffChunk>, String>),
    /// A chunk whose payload was not read.
    Unread,
}

/// A RIFF chunk: its four-character id and what it holds.
pub struct RiffChunk {
    pub id: String,
    pub body: ChunkBody,
}

/// The sampler metadata of a WAV file, with its numbers as stored.
pub struct WavInfo {
    pub sample_rate: u32,
    pub frame_count: u64,
    pub bit_depth: u16,
    pub pitch: Option<PitchSource>,
    pub playback: Option<PlaybackMode>,
    /// The Acid tempo as the bits of an `f32`, kept only when it is positive.
    pub tempo_bits: Option<u32>,
    pub beats: Option<u32>,
    pub time_signature: Option<(u16, u16)>,
    pub loops: Vec<SampleLoop>,
    pub cue_points: Vec<CueMark>,
}

/// What the chunks read so far say.
pub struct ScanState {
    /// Channels, sample rate and bit depth.
    pub fmt: Option<(u16, u32, u16)>,
    /// MIDI unity note and pitch fraction.
    pub smpl: Option<(u32, u32)>,
    pub loops: Seq<SampleLoop>,
    pub acid_root: Option<u16>,
    pub playback: Option<PlaybackMode>,
    pub tempo_bits: Option<u32>,
    pub beats: Option<u32>,
    pub time_signature: Option<(u16, u16)>,
    /// Cue ids with their sample offsets.
    pub cues: Seq<(u32, u32)>,
    /// Labels by cue id; a later label replaces an earlier one.
    pub labels: Seq<(u32, Seq<char>)>,
}

pub open spec fn empty_scan() -> ScanState {
    ScanState {
        fmt: None,
        smpl: None,
        loops: Seq::empty(),
        acid_root: None,
        playback: None,
        tempo_bits: None,
        beats: None,
        time_signature: None,
        cues: Seq::empty(),
        labels: Seq::empty(),
    }
}

pub open spec fn fmt_id() -> Seq<char> { "fmt "@ }
pub open spec fn smpl_id() -> Seq<char> { "smpl"@ }
pub open spec fn cue_id() -> Seq<char> { "cue "@ }
pub open spec fn acid_id() -> Seq<char> { "acid"@ }
pub open spec fn list_id() -> Seq<char> { "LIST"@ }
pub open spec fn adtl_id() -> Seq<char> { "adtl"@ }
pub open spec fn labl_id() -> Seq<char> { "labl"@ }

/// The loop type stored in a sampler loop: 1 is ping-pong, 2 backward,
/// anything else forward.
pub open spec fn loop_type_of(v: int) -> LoopType {
    if v == 1 {
        LoopType::PingPong
    } else if v == 2 {
        LoopType::Backward
    } else {
        LoopType::Forward
    }
}

/// The sampler loops from loop `i` on: at most `n` loops of 24 bytes after
/// the 36-byte header, stopping at the first that does not fit.
pub open spec fn smpl_loops(d: Seq<u8>, i: nat, n: nat) -> Seq<SampleLoop>
    decreases n - i,
{
    let base: int = 36 + 24 * i as int;
    if i >= n || base + 16 > d.len() {
        Seq::empty()
    } else {
        seq![SampleLoop {
            loop_type: loop_type_of(le32(d, base + 4)),
            start_sample: le32(d, base + 8) as u32,
            end_sample: le32(d, base + 12) as u32,
        }] + smpl_loops(d, i + 1, n)
    }
}

/// The cue entries from entry `i` on: at most `n` entries of 24 bytes
/// after the 4-byte count, stopping at the first that does not fit.
pub open spec fn cue_entries(d: Seq<u8>, i: nat, n: nat) -> Seq<(u32, u32)>
    decreases n - i,
{
    let base: int = 4 + 24 * i as int;
    if i >= n || base + 24 > d.len() {
        Seq::empty()
    } else {
        seq![(le32(d, base) as u32, le32(d, base + 20) as u32)] + cue_entries(d, i + 1, n)
    }
}

/// An `f32` with these bits is greater than zero.
pub open spec fn positive_f32_bits(bits: u32) -> bool {
    0 < bits <= 0x7F80_0000
}

/// How many bytes of `s` come before its first zero byte.
pub open spec fn nul_end(s: Seq<u8>) -> nat
    decreases s.len(),
{
    if s.len() == 0 || s[0] == 0 {
        0
    } else {
        1 + nul_end(s.drop_first())
    }
}

/// Bytes decoded as UTF-8: valid UTF-8 as it decodes, anything else as
/// `String::from_utf8_lossy` replaces it.
pub open spec fn utf8_text(bytes: Seq<u8>) -> Seq<char> {
    if vstd::utf8::valid_utf8(bytes) {
        vstd::utf8::decode_utf8(bytes)
    } else {
        lossy_utf8(bytes)
    }
}

/// The text of a `labl` payload: the bytes after the cue id up to the first
/// zero byte, decoded as UTF-8 with invalid sequences replaced.
pub open spec fn label_text(d: Seq<u8>) -> Seq<char> {
    let t = d.skip(4);
    utf8_text(t.take(nul_end(t) as int))
}

/// The text that `String::from_utf8_lossy` makes of some bytes.
pub uninterp spec fn lossy_utf8(bytes: Seq<u8>) -> Seq<char>;

/// Decodes bytes as UTF-8, replacing invalid sequences (`String::from_utf8_lossy`).
#[verifier::external_body]
pub(crate) fn utf8_lossy(bytes: &[u8]) -> (r: String)
    ensures
        r@ == lossy_utf8(bytes@),
        vstd::utf8::valid_utf8(bytes@) ==> r@ == vstd::utf8::decode_utf8(bytes@),
{
    String::from_utf8_lossy(bytes).into_owned()
}

pub open spec fn fmt_step(st: ScanState, d: Seq<u8>) -> Result<ScanState, Seq<char>> {
    if d.len() < 16 {
        Err("fmt chunk too short"@)
    } else {
        Ok(ScanState { fmt: Some((le16(d, 2) as u16, le32(d, 4) as u32, le16(d, 14) as u16)), ..st })
    }
}

pub open spec fn smpl_step(st: ScanState, d: Seq<u8>) -> ScanState {
    if d.len() >= 36 {
        ScanState {
            smpl: Some((le32(d, 12) as u32, le32(d, 16) as u32)),
            loops: st.loops + smpl_loops(d, 0, le32(d, 28) as nat),
            ..st
        }
    } else {
        st
    }
}

pub open spec fn cue_step(st: ScanState, d: Seq<u8>) -> ScanState {
    if d.len() >= 4 {
        ScanState { cues: st.cues + cue_entries(d, 0, le32(d, 0) as nat), ..st }
    } else {
        st
    }
}

pub open spec fn acid_step(st: ScanState, d: Seq<u8>) -> ScanState {
    if d.len() >= 24 {
        let flags = le32(d, 0);
        ScanState {
            playback: Some(if flags % 2 == 1 { PlaybackMode::OneShot } else { PlaybackMode::Loop }),
            acid_root: if (flags / 2) % 2 == 1 { Some(le16(d, 4) as u16) } else { st.acid_root },
            tempo_bits: if positive_f32_bits(le32(d, 20) as u32) { Some(le32(d, 20) as u32) } else { None },
            beats: Some(le32(d, 12) as u32),
            time_signature: Some((le16(d, 16) as u16, le16(d, 18) as u16)),
            ..st
        }
    } else {
        st
    }
}

pub open spec fn labl_step(st: ScanState, d: Seq<u8>) -> ScanState {
    if d.len() >= 4 {
        ScanState {
            labels: st.labels.push((le32(d, 0) as u32, if d.len() > 4 { label_text(d) } else { Seq::empty() })),
            ..st
        }
    } else {
        st
    }
}

/// The labels in the sub-chunks of an `adtl` list, read in order.
pub open spec fn adtl_scan(st: ScanState, subs: Seq<RiffChunk>) -> Result<ScanState, Seq<char>>
    decreases subs.len(),
{
    if subs.len() == 0 {
        Ok(st)
    } else {
        match adtl_scan(st, subs.drop_last()) {
            Err(e) => Err(e),
            Ok(s2) => {
                let c = subs.last();
                if c.id@ == labl_id() {
                    match c.body {
                        ChunkBody::Payload(Err(e)) => Err("Failed to read labl: "@ + e@),
                        ChunkBody::Payload(Ok(d)) => Ok(labl_step(s2, d@)),
                        _ => Ok(s2),
                    }
                } else {
                    Ok(s2)
                }
            },
        }
    }
}

/// The effect of one top-level chunk; a payload that could not be read
/// stops the scan with an error naming the chunk.
pub open spec fn chunk_step(st: ScanState, c: RiffChunk) -> Result<ScanState, Seq<char>> {
    let id = c.id@;
    match c.body {
        ChunkBody::Payload(Err(e)) => {
            if id == fmt_id() {
                Err("Failed to read fmt: "@ + e@)
            } else if id == smpl_id() {
                Err("Failed to read smpl: "@ + e@)
            } else if id == cue_id() {
                Err("Failed to read cue: "@ + e@)
            } else if id == acid_id() {
                Err("Failed to read acid: "@ + e@)
            } else {
                Ok(st)
            }
        },
        ChunkBody::Payload(Ok(d)) => {
            if id == fmt_id() {
                fmt_step(st, d@)
            } else if id == smpl_id() {
                Ok(smpl_step(st, d@))
            } else if id == cue_id() {
                Ok(cue_step(st, d@))
            } else if id == acid_id() {
                Ok(acid_step(st, d@))
            } else {
                Ok(st)
            }
        },
        ChunkBody::List(ty, subs) => {
            if id == list_id() {
                match ty {
                    Err(e) => Err("Failed to read LIST type: "@ + e@),
                    Ok(t) => if t@ == adtl_id() {
                        match subs {
                            Err(e) => Err("Failed to iterate adtl: "@ + e@),
                            Ok(v) => adtl_scan(st, v@),
                        }
                    } else {
                        Ok(st)
                    },
                }
            } else {
                Ok(st)
            }
        },
        ChunkBody::Unread => Ok(st),
    }
}

/// The chunks read in order, stopping at the first error.
pub open spec fn scan(chunks: Seq<RiffChunk>) -> Result<ScanState, Seq<char>>
    decreases chunks.len(),
{
    if chunks.len() == 0 {
        Ok(empty_scan())
    } else {
        match scan(chunks.drop_last()) {
            Err(e) => Err(e),
            Ok(st) => chunk_step(st, chunks.last()),
        }
    }
}

/// The label of cue `id`: the last one given for it, or empty.
pub open spec fn label_for(labels: Seq<(u32, Seq<char>)>, id: u32) -> Seq<char>
    decreases labels.len(),
{
    if labels.len() == 0 {
        Seq::empty()
    } else if labels.last().0 == id {
        labels.last().1
    } else {
        label_for(labels.drop_last(), id)
    }
}

/// The cue points, in the order of the cue chunk entries, with their labels.
pub open spec fn cue_marks(st: ScanState) -> Seq<(u32, Seq<char>)> {
    st.cues.map_values(|c: (u32, u32)| (c.1, label_for(st.labels, c.0)))
}

/// The sampler chunk's pitch, else the Acid root note's.
pub open spec fn pitch_of(st: ScanState) -> Option<PitchSource> {
    match st.smpl {
        Some((n, f)) => Some(PitchSource::Sampler { midi_unity_note: n, pitch_fraction: f }),
        None => match st.acid_root {
            Some(r) => Some(PitchSource::RootNote(r)),
            None => None,
        },
    }
}

/// The outcome of reading a file's chunks: the scan, which must have met a
/// `fmt ` chunk.
pub open spec fn wav_outcome(chunks: Seq<RiffChunk>) -> Result<ScanState, Seq<char>> {
    match scan(chunks) {
        Err(e) => Err(e),
        Ok(st) => if st.fmt is None {
            Err("Missing fmt chunk"@)
        } else {
            Ok(st)
        },
    }
}

pub open spec fn cue_views(s: Seq<CueMark>) -> Seq<(u32, Seq<char>)> {
    s.map_values(|c: CueMark| (c.sample_offset, c.label@))
}

/// The metadata describes the scan result `st` of a file with `frames` frames.
pub open spec fn describes_scan(info: WavInfo, st: ScanState, frames: u64) -> bool {
    &&& st.fmt matches Some((_, rate, depth)) && info.sample_rate == rate && info.bit_depth == depth
    &&& info.frame_count == frames
    &&& info.pitch == pitch_of(st)
    &&& info.playback == st.playback
    &&& info.tempo_bits == st.tempo_bits
    &&& info.beats == st.beats
    &&& info.time_signature == st.time_signature
    &&& info.loops@ == st.loops
    &&& cue_views(info.cue_points@) == cue_marks(st)
}

/// Whether the payload of a sub-chunk of an `adtl` list with this id is needed.
pub fn label_payload_needed(id: &str) -> (r: bool)
    ensures
        r == (id@ == labl_id()),
{
    str_eq(id, "labl")
}

/// Whether the payload of a top-level chunk with this id is needed.
pub fn payload_needed(id: &str) -> (r: bool)
    ensures
        r == (id@ == fmt_id() || id@ == smpl_id() || id@ == cue_id() || id@ == acid_id()),
{
    proof {
        reveal_strlit("fmt ");
        reveal_strlit("smpl");
        reveal_strlit("cue ");
        reveal_strlit("acid");
    }
    str_eq(id, "fmt ") || str_eq(id, "smpl") || str_eq(id, "cue ") || str_eq(id, "acid")
}

/// The scan of the chunks read so far.
struct WavScan {
    fmt: Option<(u16, u32, u16)>,
    smpl: Option<(u32, u32)>,
    loops: Vec<SampleLoop>,
    acid_root: Option<u16>,
    playback: Option<PlaybackMode>,
    tempo_bits: Option<u32>,
    beats: Option<u32>,
    time_signature: Option<(u16, u16)>,
    cues: Vec<(u32, u32)>,
    labels: Vec<(u32, String)>,
}

spec fn label_views(s: Seq<(u32, String)>) -> Seq<(u32, Seq<char>)> {
    s.map_values(|l: (u32, String)| (l.0, l.1@))
}

impl WavScan {
    spec fn state(&self) -> ScanState {
        ScanState {
            fmt: self.fmt,
            smpl: self.smpl,
            loops: self.loops@,
            acid_root: self.acid_root,
            playback: self.playback,
            tempo_bits: self.tempo_bits,
            beats: self.beats,
            time_signature: self.time_signature,
            cues: self.cues@,
            labels: label_views(self.labels@),
        }
    }
}

fn read_fmt(st: &mut WavScan, d: &Vec<u8>) -> (r: Result<(), String>)
    ensures
        match fmt_step(old(st).state(), d@) {
            Ok(s2) => r is Ok && final(st).state() == s2,
            Err(e) => r matches Err(m) && m@ == e,
        },
{
    if d.len() < 16 {
        proof {
            reveal_strlit("fmt chunk too short");
        }
        return Err(String::from_str("fmt chunk too short"));
    }
    let ch = read_u16_le(d.as_slice(), 2);
    let rate = read_u32_le(d.as_slice(), 4);
    let depth = read_u16_le(d.as_slice(), 14);
    st.fmt = Some((ch, rate, depth));
    Ok(())
}

/// The loops of a sampler chunk.
fn smpl_loop_list(d: &Vec<u8>, num_loops: u32) -> (r: Vec<SampleLoop>)
    ensures
        r@ == smpl_loops(d@, 0, num_loops as nat),
{
    let mut out: Vec<SampleLoop> = Vec::new();
    let mut i: u32 = 0;
    let mut base: usize = 36;
    let mut fits = d.len() >= 52;
    while i < num_loops && fits
        invariant
            i <= num_loops,
            d@.len() <= usize::MAX,
            fits ==> base == 36 + 24 * i && base + 16 <= d@.len(),
            !fits ==> 36 + 24 * i + 16 > d@.len(),
            out@ + smpl_loops(d@, i as nat, num_loops as nat) == smpl_loops(d@, 0, num_loops as nat),
        decreases num_loops - i,
    {
        let lt = read_u32_le(d.as_slice(), base + 4);
        let a = read_u32_le(d.as_slice(), base + 8);
        let b = read_u32_le(d.as_slice(), base + 12);
        let loop_type = if lt == 1 {
            LoopType::PingPong
        } else if lt == 2 {
            LoopType::Backward
        } else {
            LoopType::Forward
        };
        let ghost before = out@;
        out.push(SampleLoop { loop_type, start_sample: a, end_sample: b });
        proof {
            assert(smpl_loops(d@, i as nat, num_loops as nat) =~= seq![out@.last()]
                + smpl_loops(d@, (i + 1) as nat, num_loops as nat));
            assert(out@ =~= before.push(out@.last()));
            assert(before + smpl_loops(d@, i as nat, num_loops as nat)
                =~= out@ + smpl_loops(d@, (i + 1) as nat, num_loops as nat));
        }
        i = i + 1;
        if d.len() - base >= 40 {
            base = base + 24;
        } else {
            fits = false;
        }
    }
    proof {
        assert(smpl_loops(d@, i as nat, num_loops as nat) =~= Seq::<SampleLoop>::empty());
        assert(out@ + smpl_loops(d@, i as nat, num_loops as nat) =~= out@);
    }
    out
}

fn read_smpl(st: &mut WavScan, d: &Vec<u8>)
    ensures
        final(st).state() == smpl_step(old(st).state(), d@),
{
    if d.len() < 36 {
        return;
    }
    let note = read_u32_le(d.as_slice(), 12);
    let fraction = read_u32_le(d.as_slice(), 16);
    let num_loops = read_u32_le(d.as_slice(), 28);
    st.smpl = Some((note, fraction));
    let mut more = smpl_loop_list(d, num_loops);
    st.loops.append(&mut more);
}

/// The entries of a cue chunk.
fn cue_entry_list(d: &Vec<u8>, num_cues: u32) -> (r: Vec<(u32, u32)>)
    ensures
        r@ == cue_entries(d@, 0, num_cues as nat),
{
    let mut out: Vec<(u32, u32)> = Vec::new();
    let mut i: u32 = 0;
    let mut base: usize = 4;
    let mut fits = d.len() >= 28;
    while i < num_cues && fits
        invariant
            i <= num_cues,
            d@.len() <= usize::MAX,
            fits ==> base == 4 + 24 * i && base + 24 <= d@.len(),
            !fits ==> 4 + 24 * i + 24 > d@.len(),
            out@ + cue_entries(d@, i as nat, num_cues as nat) == cue_entries(d@, 0, num_cues as nat),
        decreases num_cues - i,
    {
        let id = read_u32_le(d.as_slice(), base);
        let offset = read_u32_le(d.as_slice(), base + 20);
        let ghost before = out@;
        out.push((id, offset));
        proof {
            assert(cue_entries(d@, i as nat, num_cues as nat) =~= seq![(id, offset)]
                + cue_entries(d@, (i + 1) as nat, num_cues as nat));
            assert(before + cue_entries(d@, i as nat, num_cues as nat)
                =~= out@ + cue_entries(d@, (i + 1) as nat, num_cues as nat));
        }
        i = i + 1;
        if d.len() - base >= 48 {
            base = base + 24;
        } else {
            fits = false;
        }
    }
    proof {
        assert(cue_entries(d@, i as nat, num_cues as nat) =~= Seq::<(u32, u32)>::empty());
        assert(out@ + cue_entries(d@, i as nat, num_cues as nat) =~= out@);
    }
    out
}

fn read_cues(st: &mut WavScan, d: &Vec<u8>)
    ensures
        final(st).state() == cue_step(old(st).state(), d@),
{
    if d.len() < 4 {
        return;
    }
    let num_cues = read_u32_le(d.as_slice(), 0);
    let mut more = cue_entry_list(d, num_cues);
    st.cues.append(&mut more);
}

fn read_acid(st: &mut WavScan, d: &Vec<u8>)
    ensures
        final(st).state() == acid_step(old(st).state(), d@),
{
    if d.len() < 24 {
        return;
    }
    let flags = read_u32_le(d.as_slice(), 0);
    let root_note = read_u16_le(d.as_slice(), 4);
    let beats = read_u32_le(d.as_slice(), 12);
    let ts_num = read_u16_le(d.as_slice(), 16);
    let ts_den = read_u16_le(d.as_slice(), 18);
    let tempo = read_u32_le(d.as_slice(), 20);
    proof {
        assert((flags & 1 != 0) == (flags % 2 == 1)) by (bit_vector);
        assert((flags & 2 != 0) == ((flags / 2) % 2 == 1)) by (bit_vector);
    }
    if flags & 1 != 0 {
        st.playback = Some(PlaybackMode::OneShot);
    } else {
        st.playback = Some(PlaybackMode::Loop);
    }
    if flags & 2 != 0 {
        st.acid_root = Some(root_note);
    }
    st.tempo_bits = if tempo > 0 && tempo <= 0x7F80_0000 { Some(tempo) } else { None };
    st.beats = Some(beats);
    st.time_signature = Some((ts_num, ts_den));
}

proof fn lemma_nul_end(s: Seq<u8>, m: int)
    requires
        0 <= m <= s.len(),
        forall|j: int| 0 <= j < m ==> #[trigger] s[j] != 0,
        m == s.len() || s[m] == 0,
    ensures
        nul_end(s) == m,
    decreases m,
{
    if m > 0 {
        let t = s.drop_first();
        assert forall|j: int| 0 <= j < m - 1 implies #[trigger] t[j] != 0 by {
            assert(t[j] == s[j + 1]);
        }
        if m < s.len() {
            assert(t[m - 1] == s[m]);
        }
        lemma_nul_end(t, m - 1);
    }
}

fn read_label(st: &mut WavScan, d: &Vec<u8>)
    ensures
        final(st).state() == labl_step(old(st).state(), d@),
{
    if d.len() < 4 {
        return;
    }
    let id = read_u32_le(d.as_slice(), 0);
    let text = if d.len() > 4 {
        let mut k: usize = 4;
        while k < d.len() && d[k] != 0
            invariant
                4 <= k <= d@.len(),
                forall|j: int| 4 <= j < k ==> #[trigger] d@[j] != 0,
            decreases d@.len() - k,
        {
            k = k + 1;
        }
        proof {
            let t = d@.skip(4);
            assert forall|j: int| 0 <= j < k - 4 implies #[trigger] t[j] != 0 by {
                assert(t[j] == d@[j + 4]);
            }
            if k < d@.len() {
                assert(t[k - 4] == d@[k as int]);
            }
            lemma_nul_end(t, k - 4);
            assert(t.take(k - 4) =~= d@.subrange(4, k as int));
        }
        let bytes = vstd::slice::slice_subrange(d.as_slice(), 4, k);
        utf8_lossy(bytes)
    } else {
        String::new()
    };
    let ghost before = st.labels@;
    st.labels.push((id, text));
    proof {
        assert(label_views(st.labels@) =~= label_views(before).push((id, text@)));
    }
}

fn read_adtl(st: &mut WavScan, subs: &Vec<RiffChunk>) -> (r: Result<(), String>)
    ensures
        match adtl_scan(old(st).state(), subs@) {
            Ok(s2) => r is Ok && final(st).state() == s2,
            Err(e) => r matches Err(m) && m@ == e,
        },
{
    proof {
        reveal_strlit("labl");
        reveal_strlit("Failed to read labl: ");
    }
    let mut i: usize = 0;
    assert(subs@.take(0) =~= Seq::<RiffChunk>::empty());
    while i < subs.len()
        invariant
            i <= subs@.len(),
            adtl_scan(old(st).state(), subs@.take(i as int)) == Ok::<ScanState, Seq<char>>(st.state()),
        decreases subs@.len() - i,
    {
        proof {
            assert(subs@.take(i + 1).drop_last() =~= subs@.take(i as int));
            assert(subs@.take(i + 1).last() == subs@[i as int]);
        }
        let c = &subs[i];
        if str_eq(c.id.as_str(), "labl") {
            match &c.body {
                ChunkBody::Payload(Err(e)) => {
                    proof {
                        lemma_adtl_error_stays(old(st).state(), subs@, i as int + 1);
                    }
                    return Err(join2("Failed to read labl: ", e.as_str()));
                },
                ChunkBody::Payload(Ok(d)) => {
                    read_label(st, d);
                },
                _ => {},
            }
        }
        i = i + 1;
    }
    assert(subs@.take(subs@.len() as int) =~= subs@);
    Ok(())
}

/// Once the scan of the first `k` sub-chunks fails, the whole scan fails the same way.
proof fn lemma_adtl_error_stays(st: ScanState, subs: Seq<RiffChunk>, k: int)
    requires
        0 <= k <= subs.len(),
        adtl_scan(st, subs.take(k)) is Err,
    ensures
        adtl_scan(st, subs) == adtl_scan(st, subs.take(k)),
    decreases subs.len() - k,
{
    if k < subs.len() {
        assert(subs.take(k + 1).drop_last() =~= subs.take(k));
        lemma_adtl_error_stays(st, subs, k + 1);
    } else {
        assert(subs.take(k) =~= subs);
    }
}

/// Once the scan of the first `k` chunks fails, the whole scan fails the same way.
proof fn lemma_scan_error_stays(chunks: Seq<RiffChunk>, k: int)
    requires
        0 <= k <= chunks.len(),
        scan(chunks.take(k)) is Err,
    ensures
        scan(chunks) == scan(chunks.take(k)),
    decreases chunks.len() - k,
{
    if k < chunks.len() {
        assert(chunks.take(k + 1).drop_last() =~= chunks.take(k));
        lemma_scan_error_stays(chunks, k + 1);
    } else {
        assert(chunks.take(k) =~= chunks);
    }
}

fn read_chunk(st: &mut WavScan, c: &RiffChunk) -> (r: Result<(), String>)
    ensures
        match chunk_step(old(st).state(), *c) {
            Ok(s2) => r is Ok && final(st).state() == s2,
            Err(e) => r matches Err(m) && m@ == e,
        },
{
    proof {
        reveal_strlit("fmt ");
        reveal_strlit("smpl");
        reveal_strlit("cue ");
        reveal_strlit("acid");
        reveal_strlit("LIST");
        reveal_strlit("adtl");
        reveal_strlit("Failed to read fmt: ");
        reveal_strlit("Failed to read smpl: ");
        reveal_strlit("Failed to read cue: ");
        reveal_strlit("Failed to read acid: ");
        reveal_strlit("Failed to read LIST type: ");
        reveal_strlit("Failed to iterate adtl: ");
    }
    let id = c.id.as_str();
    match &c.body {
        ChunkBody::Payload(Err(e)) => {
            if str_eq(id, "fmt ") {
                Err(join2("Failed to read fmt: ", e.as_str()))
            } else if str_eq(id, "smpl") {
                Err(join2("Failed to read smpl: ", e.as_str()))
            } else if str_eq(id, "cue ") {
                Err(join2("Failed to read cue: ", e.as_str()))
            } else if str_eq(id, "acid") {
                Err(join2("Failed to read acid: ", e.as_str()))
            } else {
                Ok(())
            }
        },
        ChunkBody::Payload(Ok(d)) => {
            if str_eq(id, "fmt ") {
                read_fmt(st, d)
            } else if str_eq(id, "smpl") {
                read_smpl(st, d);
                Ok(())
            } else if str_eq(id, "cue ") {
                read_cues(st, d);
                Ok(())
            } else if str_eq(id, "acid") {
                read_acid(st, d);
                Ok(())
            } else {
                Ok(())
            }
        },
        ChunkBody::List(ty, subs) => {
            if str_eq(id, "LIST") {
                match ty {
                    Err(e) => Err(join2("Failed to read LIST type: ", e.as_str())),
                    Ok(t) => {
                        if str_eq(t.as_str(), "adtl") {
                            match subs {
                                Err(e) => Err(join2("Failed to iterate adtl: ", e.as_str())),
                                Ok(v) => read_adtl(st, v),
                            }
                        } else {
                            Ok(())
                        }
                    },
                }
            } else {
                Ok(())
            }
        },
        ChunkBody::Unread => Ok(()),
    }
}

/// The label of cue `id` among the labels read: the last one given for it, or empty.
fn find_label(labels: &Vec<(u32, String)>, id: u32) -> (r: String)
    ensures
        r@ == label_for(label_views(labels@), id),
{
    let mut i = labels.len();
    assert(label_views(labels@).take(labels@.len() as int) =~= label_views(labels@));
    while i > 0
        invariant
            i <= labels@.len(),
            label_for(label_views(labels@), id) == label_for(label_views(labels@).take(i as int), id),
        decreases i,
    {
        proof {
            assert(label_views(labels@).take(i as int).drop_last() =~= label_views(labels@).take(i - 1));
        }
        if labels[i - 1].0 == id {
            return labels[i - 1].1.clone();
        }
        i = i - 1;
    }
    String::new()
}

/// Reads the sampler metadata of a WAV file from its top-level chunks, in
/// file order: the format (`fmt `), the sampler chunk's pitch and loops
/// (`smpl`), cue points (`cue `) with their labels (`LIST` of form
/// `adtl`), and the Acid chunk's playback mode, root note, tempo, beats and
/// time signature (`acid`). The sampler pitch wins over the Acid root note.
/// A payload that could not be read, a `fmt ` chunk shorter than 16 bytes,
/// or no `fmt ` chunk at all is an error.
pub fn extract_from_chunks(chunks: &[RiffChunk], total_data_frames: u64) -> (r: Result<WavInfo, String>)
    ensures
        match wav_outcome(chunks@) {
            Ok(st) => r matches Ok(info) && describes_scan(info, st, total_data_frames),
            Err(e) => r matches Err(m) && m@ == e,
        },
{
    let mut st = WavScan {
        fmt: None,
        smpl: None,
        loops: Vec::new(),
        acid_root: None,
        playback: None,
        tempo_bits: None,
        beats: None,
        time_signature: None,
        cues: Vec::new(),
        labels: Vec::new(),
    };
    proof {
        assert(label_views(st.labels@) =~= Seq::<(u32, Seq<char>)>::empty());
        assert(st.loops@ =~= Seq::<SampleLoop>::empty());
        assert(st.cues@ =~= Seq::<(u32, u32)>::empty());
        assert(st.state() == empty_scan());
        assert(chunks@.take(0) =~= Seq::<RiffChunk>::empty());
    }
    let mut i: usize = 0;
    while i < chunks.len()
        invariant
            i <= chunks@.len(),
            scan(chunks@.take(i as int)) == Ok::<ScanState, Seq<char>>(st.state()),
        decreases chunks@.len() - i,
    {
        proof {
            assert(chunks@.take(i + 1).drop_last() =~= chunks@.take(i as int));
            assert(chunks@.take(i + 1).last() == chunks@[i as int]);
        }
        match read_chunk(&mut st, &chunks[i]) {
            Ok(()) => {},
            Err(e) => {
                proof {
                    lemma_scan_error_stays(chunks@, i + 1);
                }
                return Err(e);
            },
        }
        i = i + 1;
    }
    proof {
        assert(chunks@.take(chunks@.len() as int) =~= chunks@);
        reveal_strlit("Missing fmt chunk");
    }
    let (sample_rate, bit_depth) = match st.fmt {
        Some((_, rate, depth)) => (rate, depth),
        None => {
            return Err(String::from_str("Missing fmt chunk"));
        },
    };
    let pitch = match st.smpl {
        Some((n, f)) => Some(PitchSource::Sampler { midi_unity_note: n, pitch_fraction: f }),
        None => match st.acid_root {
            Some(root) => Some(PitchSource::RootNote(root)),
            None => None,
        },
    };
    let mut cue_points: Vec<CueMark> = Vec::new();
    let mut k: usize = 0;
    while k < st.cues.len()
        invariant
            k <= st.cues@.len(),
            cue_views(cue_points@) == cue_marks(st.state()).take(k as int),
        decreases st.cues@.len() - k,
    {
        let (id, offset) = st.cues[k];
        let label = find_label(&st.labels, id);
        let ghost before = cue_points@;
        cue_points.push(CueMark { sample_offset: offset, label });
        proof {
            assert(cue_views(cue_points@) =~= cue_views(before).push((offset, label@)));
            assert(cue_marks(st.state()).take(k + 1) =~= cue_marks(st.state()).take(k as int).push((offset, label@)));
        }
        k = k + 1;
    }
    proof {
        assert(cue_marks(st.state()).take(k as int) =~= cue_marks(st.state()));
    }
    Ok(WavInfo {
        sample_rate,
        frame_count: total_data_frames,
        bit_depth,
        pitch,
        playback: st.playback,
        tempo_bits: st.tempo_bits,
        beats: st.beats,
        time_signature: st.time_signature,
        loops: st.loops,
        cue_points,
    })
}


// ---------------------------------------------------------------------------
// Laws
// ---------------------------------------------------------------------------

/// The labels of an `adtl` list never touch the format.
proof fn lemma_adtl_keeps_fmt(st: ScanState, subs: Seq<RiffChunk>)
    ensures
        adtl_scan(st, subs) matches Ok(s2) ==> s2.fmt == st.fmt,
    decreases subs.len(),
{
    if subs.len() > 0 {
        lemma_adtl_keeps_fmt(st, subs.drop_last());
    }
}

/// Without a `fmt ` chunk, a scan that gets through leaves the format unknown.
proof fn lemma_scan_without_fmt(chunks: Seq<RiffChunk>)
    requires
        forall|i: int| 0 <= i < chunks.len() ==> (#[trigger] chunks[i]).id@ != fmt_id(),
    ensures
        scan(chunks) matches Ok(st) ==> st.fmt is None,
    decreases chunks.len(),
{
    if chunks.len() > 0 {
        let front = chunks.drop_last();
        assert forall|i: int| 0 <= i < front.len() implies (#[trigger] front[i]).id@ != fmt_id() by {
            assert(front[i] == chunks[i]);
        }
        lemma_scan_without_fmt(front);
        if let Ok(st) = scan(front) {
            let c = chunks.last();
            assert(c == chunks[chunks.len() - 1]);
            if let ChunkBody::List(ty, subs) = c.body {
                if let Ok(t) = ty {
                    if let Ok(v) = subs {
                        lemma_adtl_keeps_fmt(st, v@);
                    }
                }
            }
        }
    }
}

/// A file without a `fmt ` chunk has no metadata: its chunks give an
/// error, `Missing fmt chunk` unless an earlier chunk could not be read.
pub proof fn lemma_no_fmt_chunk_is_error(chunks: Seq<RiffChunk>)
    requires
        forall|i: int| 0 <= i < chunks.len() ==> (#[trigger] chunks[i]).id@ != fmt_id(),
    ensures
        wav_outcome(chunks) is Err,
        scan(chunks) is Ok ==> wav_outcome(chunks) == Err::<ScanState, Seq<char>>("Missing fmt chunk"@),
{
    lemma_scan_without_fmt(chunks);
}

/// A `fmt ` chunk whose payload is shorter than 16 bytes makes the file
/// an error: `fmt chunk too short`, unless a chunk before it already failed.
pub proof fn lemma_short_fmt_chunk_is_error(chunks: Seq<RiffChunk>, i: int)
    requires
        0 <= i < chunks.len(),
        chunks[i].id@ == fmt_id(),
        chunks[i].body matches ChunkBody::Payload(Ok(d)) && d@.len() < 16,
    ensures
        wav_outcome(chunks) is Err,
        scan(chunks.take(i)) is Ok ==> wav_outcome(chunks) == Err::<ScanState, Seq<char>>("fmt chunk too short"@),
{
    assert(chunks.take(i + 1).drop_last() =~= chunks.take(i));
    assert(chunks.take(i + 1).last() == chunks[i]);
    if scan(chunks.take(i)) is Err {
        lemma_scan_error_stays(chunks, i);
    } else {
        assert(scan(chunks.take(i + 1)) == Err::<ScanState, Seq<char>>("fmt chunk too short"@));
        lemma_scan_error_stays(chunks, i + 1);
    }
}

/// `pos` starts a walk of chunk headers none of which is a `clm `, `uhWT`
/// or `srge` chunk.
pub open spec fn no_frame_size_chunk(data: Seq<u8>, pos: int) -> bool
    decreases data.len() - pos,
{
    if pos < 0 || pos + 8 > data.len() {
        true
    } else {
        let size = le32(data, pos + 4);
        let next = pos + 8 + size + size % 2;
        &&& !tag_at(data, pos, clm_tag())
        &&& !tag_at(data, pos, uhwt_tag())
        &&& !tag_at(data, pos, srge_tag())
        &&& (next <= data.len() ==> no_frame_size_chunk(data, next))
    }
}

proof fn lemma_scan_without_frame_size(data: Seq<u8>, pos: int)
    requires
        no_frame_size_chunk(data, pos),
    ensures
        scan_chunks(data, pos) is None,
    decreases data.len() - pos,
{
    if !(pos < 0 || pos + 8 > data.len()) {
        let size = le32(data, pos + 4);
        let next = pos + 8 + size + size % 2;
        if next <= data.len() {
            lemma_scan_without_frame_size(data, next);
        }
    }
}

/// A file has no wavetable frame size when it is not a `RIFF`/`WAVE` file,
/// or when none of the chunks its walk meets is a `clm `, `uhWT` or `srge`
/// chunk.
pub proof fn lemma_no_frame_size(data: Seq<u8>)
    requires
        !(tag_at(data, 0, riff_tag()) && tag_at(data, 8, wave_tag())) || no_frame_size_chunk(data, 12),
    ensures
        wavetable_frame_size(data) is None,
{
    if tag_at(data, 0, riff_tag()) && tag_at(data, 8, wave_tag()) {
        lemma_scan_without_frame_size(data, 12);
    }
}

/// An Acid chunk of at least 24 bytes, read after the format, gives the
/// time signature as numerator over denominator, the little-endian 16-bit
/// numbers at bytes 16-17 and 18-19, its beat count (bytes 12-15) and its
/// playback mode (one-shot when bit 0 of the flags is set); the file then
/// has metadata.
pub proof fn lemma_acid_fields(chunks: Seq<RiffChunk>, c: RiffChunk)
    requires
        scan(chunks) matches Ok(st) && st.fmt is Some,
        c.id@ == "acid"@,
        c.body matches ChunkBody::Payload(Ok(d)) && d@.len() >= 24,
    ensures
        ({
            let d = c.body->Payload_0->Ok_0@;
            &&& wav_outcome(chunks.push(c)) matches Ok(st2)
            &&& st2.time_signature == Some(((d[16] + 256 * d[17]) as u16, (d[18] + 256 * d[19]) as u16))
            &&& st2.beats == Some((d[12] + 256 * d[13] + 65536 * d[14] + 16777216 * d[15]) as u32)
            &&& st2.playback == Some(if d[0] % 2 == 1 { PlaybackMode::OneShot } else { PlaybackMode::Loop })
        }),
{
    let all = chunks.push(c);
    assert(all.drop_last() =~= chunks);
    assert(all.last() == c);
    reveal_strlit("acid");
    reveal_strlit("fmt ");
    reveal_strlit("smpl");
    reveal_strlit("cue ");
    assert(c.id@[0] == 'a');
    assert(fmt_id()[0] == 'f' && smpl_id()[0] == 's' && cue_id()[0] == 'c');
    assert(c.id@ != fmt_id());
    assert(c.id@ != smpl_id());
    assert(c.id@ != cue_id());
    assert(c.id@ == acid_id());
}

proof fn lemma_smpl_loops_from(d: Seq<u8>, i: nat, n: nat)
    ensures
        ({
            let r = smpl_loops(d, i, n);
            &&& forall|j: int| 0 <= j < r.len() ==> i + j < n && 36 + 24 * (i + j) + 16 <= d.len()
                && #[trigger] r[j] == (SampleLoop {
                    loop_type: loop_type_of(le32(d, 36 + 24 * (i + j) + 4)),
                    start_sample: le32(d, 36 + 24 * (i + j) + 8) as u32,
                    end_sample: le32(d, 36 + 24 * (i + j) + 12) as u32,
                })
            &&& i + r.len() >= n || 36 + 24 * (i + r.len()) + 16 > d.len()
        }),
    decreases n - i,
{
    let base: int = 36 + 24 * i as int;
    if !(i >= n || base + 16 > d.len()) {
        lemma_smpl_loops_from(d, i + 1, n);
        let r = smpl_loops(d, i, n);
        let rest = smpl_loops(d, i + 1, n);
        assert forall|j: int| 0 <= j < r.len() implies i + j < n && 36 + 24 * (i + j) + 16 <= d.len()
            && #[trigger] r[j] == (SampleLoop {
                loop_type: loop_type_of(le32(d, 36 + 24 * (i + j) + 4)),
                start_sample: le32(d, 36 + 24 * (i + j) + 8) as u32,
                end_sample: le32(d, 36 + 24 * (i + j) + 12) as u32,
            }) by {
            if j > 0 {
                assert(r[j] == rest[j - 1]);
            }
        }
    }
}

/// The loops of a sampler chunk are its loop records in order, one per
/// record: record `j` is the 24 bytes at 36 + 24j, whose type, start and
/// end are the little-endian numbers at offsets 4, 8 and 12 (type 1
/// ping-pong, 2 backward, others forward). Reading stops after the
/// declared count or at the first record that does not fit.
pub proof fn lemma_sampler_loops(d: Seq<u8>, n: nat)
    ensures
        ({
            let r = smpl_loops(d, 0, n);
            &&& forall|j: int| 0 <= j < r.len() ==> j < n && 36 + 24 * j + 16 <= d.len()
                && #[trigger] r[j] == (SampleLoop {
                    loop_type: if le32(d, 36 + 24 * j + 4) == 1 {
                        LoopType::PingPong
                    } else if le32(d, 36 + 24 * j + 4) == 2 {
                        LoopType::Backward
                    } else {
                        LoopType::Forward
                    },
                    start_sample: le32(d, 36 + 24 * j + 8) as u32,
                    end_sample: le32(d, 36 + 24 * j + 12) as u32,
                })
            &&& r.len() >= n || 36 + 24 * r.len() + 16 > d.len()
        }),
{
    lemma_smpl_loops_from(d, 0, n);
}

proof fn lemma_cue_entries_from(d: Seq<u8>, i: nat, n: nat)
    ensures
        ({
            let r = cue_entries(d, i, n);
            &&& forall|j: int| 0 <= j < r.len() ==>
                #[trigger] r[j] == (le32(d, 4 + 24 * (i + j)) as u32, le32(d, 4 + 24 * (i + j) + 20) as u32)
            &&& r.len() > 0 ==> i + r.len() <= n && 4 + 24 * (i + r.len()) <= d.len()
            &&& i + r.len() >= n || 4 + 24 * (i + r.len()) + 24 > d.len()
        }),
    decreases n - i,
{
    let base: int = 4 + 24 * i as int;
    if !(i >= n || base + 24 > d.len()) {
        lemma_cue_entries_from(d, i + 1, n);
        let r = cue_entries(d, i, n);
        let rest = cue_entries(d, i + 1, n);
        assert(r.len() == rest.len() + 1);
        assert forall|j: int| 0 <= j < r.len() implies
            #[trigger] r[j] == (le32(d, 4 + 24 * (i + j)) as u32, le32(d, 4 + 24 * (i + j) + 20) as u32) by {
            if j > 0 {
                assert(r[j] == rest[j - 1]);
                assert(i + 1 + (j - 1) == i + j);
            }
        }
    }
}

/// The cue points of a cue chunk are its records in order, one per record:
/// record `j` is the 24 bytes at 4 + 24j, holding the cue id at offset 0
/// and the sample offset at offset 20. Every record read lies within the
/// payload and within the declared count; reading stops after the declared
/// count or at the first record that does not fit.
pub proof fn lemma_cue_records(d: Seq<u8>, n: nat)
    ensures
        ({
            let r = cue_entries(d, 0, n);
            &&& forall|j: int| 0 <= j < r.len() ==> #[trigger] r[j] == (le32(d, 4 + 24 * j) as u32, le32(d, 4 + 24 * j + 20) as u32)
            &&& r.len() <= n
            &&& r.len() > 0 ==> 4 + 24 * r.len() <= d.len()
            &&& r.len() >= n || 4 + 24 * r.len() + 24 > d.len()
        }),
{
    lemma_cue_entries_from(d, 0, n);
}

} // verus!
