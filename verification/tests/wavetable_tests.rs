use modular::wav::{detect_wavetable_frame_size, read_u16_le, read_u32_le};

fn write_u32_le(buf: &mut Vec<u8>, val: u32) {
    buf.extend_from_slice(&val.to_le_bytes());
}

fn write_i32_le(buf: &mut Vec<u8>, val: i32) {
    buf.extend_from_slice(&val.to_le_bytes());
}

/// A minimal WAV-like RIFF header. Chunks are appended by callers.
fn riff_header() -> Vec<u8> {
    let mut buf = Vec::new();
    buf.extend_from_slice(b"RIFF");
    write_u32_le(&mut buf, 0);
    buf.extend_from_slice(b"WAVE");
    buf
}

/// Appends a chunk with the given id and payload, padded to even length.
fn append_chunk(buf: &mut Vec<u8>, id: &[u8; 4], payload: &[u8]) {
    buf.extend_from_slice(id);
    write_u32_le(buf, payload.len() as u32);
    buf.extend_from_slice(payload);
    if payload.len() % 2 == 1 {
        buf.push(0);
    }
}

fn fix_riff_size(buf: &mut [u8]) {
    let riff_size = (buf.len() - 8) as u32;
    buf[4..8].copy_from_slice(&riff_size.to_le_bytes());
}

fn append_fmt(buf: &mut Vec<u8>) {
    let mut payload = Vec::new();
    payload.extend_from_slice(&1u16.to_le_bytes());
    payload.extend_from_slice(&1u16.to_le_bytes());
    payload.extend_from_slice(&44100u32.to_le_bytes());
    payload.extend_from_slice(&(44100u32 * 2).to_le_bytes());
    payload.extend_from_slice(&2u16.to_le_bytes());
    payload.extend_from_slice(&16u16.to_le_bytes());
    append_chunk(buf, b"fmt ", &payload);
}

#[test]
fn clm_chunk_detected() {
    let mut buf = riff_header();
    append_fmt(&mut buf);
    append_chunk(&mut buf, b"clm ", b"<!>2048 10000000 wavetable Test");
    fix_riff_size(&mut buf);
    assert_eq!(detect_wavetable_frame_size(&buf), Some(2048));
}

#[test]
fn clm_chunk_odd_size_padded() {
    let payload = b"<!>512 foo bar baz wavetable!!";
    assert_eq!(payload.len(), 30);
    let mut odd_payload = payload.to_vec();
    odd_payload.push(b'x');
    let mut buf = riff_header();
    append_chunk(&mut buf, b"clm ", &odd_payload);
    fix_riff_size(&mut buf);
    assert_eq!(detect_wavetable_frame_size(&buf), Some(512));
}

#[test]
fn uhwt_chunk_detected() {
    let mut buf = riff_header();
    append_fmt(&mut buf);
    append_chunk(&mut buf, b"uhWT", &[0xDE, 0xAD, 0xBE, 0xEF]);
    fix_riff_size(&mut buf);
    assert_eq!(detect_wavetable_frame_size(&buf), Some(2048));
}

#[test]
fn srge_chunk_version1_detected() {
    let mut payload = Vec::new();
    write_i32_le(&mut payload, 1);
    write_i32_le(&mut payload, 1024);
    let mut buf = riff_header();
    append_fmt(&mut buf);
    append_chunk(&mut buf, b"srge", &payload);
    fix_riff_size(&mut buf);
    assert_eq!(detect_wavetable_frame_size(&buf), Some(1024));
}

#[test]
fn srge_chunk_version2_keeps_scanning_and_returns_none_if_no_other_match() {
    let mut payload = Vec::new();
    write_i32_le(&mut payload, 2);
    write_i32_le(&mut payload, 1024);
    let mut buf = riff_header();
    append_fmt(&mut buf);
    append_chunk(&mut buf, b"srge", &payload);
    fix_riff_size(&mut buf);
    assert_eq!(detect_wavetable_frame_size(&buf), None);
}

#[test]
fn srge_v2_followed_by_clm_keeps_scanning_and_finds_clm() {
    let mut payload = Vec::new();
    write_i32_le(&mut payload, 2);
    write_i32_le(&mut payload, 999);
    let mut buf = riff_header();
    append_fmt(&mut buf);
    append_chunk(&mut buf, b"srge", &payload);
    append_chunk(&mut buf, b"clm ", b"<!>4096 extra stuff");
    fix_riff_size(&mut buf);
    assert_eq!(detect_wavetable_frame_size(&buf), Some(4096));
}

#[test]
fn no_known_chunks_returns_none() {
    let mut buf = riff_header();
    append_fmt(&mut buf);
    append_chunk(&mut buf, b"data", &[0u8; 16]);
    fix_riff_size(&mut buf);
    assert_eq!(detect_wavetable_frame_size(&buf), None);
}

#[test]
fn non_wav_file_returns_none() {
    assert_eq!(detect_wavetable_frame_size(b"This is not a WAV file at all."), None);
}

#[test]
fn empty_file_returns_none() {
    assert_eq!(detect_wavetable_frame_size(&[]), None);
}

#[test]
fn truncated_chunk_header_returns_none() {
    let mut buf = riff_header();
    buf.extend_from_slice(b"clm ");
    fix_riff_size(&mut buf);
    assert_eq!(detect_wavetable_frame_size(&buf), None);
}

#[test]
fn clm_without_prefix_returns_none() {
    let mut buf = riff_header();
    append_chunk(&mut buf, b"clm ", b"no prefix here");
    fix_riff_size(&mut buf);
    assert_eq!(detect_wavetable_frame_size(&buf), None);
}

#[test]
fn clm_zero_frame_size_keeps_scanning() {
    let mut buf = riff_header();
    append_fmt(&mut buf);
    append_chunk(&mut buf, b"clm ", b"<!>0 10000000 wavetable Zero");
    fix_riff_size(&mut buf);
    assert_eq!(detect_wavetable_frame_size(&buf), None);

    let mut srge_payload = Vec::new();
    write_i32_le(&mut srge_payload, 1);
    write_i32_le(&mut srge_payload, 1024);
    let mut buf = riff_header();
    append_fmt(&mut buf);
    append_chunk(&mut buf, b"clm ", b"<!>0 10000000 wavetable Zero");
    append_chunk(&mut buf, b"srge", &srge_payload);
    fix_riff_size(&mut buf);
    assert_eq!(detect_wavetable_frame_size(&buf), Some(1024));
}

#[test]
fn clm_truncated_number_keeps_scanning() {
    let mut long_digits_payload = Vec::new();
    long_digits_payload.extend_from_slice(b"<!>");
    long_digits_payload.extend(std::iter::repeat(b'1').take(300));

    let mut buf = riff_header();
    append_fmt(&mut buf);
    append_chunk(&mut buf, b"clm ", &long_digits_payload);
    fix_riff_size(&mut buf);
    assert_eq!(detect_wavetable_frame_size(&buf), None);

    let mut srge_payload = Vec::new();
    write_i32_le(&mut srge_payload, 1);
    write_i32_le(&mut srge_payload, 512);
    let mut buf = riff_header();
    append_fmt(&mut buf);
    append_chunk(&mut buf, b"clm ", &long_digits_payload);
    append_chunk(&mut buf, b"srge", &srge_payload);
    fix_riff_size(&mut buf);
    assert_eq!(detect_wavetable_frame_size(&buf), Some(512));
}

#[test]
fn srge_negative_frame_size_is_ignored() {
    let mut payload = Vec::new();
    write_i32_le(&mut payload, 1);
    write_i32_le(&mut payload, -5);
    let mut buf = riff_header();
    append_chunk(&mut buf, b"srge", &payload);
    fix_riff_size(&mut buf);
    assert_eq!(detect_wavetable_frame_size(&buf), None);
}

#[test]
fn clm_number_too_large_for_usize_keeps_scanning() {
    let mut buf = riff_header();
    append_chunk(&mut buf, b"clm ", b"<!>99999999999999999999999 wavetable");
    append_chunk(&mut buf, b"uhWT", &[]);
    fix_riff_size(&mut buf);
    assert_eq!(detect_wavetable_frame_size(&buf), Some(2048));
}

#[test]
fn chunk_size_past_the_end_returns_none() {
    let mut buf = riff_header();
    buf.extend_from_slice(b"junk");
    write_u32_le(&mut buf, 1_000_000);
    buf.extend_from_slice(&[1, 2, 3]);
    assert_eq!(detect_wavetable_frame_size(&buf), None);
}

#[test]
fn little_endian_reads() {
    let data = [0x34u8, 0x12, 0x78, 0x56, 0xff];
    assert_eq!(read_u16_le(&data, 0), 0x1234);
    assert_eq!(read_u16_le(&data, 3), 0xff56);
    assert_eq!(read_u32_le(&data, 0), 0x5678_1234);
    assert_eq!(read_u32_le(&data, 1), 0xff56_7812);
}
