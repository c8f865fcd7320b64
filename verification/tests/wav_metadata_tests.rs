use modular::wav::{
    extract_from_chunks, ChunkBody, LoopType, PitchSource, PlaybackMode,
    RiffChunk, WavInfo,
};
use modular::wav_file;

fn write_u16_le(buf: &mut Vec<u8>, val: u16) {
    buf.extend_from_slice(&val.to_le_bytes());
}

fn write_u32_le(buf: &mut Vec<u8>, val: u32) {
    buf.extend_from_slice(&val.to_le_bytes());
}

fn write_f32_le(buf: &mut Vec<u8>, val: f32) {
    buf.extend_from_slice(&val.to_le_bytes());
}

fn fix_riff_size(wav: &mut Vec<u8>) {
    let riff_size = (wav.len() - 8) as u32;
    wav[4..8].copy_from_slice(&riff_size.to_le_bytes());
}

/// A minimal WAV with fmt and data chunks.
fn minimal_wav(sample_rate: u32, channels: u16, bit_depth: u16, num_frames: u32) -> Vec<u8> {
    let bytes_per_sample = bit_depth / 8;
    let data_size = num_frames * channels as u32 * bytes_per_sample as u32;
    let mut buf = Vec::new();
    buf.extend_from_slice(b"RIFF");
    write_u32_le(&mut buf, 0);
    buf.extend_from_slice(b"WAVE");
    buf.extend_from_slice(b"fmt ");
    write_u32_le(&mut buf, 16);
    write_u16_le(&mut buf, 1);
    write_u16_le(&mut buf, channels);
    write_u32_le(&mut buf, sample_rate);
    write_u32_le(&mut buf, sample_rate * channels as u32 * bytes_per_sample as u32);
    write_u16_le(&mut buf, channels * bytes_per_sample);
    write_u16_le(&mut buf, bit_depth);
    buf.extend_from_slice(b"data");
    write_u32_le(&mut buf, data_size);
    buf.resize(buf.len() + data_size as usize, 0);
    fix_riff_size(&mut buf);
    buf
}

fn append_smpl_chunk(wav: &mut Vec<u8>, midi_note: u32, pitch_fraction: u32, loops: &[(u32, u32, u32)]) {
    let num_loops = loops.len() as u32;
    wav.extend_from_slice(b"smpl");
    write_u32_le(wav, 36 + num_loops * 24);
    write_u32_le(wav, 0);
    write_u32_le(wav, 0);
    write_u32_le(wav, 0);
    write_u32_le(wav, midi_note);
    write_u32_le(wav, pitch_fraction);
    write_u32_le(wav, 0);
    write_u32_le(wav, 0);
    write_u32_le(wav, num_loops);
    write_u32_le(wav, 0);
    for &(loop_type, start, end) in loops {
        write_u32_le(wav, 0);
        write_u32_le(wav, loop_type);
        write_u32_le(wav, start);
        write_u32_le(wav, end);
        write_u32_le(wav, 0);
        write_u32_le(wav, 0);
    }
    fix_riff_size(wav);
}

fn append_cue_chunk(wav: &mut Vec<u8>, cues: &[(u32, u32)]) {
    let num_cues = cues.len() as u32;
    wav.extend_from_slice(b"cue ");
    write_u32_le(wav, 4 + num_cues * 24);
    write_u32_le(wav, num_cues);
    for &(id, sample_offset) in cues {
        write_u32_le(wav, id);
        write_u32_le(wav, 0);
        write_u32_le(wav, 0);
        write_u32_le(wav, 0);
        write_u32_le(wav, 0);
        write_u32_le(wav, sample_offset);
    }
    fix_riff_size(wav);
}

fn append_adtl_chunk(wav: &mut Vec<u8>, labels: &[(u32, &str)]) {
    let mut list_content = Vec::new();
    list_content.extend_from_slice(b"adtl");
    for &(cue_id, text) in labels {
        let text_bytes = text.as_bytes();
        let labl_data_size = 4 + text_bytes.len() + 1;
        let padded_size = if labl_data_size % 2 != 0 { labl_data_size + 1 } else { labl_data_size };
        list_content.extend_from_slice(b"labl");
        write_u32_le(&mut list_content, labl_data_size as u32);
        write_u32_le(&mut list_content, cue_id);
        list_content.extend_from_slice(text_bytes);
        list_content.push(0);
        if padded_size > labl_data_size {
            list_content.push(0);
        }
    }
    wav.extend_from_slice(b"LIST");
    write_u32_le(wav, list_content.len() as u32);
    wav.extend_from_slice(&list_content);
    fix_riff_size(wav);
}

fn append_acid_chunk(wav: &mut Vec<u8>, flags: u32, root_note: u16, beats: u32, ts_num: u16, ts_den: u16, tempo: f32) {
    wav.extend_from_slice(b"acid");
    write_u32_le(wav, 24);
    write_u32_le(wav, flags);
    write_u16_le(wav, root_note);
    write_u16_le(wav, 0);
    write_u32_le(wav, 0);
    write_u32_le(wav, beats);
    write_u16_le(wav, ts_num);
    write_u16_le(wav, ts_den);
    write_f32_le(wav, tempo);
    fix_riff_size(wav);
}

fn extract(bytes: Vec<u8>, frames: u64) -> WavInfo {
    wav_file::extract(&bytes, frames).unwrap()
}

fn pitch_volts(info: &WavInfo) -> Option<f64> {
    info.pitch.map(|p| match p {
        PitchSource::Sampler { midi_unity_note, pitch_fraction } => {
            let fraction_cents = (pitch_fraction as f64) / 4294967296.0 * 100.0;
            (midi_unity_note as f64 - 60.0 + fraction_cents / 100.0) / 12.0
        },
        PitchSource::RootNote(root) => (root as f64 - 60.0) / 12.0,
    })
}

fn seconds(samples: u32, info: &WavInfo) -> f64 {
    samples as f64 / info.sample_rate as f64
}

fn bpm(info: &WavInfo) -> Option<f64> {
    info.tempo_bits.map(|b| f32::from_bits(b) as f64)
}

#[test]
fn test_fmt_only_wav() {
    let meta = extract(minimal_wav(44100, 2, 16, 1000), 1000);
    assert_eq!(meta.sample_rate, 44100);
    assert_eq!(meta.frame_count, 1000);
    assert_eq!(meta.bit_depth, 16);
    assert!(meta.pitch.is_none());
    assert!(meta.playback.is_none());
    assert!(bpm(&meta).is_none());
    assert!(meta.beats.is_none());
    assert!(meta.time_signature.is_none());
    assert!(meta.loops.is_empty());
    assert!(meta.cue_points.is_empty());
}

#[test]
fn test_smpl_chunk_pitch_and_loops() {
    let mut wav = minimal_wav(44100, 1, 16, 44100);
    append_smpl_chunk(&mut wav, 60, 0, &[(0, 0, 22050), (1, 22050, 44100)]);
    let meta = extract(wav, 44100);
    assert!((pitch_volts(&meta).unwrap() - 0.0).abs() < 1e-10);
    assert_eq!(meta.loops.len(), 2);
    assert_eq!(meta.loops[0].loop_type, LoopType::Forward);
    assert!((seconds(meta.loops[0].start_sample, &meta) - 0.0).abs() < 1e-10);
    assert!((seconds(meta.loops[0].end_sample, &meta) - 0.5).abs() < 1e-6);
    assert_eq!(meta.loops[1].loop_type, LoopType::PingPong);
    assert!((seconds(meta.loops[1].start_sample, &meta) - 0.5).abs() < 1e-6);
    assert!((seconds(meta.loops[1].end_sample, &meta) - 1.0).abs() < 1e-6);
}

#[test]
fn test_smpl_pitch_midi72() {
    let mut wav = minimal_wav(44100, 1, 16, 100);
    append_smpl_chunk(&mut wav, 72, 0, &[]);
    let meta = extract(wav, 100);
    assert!((pitch_volts(&meta).unwrap() - 1.0).abs() < 1e-10);
}

#[test]
fn test_smpl_pitch_with_fine_tune() {
    let mut wav = minimal_wav(44100, 1, 16, 100);
    append_smpl_chunk(&mut wav, 69, 2147483648u32, &[]);
    let meta = extract(wav, 100);
    let expected = 9.5 / 12.0;
    assert!((pitch_volts(&meta).unwrap() - expected).abs() < 1e-6);
}

#[test]
fn test_cue_and_labels() {
    let mut wav = minimal_wav(48000, 1, 16, 96000);
    append_cue_chunk(&mut wav, &[(1, 0), (2, 48000), (3, 72000)]);
    append_adtl_chunk(&mut wav, &[(1, "intro"), (2, "verse")]);
    let meta = extract(wav, 96000);
    assert_eq!(meta.cue_points.len(), 3);
    assert!((seconds(meta.cue_points[0].sample_offset, &meta) - 0.0).abs() < 1e-10);
    assert_eq!(meta.cue_points[0].label, "intro");
    assert!((seconds(meta.cue_points[1].sample_offset, &meta) - 1.0).abs() < 1e-10);
    assert_eq!(meta.cue_points[1].label, "verse");
    assert!((seconds(meta.cue_points[2].sample_offset, &meta) - 1.5).abs() < 1e-6);
    assert_eq!(meta.cue_points[2].label, "");
}

#[test]
fn test_acid_chunk() {
    let mut wav = minimal_wav(44100, 1, 16, 100);
    append_acid_chunk(&mut wav, 2, 60, 8, 4, 4, 120.0);
    let meta = extract(wav, 100);
    assert!((bpm(&meta).unwrap() - 120.0).abs() < 1e-6);
    assert_eq!(meta.beats.unwrap(), 8);
    assert_eq!(meta.time_signature.unwrap(), (4, 4));
    assert_eq!(meta.playback.unwrap(), PlaybackMode::Loop);
}

#[test]
fn test_acid_one_shot() {
    let mut wav = minimal_wav(44100, 1, 16, 100);
    append_acid_chunk(&mut wav, 1, 0, 0, 4, 4, 0.0);
    let meta = extract(wav, 100);
    assert_eq!(meta.playback.unwrap(), PlaybackMode::OneShot);
    assert!(bpm(&meta).is_none());
}

#[test]
fn test_acid_root_note_as_pitch_fallback() {
    let mut wav = minimal_wav(44100, 1, 16, 100);
    append_acid_chunk(&mut wav, 2, 72, 4, 4, 4, 140.0);
    let meta = extract(wav, 100);
    assert!((pitch_volts(&meta).unwrap() - 1.0).abs() < 1e-10);
}

#[test]
fn test_smpl_pitch_overrides_acid() {
    let mut wav = minimal_wav(44100, 1, 16, 100);
    append_smpl_chunk(&mut wav, 60, 0, &[]);
    append_acid_chunk(&mut wav, 2, 72, 4, 4, 4, 120.0);
    let meta = extract(wav, 100);
    assert!((pitch_volts(&meta).unwrap() - 0.0).abs() < 1e-10);
}

#[test]
fn missing_fmt_chunk_is_an_error() {
    let chunks = vec![RiffChunk { id: "data".to_string(), body: ChunkBody::Unread }];
    assert_eq!(extract_from_chunks(&chunks, 0).err().unwrap(), "Missing fmt chunk");
}

#[test]
fn short_fmt_chunk_is_an_error() {
    let chunks = vec![RiffChunk { id: "fmt ".to_string(), body: ChunkBody::Payload(Ok(vec![0u8; 10])) }];
    assert_eq!(extract_from_chunks(&chunks, 0).err().unwrap(), "fmt chunk too short");
}

#[test]
fn unreadable_payload_is_reported_with_its_chunk() {
    let chunks = vec![
        RiffChunk { id: "acid".to_string(), body: ChunkBody::Payload(Err("disk gone".to_string())) },
        RiffChunk { id: "fmt ".to_string(), body: ChunkBody::Payload(Err("late".to_string())) },
    ];
    assert_eq!(extract_from_chunks(&chunks, 0).err().unwrap(), "Failed to read acid: disk gone");
    let list = vec![RiffChunk { id: "LIST".to_string(), body: ChunkBody::List(Ok("adtl".to_string()), Err("bad walk".to_string())) }];
    assert_eq!(extract_from_chunks(&list, 0).err().unwrap(), "Failed to iterate adtl: bad walk");
}

#[test]
fn later_label_for_the_same_cue_wins_and_loop_types_map() {
    let mut wav = minimal_wav(1000, 1, 16, 10);
    append_cue_chunk(&mut wav, &[(5, 250)]);
    append_adtl_chunk(&mut wav, &[(5, "first"), (5, "second")]);
    append_smpl_chunk(&mut wav, 60, 0, &[(2, 1, 2), (7, 3, 4)]);
    let meta = extract(wav, 10);
    assert_eq!(meta.cue_points[0].label, "second");
    assert_eq!(meta.cue_points[0].sample_offset, 250);
    assert_eq!(meta.loops[0].loop_type, LoopType::Backward);
    assert_eq!(meta.loops[1].loop_type, LoopType::Forward);
}

#[test]
fn file_shorter_than_a_header_is_an_error() {
    let e = wav_file::extract(b"RIFF", 0).err().unwrap();
    assert!(e.starts_with("Failed to read RIFF: "));
}

#[test]
fn cut_chunk_header_is_an_error() {
    let mut wav = minimal_wav(44100, 1, 16, 4);
    wav.extend_from_slice(b"smpl\x01\x00\x00");
    fix_riff_size(&mut wav);
    let e = wav_file::extract(&wav, 4).err().unwrap();
    assert!(e.starts_with("Failed to iterate chunks: "));
}

#[test]
fn file_without_fmt_chunk_is_an_error() {
    let mut wav = Vec::new();
    wav.extend_from_slice(b"RIFF");
    write_u32_le(&mut wav, 0);
    wav.extend_from_slice(b"WAVE");
    wav.extend_from_slice(b"data");
    write_u32_le(&mut wav, 2);
    wav.extend_from_slice(&[0, 0]);
    fix_riff_size(&mut wav);
    assert_eq!(wav_file::extract(&wav, 1).err().unwrap(), "Missing fmt chunk");
}

#[test]
fn payload_past_the_end_is_reported() {
    let mut wav = minimal_wav(44100, 1, 16, 0);
    wav.extend_from_slice(b"acid");
    write_u32_le(&mut wav, 24);
    wav.extend_from_slice(&[0; 4]);
    fix_riff_size(&mut wav);
    let e = wav_file::extract(&wav, 0).err().unwrap();
    assert!(e.starts_with("Failed to read acid: "));
}

#[test]
fn chunks_are_read_with_ids_and_payloads() {
    let mut wav = minimal_wav(8000, 1, 8, 2);
    append_cue_chunk(&mut wav, &[(1, 1)]);
    append_adtl_chunk(&mut wav, &[(1, "intro")]);
    let chunks = wav_file::riff_chunks(&wav).unwrap();
    let ids: Vec<&str> = chunks.iter().map(|c| c.id.as_str()).collect();
    assert_eq!(ids, vec!["fmt ", "data", "cue ", "LIST"]);
    match &chunks[0].body {
        ChunkBody::Payload(Ok(d)) => assert_eq!(d.len(), 16),
        _ => panic!("fmt payload expected"),
    }
    assert!(matches!(chunks[1].body, ChunkBody::Unread));
    match &chunks[3].body {
        ChunkBody::List(Ok(t), Ok(subs)) => {
            assert_eq!(t, "adtl");
            assert_eq!(subs.len(), 1);
            assert_eq!(subs[0].id, "labl");
        }
        _ => panic!("adtl list expected"),
    }
}
