use modular::clock::{default_four, positive_u32};
use modular::engine::{chrono_simple_timestamp, default_recording_name, timestamp_text};
use modular::id_sample::{format_id_set_sample, sorted_ids, str_lt};
use modular::scope::{calculate_skip_rate, ScopeBuffer, ScopeMode, SCOPE_CAPACITY};
use modular::text::decimal_string;
use modular::wav_cache::{FileStamp, WavCache};

fn ids(v: &[&str]) -> Vec<String> {
    v.iter().map(|s| s.to_string()).collect()
}

#[test]
fn id_sample_lists_in_order() {
    assert_eq!(format_id_set_sample(&ids(&[]), 3), "(empty)");
    assert_eq!(format_id_set_sample(&ids(&["osc", "env", "lfo"]), 3), "env, lfo, osc");
    assert_eq!(format_id_set_sample(&ids(&["osc", "env", "lfo", "amp", "vca"]), 2), "amp, env …(+3)");
    assert_eq!(format_id_set_sample(&ids(&["b"]), 0), " …(+1)");
}

#[test]
fn string_order() {
    assert!(str_lt("a", "b"));
    assert!(str_lt("ab", "abc"));
    assert!(!str_lt("abc", "ab"));
    assert!(!str_lt("x", "x"));
    assert!(str_lt("Z", "a"));
    assert_eq!(sorted_ids(&ids(&["m2", "m10", "m1"])), ids(&["m1", "m10", "m2"]));
}

#[test]
fn decimal_numerals() {
    assert_eq!(decimal_string(0), "0");
    assert_eq!(decimal_string(7), "7");
    assert_eq!(decimal_string(1234567890), "1234567890");
    assert_eq!(decimal_string(u64::MAX), u64::MAX.to_string());
}

#[test]
fn timestamps_and_recording_names() {
    let t = chrono_simple_timestamp().expect("clock after the epoch");
    assert!(!t.is_empty() && t.chars().all(|c| c.is_ascii_digit()));
    assert_eq!(default_recording_name("1700000000"), "recording_1700000000.wav");
}

#[test]
fn clock_time_signature_params() {
    assert_eq!(default_four(), 4);
    assert_eq!(positive_u32(3), Ok(3));
    assert_eq!(positive_u32(0), Err("must be a positive integer (>= 1)".to_string()));
}

#[test]
fn skip_rate_spreads_over_capacity() {
    assert_eq!(SCOPE_CAPACITY, 1024);
    assert_eq!(calculate_skip_rate(48000), 46);
    assert_eq!(calculate_skip_rate(1023), 0);
}

#[test]
fn scope_records_continuously_without_trigger() {
    let mut sb: ScopeBuffer<i32> = ScopeBuffer::new(0);
    let resets = sb.push_poly(&[5, 6], 2, &[false, false], 0);
    assert_eq!(resets, vec![true, true]);
    sb.push_poly(&[7], 2, &[false, false], 0);
    let bufs = sb.get_channel_buffers();
    assert_eq!(bufs.len(), 2);
    assert_eq!(&bufs[0][..3], &[5, 7, 0]);
    assert_eq!(&bufs[1][..3], &[6, 0, 0]);
    assert_eq!(bufs[0].len(), SCOPE_CAPACITY);
    // Reading starts where writing was before the sample.
    assert_eq!(&sb.read_offsets()[..2], &[1, 1]);
}

#[test]
fn scope_skips_samples() {
    let mut sb: ScopeBuffer<i32> = ScopeBuffer::new(0);
    sb.set_skip_rate(2);
    for v in 1..=7 {
        sb.push_poly(&[v], 1, &[false], 0);
    }
    assert_eq!(&sb.get_channel_buffers()[0][..4], &[1, 4, 7, 0]);
}

#[test]
fn scope_waits_for_trigger_and_hands_over_full_buffer() {
    let mut sb: ScopeBuffer<i32> = ScopeBuffer::new(0);
    sb.set_trigger_mode(Some(ScopeMode::Wait));
    // Not recording and no trigger: nothing stored.
    let resets = sb.push_poly(&[9], 1, &[false], 0);
    assert_eq!(resets, vec![false]);
    // Trigger: recording starts at the beginning of the buffer.
    let resets = sb.push_poly(&[1], 1, &[true], 0);
    assert_eq!(resets, vec![true]);
    for v in 2..=(SCOPE_CAPACITY as i32) {
        sb.push_poly(&[v], 1, &[false], 0);
    }
    // The full buffer is handed to the reader.
    let buf = &sb.get_channel_buffers()[0];
    assert_eq!(buf[0], 1);
    assert_eq!(buf[SCOPE_CAPACITY - 1], SCOPE_CAPACITY as i32);
    // Stopped until the next trigger.
    sb.push_poly(&[-1], 1, &[false], 0);
    assert_eq!(sb.get_channel_buffers()[0][0], 1);
}

#[test]
fn wav_cache_hits_only_unchanged_files() {
    let t1 = FileStamp { secs: 10, nanos: 0 };
    let t2 = FileStamp { secs: 11, nanos: 5 };
    let mut cache: WavCache<u32> = WavCache::new("/ws".to_string());
    assert!(cache.cached("kick", t1).is_none());
    cache.insert("kick".to_string(), t1, 7);
    cache.insert("snare".to_string(), t1, 8);
    assert_eq!(cache.cached("kick", t1), Some(&7));
    assert!(cache.cached("kick", t2).is_none());
    cache.insert("kick".to_string(), t2, 9);
    assert_eq!(cache.cached("kick", t2), Some(&9));
    assert_eq!(cache.snapshot().len(), 2);
    cache.set_workspace_path("/ws".to_string());
    assert_eq!(cache.cached("snare", t1), Some(&8));
    cache.set_workspace_path("/other".to_string());
    assert_eq!(cache.workspace_path(), "/other");
    assert!(cache.cached("snare", t1).is_none());
    assert!(cache.snapshot().is_empty());
}

#[test]
fn clock_reading_as_text() {
    assert_eq!(timestamp_text(Some(1700000000)), Some("1700000000".to_string()));
    assert_eq!(timestamp_text(Some(0)), Some("0".to_string()));
    assert_eq!(timestamp_text(None), None);
}
