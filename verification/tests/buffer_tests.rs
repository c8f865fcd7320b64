use modular::buffer::{BufferSpec, BufferSpecError, RuntimeBuffer, PORT_MAX_CHANNELS};

fn sample(buffer: &RuntimeBuffer, channel: usize, frame: usize) -> f32 {
    f32::from_bits(buffer.shared().read_bits(channel, frame))
}

#[test]
fn zeroed_buffer_has_correct_shape() {
    let spec = BufferSpec::new("test".to_string(), 2, 100).unwrap();
    let buffer = RuntimeBuffer::zeroed(spec);
    assert_eq!(buffer.shared().channel_count(), 2);
    assert_eq!(buffer.shared().frame_count(), 100);
    assert_eq!(sample(&buffer, 0, 0), 0.0);
}

#[test]
fn copy_overlap_from_preserves_old_data_and_leaves_rest_zeroed() {
    let old_spec = BufferSpec::new("old".to_string(), 2, 4).unwrap();
    let new_spec = BufferSpec::new("new".to_string(), 3, 6).unwrap();

    let mut old = RuntimeBuffer::zeroed(old_spec);
    let mut new = RuntimeBuffer::zeroed(new_spec);

    old.write_bits(0, 0, 1.25f32.to_bits());
    old.write_bits(1, 3, 2.5f32.to_bits());

    new.copy_overlap_from(&old);
    let snapshot = new.shared().snapshot();
    assert_eq!(f32::from_bits(snapshot[0][0]), 1.25);
    assert_eq!(f32::from_bits(snapshot[1][3]), 2.5);
    assert_eq!(f32::from_bits(snapshot[2][0]), 0.0);
    assert_eq!(f32::from_bits(snapshot[0][5]), 0.0);
}

#[test]
fn same_shape_compares_channels_and_frames() {
    let a = RuntimeBuffer::zeroed(BufferSpec::new("a".to_string(), 2, 100).unwrap());
    let b = RuntimeBuffer::zeroed(BufferSpec::new("b".to_string(), 2, 100).unwrap());
    let c = RuntimeBuffer::zeroed(BufferSpec::new("c".to_string(), 1, 100).unwrap());
    assert!(a.same_shape(&b));
    assert!(!a.same_shape(&c));
}

#[test]
fn buffer_spec_refuses_bad_shapes() {
    assert_eq!(BufferSpec::new("x".to_string(), 0, 10).err(), Some(BufferSpecError::NoChannels));
    assert_eq!(
        BufferSpec::new("x".to_string(), PORT_MAX_CHANNELS + 1, 10).err(),
        Some(BufferSpecError::TooManyChannels)
    );
    assert_eq!(BufferSpec::new("x".to_string(), 1, 0).err(), Some(BufferSpecError::NoFrames));
    assert!(BufferSpec::new("x".to_string(), PORT_MAX_CHANNELS, 1).is_ok());
}

#[test]
fn copy_overlap_from_smaller_target_keeps_only_the_overlap() {
    let mut big = RuntimeBuffer::zeroed(BufferSpec::new("big".to_string(), 3, 6).unwrap());
    big.write_bits(2, 5, 7.0f32.to_bits());
    big.write_bits(1, 1, 0.5f32.to_bits());
    let mut small = RuntimeBuffer::zeroed(BufferSpec::new("small".to_string(), 2, 2).unwrap());
    small.copy_overlap_from(&big);
    assert_eq!(small.shared().channel_count(), 2);
    assert_eq!(small.shared().frame_count(), 2);
    assert_eq!(sample(&small, 1, 1), 0.5);
    assert_eq!(sample(&small, 0, 0), 0.0);
}

#[test]
fn copying_twice_gives_the_same_buffer() {
    let mut src = RuntimeBuffer::zeroed(BufferSpec::new("src".to_string(), 2, 3).unwrap());
    src.write_bits(0, 2, 3.0f32.to_bits());
    src.write_bits(1, 0, (-1.0f32).to_bits());
    let mut dst = RuntimeBuffer::zeroed(BufferSpec::new("dst".to_string(), 2, 3).unwrap());
    dst.copy_overlap_from(&src);
    let once = dst.shared().snapshot();
    dst.copy_overlap_from(&src);
    assert_eq!(dst.shared().snapshot(), once);
    assert_eq!(once, src.shared().snapshot());
}

#[test]
fn runtime_buffer_reports_its_spec() {
    let b = RuntimeBuffer::zeroed(BufferSpec::new("delay".to_string(), 4, 8).unwrap());
    assert_eq!(b.name(), "delay");
    assert_eq!(b.spec().channels, 4);
    assert_eq!(b.spec().frame_count, 8);
}
