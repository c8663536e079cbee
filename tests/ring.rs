use mqvi_audio::{FrameRing, FRAME_BYTES};

#[test]
fn framing_one_byte_short_then_exact() {
    let mut ring = FrameRing::new();
    ring.append(&vec![7u8; 7679]);
    assert!(ring.take_frames().is_empty());
    assert_eq!(ring.len(), 7679);
    ring.append(&[9u8]);
    let frames = ring.take_frames();
    assert_eq!(frames.len(), 1);
    assert_eq!(frames[0].len(), FRAME_BYTES);
    assert_eq!(frames[0][0], 7);
    assert_eq!(frames[0][7679], 9);
    assert_eq!(ring.len(), 0);
}

#[test]
fn ring_keeps_order_across_appends() {
    let mut ring = FrameRing::new();
    ring.append(&[1, 2, 3]);
    ring.append(&[]);
    ring.append(&[4, 5]);
    assert_eq!(ring.len(), 5);
    assert_eq!(ring.take_prefix(2), vec![1u8, 2]);
    assert_eq!(ring.take_prefix(3), vec![3u8, 4, 5]);
    assert_eq!(ring.len(), 0);
    assert_eq!(ring.take_prefix(0), Vec::<u8>::new());
}

#[test]
fn ring_takes_several_frames_and_keeps_the_rest() {
    let mut ring = FrameRing::new();
    let data: Vec<u8> = (0..(2 * FRAME_BYTES + 100)).map(|i| (i % 251) as u8).collect();
    ring.append(&data);
    let frames = ring.take_frames();
    assert_eq!(frames.len(), 2);
    assert_eq!(frames[0], data[..FRAME_BYTES].to_vec());
    assert_eq!(frames[1], data[FRAME_BYTES..2 * FRAME_BYTES].to_vec());
    assert_eq!(ring.len(), 100);
    assert_eq!(ring.take_prefix(100), data[2 * FRAME_BYTES..].to_vec());
}

#[test]
fn ring_empty_takes_no_frames() {
    let mut ring = FrameRing::new();
    assert_eq!(ring.len(), 0);
    assert!(ring.take_frames().is_empty());
}
