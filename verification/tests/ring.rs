use dsp_engine::ring::FrameRing;

#[test]
fn frames_come_out_as_they_went_in() {
    let mut ring = FrameRing::new(8);
    ring.feed(&vec![1, 2, 3, 4, 5, 6]);
    assert_eq!(ring.take_block(6), vec![(1, 2), (3, 4), (5, 6)]);
}

#[test]
fn a_dry_ring_plays_silence() {
    let mut ring = FrameRing::new(4);
    assert_eq!(ring.take_block(4), vec![(0, 0), (0, 0)]);
    ring.feed(&vec![7, 8]);
    assert_eq!(ring.take_block(6), vec![(7, 8), (0, 0), (0, 0)]);
    assert_eq!(ring.take_block(2), vec![(0, 0)]);
}

#[test]
fn a_full_ring_loses_the_newest_frames() {
    let mut ring = FrameRing::new(2);
    ring.feed(&vec![1, 1, 2, 2, 3, 3]);
    ring.feed(&vec![4, 4]);
    assert_eq!(ring.take_block(8), vec![(1, 1), (2, 2), (0, 0), (0, 0)]);
}

#[test]
fn odd_samples_belong_to_no_frame() {
    let mut ring = FrameRing::new(4);
    ring.feed(&vec![1, 2, 3]);
    ring.feed(&vec![9]);
    ring.feed(&Vec::new());
    assert_eq!(ring.take_block(5), vec![(1, 2), (0, 0)]);
    assert_eq!(ring.take_block(1), vec![]);
    assert_eq!(ring.take_block(0), vec![]);
}

#[test]
fn the_blocks_do_not_matter() {
    let mut whole = FrameRing::new(3);
    let mut parts = FrameRing::new(3);
    whole.feed(&vec![1, 2, 3, 4, 5, 6, 7, 8]);
    parts.feed(&vec![1, 2, 3, 4]);
    parts.feed(&vec![5, 6, 7, 8]);
    let mut played = parts.take_block(4);
    played.extend(parts.take_block(6));
    assert_eq!(whole.take_block(10), played);
}

#[test]
fn the_ring_goes_round() {
    let mut ring = FrameRing::new(3);
    let mut next: u32 = 0;
    while next < 50 {
        ring.feed(&vec![next, next + 100, next + 1, next + 101]);
        assert_eq!(ring.take_block(4), vec![(next, next + 100), (next + 1, next + 101)]);
        next += 2;
    }
    assert_eq!(ring.take_block(2), vec![(0, 0)]);
}

#[test]
fn what_waits_is_kept_before_what_arrives() {
    let mut ring = FrameRing::new(3);
    ring.feed(&vec![1, 1, 2, 2]);
    assert_eq!(ring.take_block(2), vec![(1, 1)]);
    ring.feed(&vec![3, 3, 4, 4, 5, 5]);
    assert_eq!(ring.take_block(8), vec![(2, 2), (3, 3), (4, 4), (0, 0)]);
}

#[test]
fn a_ring_for_a_rate_holds_a_quarter_second() {
    let mut ring = FrameRing::for_rate(19);
    ring.feed(&vec![1, 1, 2, 2, 3, 3, 4, 4, 5, 5]);
    assert_eq!(ring.take_block(10), vec![(1, 1), (2, 2), (3, 3), (4, 4), (0, 0)]);
}

#[test]
fn samples_keep_their_bits() {
    let mut ring = FrameRing::new(2);
    let left: f32 = -0.25;
    let right: f32 = 0.1;
    ring.feed(&vec![left.to_bits(), right.to_bits()]);
    let block = ring.take_block(4);
    assert_eq!(f32::from_bits(block[0].0), left);
    assert_eq!(f32::from_bits(block[0].1), right);
    assert_eq!(f32::from_bits(block[1].0), 0.0);
    assert_eq!(f32::from_bits(block[1].1), 0.0);
}
