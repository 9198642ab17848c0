//! Cutting a byte stream into frames.

use tpcdaq::framer::{parse_frame_size, Framer, DEFAULT_MAX_FRAME_BYTES, PRIMARY_HEADER_SIZE};

fn make_frame(total_bytes: usize, little: bool, fill: u8) -> Vec<u8> {
    assert!(total_bytes >= PRIMARY_HEADER_SIZE);
    assert!(total_bytes <= 0xFF_FFFF);
    let mut f = vec![fill; total_bytes];
    f[0] = if little { 0x80 } else { 0x00 };
    let blk = total_bytes as u32;
    if little {
        f[1] = (blk & 0xFF) as u8;
        f[2] = ((blk >> 8) & 0xFF) as u8;
        f[3] = ((blk >> 16) & 0xFF) as u8;
    } else {
        f[1] = ((blk >> 16) & 0xFF) as u8;
        f[2] = ((blk >> 8) & 0xFF) as u8;
        f[3] = (blk & 0xFF) as u8;
    }
    f
}

#[test]
fn single_frame_exact_returns_one_then_empty() {
    let mut fr = Framer::new();
    let f = make_frame(32, true, 0xAB);
    fr.push(&f);

    let s = fr.next().unwrap();
    assert_eq!(s.len(), 32);
    assert_eq!(s, f.as_slice());

    assert!(fr.next().is_none());
    assert_eq!(fr.buffered(), 0);
}

#[test]
fn split_push_still_assembles() {
    let mut fr = Framer::new();
    let f = make_frame(40, true, 0xAB);

    fr.push(&f[0..3]);
    assert!(fr.next().is_none());
    fr.push(&f[3..8]);
    assert!(fr.next().is_none());
    fr.push(&f[8..]);

    let s = fr.next().unwrap().to_vec();
    assert_eq!(s, f);
    assert!(fr.next().is_none());
}

#[test]
fn two_concatenated_frames_in_one_push_yield_two_frames() {
    let mut fr = Framer::new();
    let f1 = make_frame(24, true, 0x11);
    let f2 = make_frame(48, true, 0x22);
    let mut both = f1.clone();
    both.extend_from_slice(&f2);
    fr.push(&both);

    let s1 = fr.next().unwrap().to_vec();
    assert_eq!(s1, f1);
    let s2 = fr.next().unwrap().to_vec();
    assert_eq!(s2, f2);
    assert!(fr.next().is_none());
}

#[test]
fn complete_frame_plus_partial_retains_the_remainder() {
    let mut fr = Framer::new();
    let f1 = make_frame(32, true, 0x33);
    let f2 = make_frame(64, true, 0x44);
    let mut chunk = f1.clone();
    chunk.extend_from_slice(&f2[0..20]);
    fr.push(&chunk);

    let s1 = fr.next().unwrap().to_vec();
    assert_eq!(s1, f1);
    assert!(fr.next().is_none());
    assert_eq!(fr.buffered(), 20);

    fr.push(&f2[20..]);
    let s2 = fr.next().unwrap().to_vec();
    assert_eq!(s2, f2);
}

#[test]
fn interprets_both_little_and_big_endian() {
    for little in [true, false] {
        let mut fr = Framer::new();
        let f = make_frame(50, little, 0xAB);
        fr.push(&f);
        let s = fr.next().unwrap();
        assert_eq!(s.len(), 50);
    }
}

#[test]
fn corrupt_header_size_zero_resets_without_panicking() {
    let mut fr = Framer::new();
    let bad = vec![0x00u8; 16];
    fr.push(&bad);

    assert!(fr.next().is_none());
    assert_eq!(fr.reset_count(), 1);
    assert_eq!(fr.buffered(), 0);
}

#[test]
fn unrealistically_large_size_is_treated_as_corrupt_and_resets() {
    let mut fr = Framer::with_max_frame_bytes(1024);
    let f = make_frame(4096, true, 0xAB);
    fr.push(&f);
    assert!(fr.next().is_none());
    assert_eq!(fr.reset_count(), 1);
}

#[test]
fn accepts_new_frames_after_reset() {
    let mut fr = Framer::new();
    let bad = vec![0x00u8; 16];
    fr.push(&bad);
    fr.next();
    assert_eq!(fr.reset_count(), 1);

    let good = make_frame(24, true, 0x55);
    fr.push(&good);
    let s = fr.next().unwrap().to_vec();
    assert_eq!(s, good);
}

#[test]
fn frame_size_below_header_size_is_treated_as_corrupt() {
    let mut fr = Framer::new();

    let mut bad = vec![0u8; 16];
    bad[0] = 0x00;
    bad[1] = 0x00;
    bad[2] = 0x00;
    bad[3] = 0x04;
    fr.push(&bad);
    assert!(fr.next().is_none());
    assert_eq!(fr.reset_count(), 1);
}

#[test]
fn real_topology_frame_is_cut_at_12_bytes_without_eating_the_next_frame() {
    let topology: [u8; 12] = [
        0x40, 0x00, 0x00, 0x0c, 0x00, 0x00, 0x07, 0x00, 0x00, 0x0f, 0x00, 0x00,
    ];
    let data = make_frame(96, false, 0xD1);

    let mut fr = Framer::new();
    let mut stream = topology.to_vec();
    stream.extend_from_slice(&data);
    fr.push(&stream);

    let first = fr.next().unwrap().to_vec();
    assert_eq!(first, topology);
    let second = fr.next().unwrap().to_vec();
    assert_eq!(second, data);
    assert!(fr.next().is_none());
    assert_eq!(fr.reset_count(), 0);
}

#[test]
fn blk_size_256_big_endian_header_is_parsed() {
    let mut fr = Framer::new();
    let blocks = 2u32;
    let mut f = vec![0u8; 512];
    f[0] = 0x08;
    f[1] = ((blocks >> 16) & 0xFF) as u8;
    f[2] = ((blocks >> 8) & 0xFF) as u8;
    f[3] = (blocks & 0xFF) as u8;
    fr.push(&f);
    let s = fr.next().unwrap();
    assert_eq!(s.len(), 512);
}

fn cut_all(framer: &mut Framer) -> Vec<Vec<u8>> {
    let mut frames = Vec::new();
    while let Some(frame) = framer.next() {
        frames.push(frame.to_vec());
    }
    frames
}

#[test]
fn the_chunks_in_which_a_stream_arrives_make_no_difference() {
    let frames = [make_frame(8, true, 1), make_frame(31, false, 2), make_frame(100, true, 3)];
    let mut stream = frames.concat();
    stream.extend_from_slice(&make_frame(50, true, 4)[..33]);
    let mut whole = Framer::new();
    whole.push(&stream);
    assert_eq!(cut_all(&mut whole), frames);
    for size in 1..stream.len() {
        let mut framer = Framer::new();
        let mut got = Vec::new();
        for chunk in stream.chunks(size) {
            framer.push(chunk);
            got.extend(cut_all(&mut framer));
        }
        assert_eq!(got, frames);
        assert_eq!(framer.buffered(), 33);
    }
}

#[test]
fn every_byte_is_cut_or_kept() {
    let mut framer = Framer::new();
    let stream = [make_frame(20, true, 9), make_frame(12, false, 8), vec![0x80, 5]].concat();
    framer.push(&stream);
    let cut: usize = cut_all(&mut framer).iter().map(|f| f.len()).sum();
    assert_eq!(cut, 32);
    assert_eq!(cut + framer.buffered(), stream.len());
}

#[test]
fn the_announced_length_is_read_in_blocks_and_byte_order() {
    assert_eq!(parse_frame_size(&[0x08, 0, 0, 2, 0, 0, 0, 0]), Some(512));
    assert_eq!(parse_frame_size(&[0x88, 2, 0, 0, 0, 0, 0, 0]), Some(512));
    assert_eq!(parse_frame_size(&[0x40, 0, 0, 12, 0, 0, 7, 0]), Some(12));
    assert_eq!(parse_frame_size(&[0x0F, 255, 255, 255, 0, 0, 0, 0]), Some(0xFF_FFFF * 0x8000));
    assert_eq!(parse_frame_size(&[0x00, 0, 0, 7, 0, 0, 0, 0]), None);
    assert_eq!(parse_frame_size(&[0x00, 0, 0, 8, 0, 0, 0, 0]), Some(8));
}

#[test]
fn a_frame_of_exactly_the_largest_length_is_accepted() {
    assert_eq!(DEFAULT_MAX_FRAME_BYTES, 64 * 1024 * 1024);
    let mut framer = Framer::with_max_frame_bytes(100);
    framer.push(&make_frame(100, true, 1));
    assert_eq!(framer.next().map(|f| f.len()), Some(100));
    framer.push(&make_frame(101, true, 1));
    assert!(framer.next().is_none());
    assert_eq!(framer.reset_count(), 1);
}

#[test]
fn a_reset_asked_for_is_not_counted_and_drops_what_is_pending() {
    let mut framer = Framer::default();
    framer.push(&[1, 2, 3]);
    framer.reset();
    assert_eq!((framer.buffered(), framer.reset_count()), (0, 0));
}
