//! Decoding frames: headers, samples, control frames and counts.

use tpcdaq::decode::{parse_topology, peek_asad, peek_event_idx, Decoder, Topology};
use tpcdaq::msg::{items_from_bytes, items_to_bytes, pack_item, unpack_item, ItemOutOfRange};

const HEADER_BYTES: usize = 88;

fn write_uint(buf: &mut [u8], offset: usize, value: u64, n: usize, little: bool) {
    let target = &mut buf[offset..offset + n];
    if little {
        for (i, b) in target.iter_mut().enumerate() {
            *b = ((value >> (8 * i)) & 0xFF) as u8;
        }
    } else {
        for (i, b) in target.iter_mut().enumerate() {
            *b = ((value >> (8 * (n - 1 - i))) & 0xFF) as u8;
        }
    }
}

#[derive(Default, Clone, Copy)]
struct HeaderFields {
    revision: u8,
    event_time: u64,
    event_idx: u32,
    cobo: u8,
    asad: u8,
    read_offset: u16,
    status: u8,
    mult: [u16; 4],
    window_out: u32,
    last_cell: [u16; 4],
}

fn make_cobo_frame(
    frame_type: u16,
    little: bool,
    h: &HeaderFields,
    items: &[(u8, u8, u16, u16)],
) -> Vec<u8> {
    let total = HEADER_BYTES + items.len() * 4;
    let mut b = vec![0u8; total];
    b[0] = if little { 0x80 } else { 0x00 };
    write_uint(&mut b, 1, total as u64, 3, little);
    write_uint(&mut b, 5, u64::from(frame_type), 2, little);
    b[7] = h.revision;
    write_uint(&mut b, 8, HEADER_BYTES as u64, 2, little);
    write_uint(&mut b, 10, 4, 2, little);
    write_uint(&mut b, 12, items.len() as u64, 4, little);
    write_uint(&mut b, 16, h.event_time, 6, little);
    write_uint(&mut b, 22, u64::from(h.event_idx), 4, little);
    b[26] = h.cobo;
    b[27] = h.asad;
    write_uint(&mut b, 28, u64::from(h.read_offset), 2, little);
    b[30] = h.status;
    for (a, m) in h.mult.iter().enumerate() {
        write_uint(&mut b, 67 + a * 2, u64::from(*m), 2, little);
    }
    write_uint(&mut b, 75, u64::from(h.window_out), 4, little);
    for (a, c) in h.last_cell.iter().enumerate() {
        write_uint(&mut b, 79 + a * 2, u64::from(*c), 2, little);
    }
    for (i, &(aget, chan, bucket, adc)) in items.iter().enumerate() {
        let w = (u32::from(aget & 0x3) << 30)
            | (u32::from(chan & 0x7F) << 23)
            | (u32::from(bucket & 0x1FF) << 14)
            | u32::from(adc & 0xFFF);
        write_uint(&mut b, HEADER_BYTES + i * 4, u64::from(w), 4, little);
    }
    b
}

fn make_compact_frame(little: bool, items: &[(u8, u16)]) -> Vec<u8> {
    let total = HEADER_BYTES + items.len() * 2;
    let mut b = vec![0u8; total];
    b[0] = if little { 0x80 } else { 0x00 };
    write_uint(&mut b, 1, total as u64, 3, little);
    write_uint(&mut b, 5, 2, 2, little);
    write_uint(&mut b, 8, HEADER_BYTES as u64, 2, little);
    write_uint(&mut b, 10, 2, 2, little);
    write_uint(&mut b, 12, items.len() as u64, 4, little);
    for (i, &(aget, adc)) in items.iter().enumerate() {
        let w = (u16::from(aget & 0x3) << 14) | (adc & 0xFFF);
        write_uint(&mut b, HEADER_BYTES + i * 2, u64::from(w), 2, little);
    }
    b
}

fn make_blk256_frame(frame_type: u16, item_size_bytes: usize, item_words: &[u64]) -> Vec<u8> {
    const BLK: usize = 256;
    let item_start = BLK;
    let body = item_start + item_words.len() * item_size_bytes;
    let blocks = body.div_ceil(BLK);
    let mut b = vec![0u8; blocks * BLK];
    b[0] = 0x08;
    write_uint(&mut b, 1, blocks as u64, 3, false);
    write_uint(&mut b, 5, u64::from(frame_type), 2, false);
    write_uint(&mut b, 8, 1, 2, false);
    write_uint(&mut b, 10, item_size_bytes as u64, 2, false);
    write_uint(&mut b, 12, item_words.len() as u64, 4, false);
    write_uint(&mut b, 27, 3, 1, false);
    for (i, &w) in item_words.iter().enumerate() {
        write_uint(
            &mut b,
            item_start + i * item_size_bytes,
            w,
            item_size_bytes,
            false,
        );
    }
    b
}

#[test]
fn peek_asad_reads_offset_27_without_full_decode() {
    let frame = make_blk256_frame(1, 4, &[]);
    assert_eq!(peek_asad(&frame), Some(3));
}

#[test]
fn peek_asad_supports_frame_type_2_as_well_as_1() {
    let frame = make_blk256_frame(2, 2, &[]);
    assert_eq!(peek_asad(&frame), Some(3));
}

#[test]
fn peek_asad_matches_the_header_field_across_builders() {
    let h = HeaderFields {
        asad: 2,
        ..HeaderFields::default()
    };
    let frame = make_cobo_frame(1, false, &h, &[]);
    assert_eq!(peek_asad(&frame), Some(2));
    assert_eq!(frame[27], 2);
}

#[test]
fn peek_asad_is_none_for_short_frames() {
    assert_eq!(peek_asad(&[]), None);
    assert_eq!(peek_asad(&[0u8; 27]), None);
    assert_eq!(peek_asad(&[0u8; 4]), None);
}

#[test]
fn peek_asad_reads_the_minimal_28_byte_boundary() {
    let mut frame = vec![0u8; 28];
    write_uint(&mut frame, 5, 1, 2, false);
    frame[27] = 9;
    assert_eq!(peek_asad(&frame), Some(9));
}

#[test]
fn peek_asad_is_none_for_non_cobo_frame_types_even_when_long_enough() {
    let h = HeaderFields {
        asad: 5,
        ..HeaderFields::default()
    };
    let frame = make_cobo_frame(7, false, &h, &[]);
    assert!(frame.len() >= 28);
    assert_eq!(
        frame[27], 5);
    assert_eq!(
        peek_asad(&frame),
        None);
}

#[test]
fn peek_event_idx_reads_offset_22_without_full_decode() {
    for little in [true, false] {
        let h = HeaderFields {
            event_idx: 0x0102_0304,
            ..HeaderFields::default()
        };
        let frame = make_cobo_frame(1, little, &h, &[]);
        assert_eq!(peek_event_idx(&frame), Some(0x0102_0304));
    }
}

#[test]
fn peek_event_idx_supports_frame_type_2_and_blk256() {
    let mut frame = make_blk256_frame(2, 2, &[]);
    write_uint(&mut frame, 22, 3851, 4, false);
    assert_eq!(peek_event_idx(&frame), Some(3851));
}

#[test]
fn peek_event_idx_gates_like_peek_asad() {
    assert_eq!(peek_event_idx(&[0u8; 27]), None);
    let h = HeaderFields {
        event_idx: 7,
        ..HeaderFields::default()
    };
    let ctrl = make_cobo_frame(7, false, &h, &[]);
    assert!(ctrl.len() >= 28);
    assert_eq!(peek_event_idx(&ctrl), None);
}

#[test]
fn frame_type1_blk256_big_endian_real_encoding_decodes() {
    let w0 = (2u64 << 30) | (5u64 << 23) | (10u64 << 14) | 385u64;
    let w1 = (67u64 << 23) | (511u64 << 14) | 4095u64;
    let frame = make_blk256_frame(1, 4, &[w0, w1]);

    let mut dec = Decoder::new();
    let frag = dec.decode(&frame).unwrap();

    assert_eq!(frag.frame_type, 1);
    assert_eq!(frag.asad, 3);
    assert_eq!(dec.frames(), 1);
    assert_eq!(dec.items(), 2);
    assert_eq!(dec.malformed(), 0);

    let words = items_from_bytes(&frag.items).unwrap();
    assert_eq!(words.len(), 2);
    let i0 = unpack_item(words[0]);
    assert_eq!((i0.aget, i0.chan, i0.bucket, i0.adc), (2, 5, 10, 385));
    let i1 = unpack_item(words[1]);
    assert_eq!((i1.aget, i1.chan, i1.bucket, i1.adc), (0, 67, 511, 4095));
}

#[test]
fn frame_type1_matches_the_mfm_oracle_for_the_real_pulser_encoding() {

    const ORACLE_ITEMS: [(u8, u8, u16, u16); 10] = [
        (3, 0, 0, 340),
        (0, 0, 0, 372),
        (1, 0, 0, 256),
        (2, 0, 0, 335),
        (3, 1, 0, 275),
        (0, 1, 0, 373),
        (1, 1, 0, 254),
        (2, 1, 0, 329),
        (3, 2, 0, 364),
        (0, 2, 0, 363),
    ];
    let words: Vec<u64> = ORACLE_ITEMS
        .iter()
        .map(|&(aget, chan, buck, sample)| {
            (u64::from(aget) << 30)
                | (u64::from(chan) << 23)
                | (u64::from(buck) << 14)
                | u64::from(sample)
        })
        .collect();
    let frame = make_blk256_frame(1, 4, &words);

    let mut dec = Decoder::new();
    let frag = dec.decode(&frame).unwrap();
    assert_eq!(dec.malformed(), 0);
    assert_eq!(dec.items(), 10);

    let packed = items_from_bytes(&frag.items).unwrap();
    let got: Vec<(u8, u8, u16, u16)> = packed
        .iter()
        .map(|&w| {
            let i = unpack_item(w);
            (i.aget, i.chan, i.bucket, i.adc)
        })
        .collect();
    assert_eq!(
        got,
        ORACLE_ITEMS.to_vec());
}

#[test]
fn frame_type2_blk256_big_endian_real_encoding_decodes() {
    let mut words: Vec<u64> = (0..68u64).map(|c| c + 1000).collect();
    words.push(2000);
    let frame = make_blk256_frame(2, 2, &words);

    let mut dec = Decoder::new();
    let frag = dec.decode(&frame).unwrap();
    assert_eq!(frag.frame_type, 2);

    let packed = items_from_bytes(&frag.items).unwrap();
    assert_eq!(packed.len(), 69);
    let i0 = unpack_item(packed[0]);
    assert_eq!((i0.bucket, i0.chan, i0.adc), (0, 0, 1000));
    let i67 = unpack_item(packed[67]);
    assert_eq!((i67.bucket, i67.chan, i67.adc), (0, 67, 1067));
    let i68 = unpack_item(packed[68]);
    assert_eq!((i68.bucket, i68.chan, i68.adc), (1, 0, 2000));
}

#[test]
fn frame_type2_aget_cursors_survive_interleaving() {
    for little in [true, false] {
        let mut items: Vec<(u8, u16)> = (0..68u16).map(|c| (0, 1000 + c)).collect();
        items.push((0, 2000));
        items.push((1, 3000));
        items.push((0, 2001));

        let frame = make_compact_frame(little, &items);
        let mut dec = Decoder::new();
        let frag = dec.decode(&frame).unwrap();
        let packed = items_from_bytes(&frag.items).unwrap();
        assert_eq!(packed.len(), 71);

        let i0 = unpack_item(packed[0]);
        assert_eq!((i0.aget, i0.chan, i0.bucket, i0.adc), (0, 0, 0, 1000));
        let i67 = unpack_item(packed[67]);
        assert_eq!((i67.aget, i67.chan, i67.bucket, i67.adc), (0, 67, 0, 1067));
        let i68 = unpack_item(packed[68]);
        assert_eq!((i68.aget, i68.chan, i68.bucket, i68.adc), (0, 0, 1, 2000));
        let i69 = unpack_item(packed[69]);
        assert_eq!((i69.aget, i69.chan, i69.bucket, i69.adc), (1, 0, 0, 3000));
        let i70 = unpack_item(packed[70]);
        assert_eq!((i70.aget, i70.chan, i70.bucket, i70.adc), (0, 1, 1, 2001));
    }
}

#[test]
fn frame_type1_header_and_items_roundtrip_losslessly() {
    for little in [true, false] {
        let h = HeaderFields {
            revision: 5,
            event_time: 353_019_082,
            event_idx: 42,
            cobo: 0,
            asad: 3,
            read_offset: 7,
            status: 1,
            mult: [10, 20, 30, 40],
            window_out: 12345,
            last_cell: [100, 200, 300, 400],
        };
        let items = [
            (2u8, 0u8, 0u16, 385u16),
            (3, 11, 5, 446),
            (0, 67, 511, 4095),
        ];
        let frame = make_cobo_frame(1, little, &h, &items);

        let mut dec = Decoder::new();
        let frag = dec.decode(&frame).unwrap();

        assert_eq!(frag.frame_type, 1);
        assert_eq!(frag.revision, 5);
        assert_eq!(frag.event_time, 353_019_082);
        assert_eq!(frag.event_idx, 42);
        assert_eq!(frag.cobo, 0);
        assert_eq!(frag.asad, 3);
        assert_eq!(frag.read_offset, 7);
        assert_eq!(frag.status, 1);
        assert_eq!(frag.mult, [10, 20, 30, 40]);
        assert_eq!(frag.window_out, 12345);
        assert_eq!(frag.last_cell, [100, 200, 300, 400]);

        let packed = items_from_bytes(&frag.items).unwrap();
        assert_eq!(packed.len(), 3);
        let i0 = unpack_item(packed[0]);
        assert_eq!((i0.aget, i0.chan, i0.bucket, i0.adc), (2, 0, 0, 385));
        let i1 = unpack_item(packed[1]);
        assert_eq!((i1.aget, i1.chan, i1.bucket, i1.adc), (3, 11, 5, 446));
        let i2 = unpack_item(packed[2]);
        assert_eq!((i2.aget, i2.chan, i2.bucket, i2.adc), (0, 67, 511, 4095));
    }
}

const REAL_TOPOLOGY_FRAME: [u8; 12] = [
    0x40, 0x00, 0x00, 0x0c, 0x00, 0x00, 0x07, 0x00, 0x00, 0x0f, 0x00, 0x00,
];

#[test]
fn parse_topology_reads_the_real_12_byte_frame() {
    let t = parse_topology(&REAL_TOPOLOGY_FRAME).unwrap();
    assert_eq!(t.cobo, 0);
    assert_eq!(t.asad_mask, 0x0F);
    assert!(!t.two_p_mode);
    assert_eq!(t.active_asads(), 4);
}

#[test]
fn parse_topology_keeps_the_three_payload_fields_apart() {
    let mut frame = REAL_TOPOLOGY_FRAME;
    frame[8] = 2;
    frame[9] = 0x05;
    frame[10] = 1;
    let t = parse_topology(&frame).unwrap();
    assert_eq!((t.cobo, t.asad_mask, t.two_p_mode), (2, 0x05, true));
    assert_eq!(t.active_asads(), 2);
}

#[test]
fn parse_topology_is_none_for_anything_that_is_not_frame_type_7() {
    let h = HeaderFields::default();
    assert_eq!(parse_topology(&make_cobo_frame(1, false, &h, &[])), None);
    assert_eq!(parse_topology(&make_cobo_frame(2, false, &h, &[])), None);
    assert_eq!(parse_topology(&make_cobo_frame(5, false, &h, &[])), None);
    assert_eq!(parse_topology(&REAL_TOPOLOGY_FRAME[..11]), None);
}

#[test]
fn decoder_counts_the_topology_frame_separately_from_other_unsupported_frames() {
    let mut dec = Decoder::new();
    assert!(dec.decode(&REAL_TOPOLOGY_FRAME).is_none());
    assert_eq!(dec.topology(), 1);
    assert_eq!(dec.unsupported(), 1);
    assert_eq!(dec.malformed(), 0);
    assert_eq!(dec.frames(), 0);

    let h = HeaderFields::default();
    assert!(dec.decode(&make_cobo_frame(5, false, &h, &[])).is_none());
    assert_eq!(dec.topology(), 1);
    assert_eq!(dec.unsupported(), 2);
}

#[test]
fn unknown_frame_type_is_unsupported_not_malformed() {
    let h = HeaderFields::default();
    let frame = make_cobo_frame(5, false, &h, &[]);
    let mut dec = Decoder::new();
    assert!(dec.decode(&frame).is_none());
    assert_eq!(dec.unsupported(), 1);
    assert_eq!(dec.malformed(), 0);
}

#[test]
fn non_cobo_control_frame_is_skipped() {
    let h = HeaderFields::default();
    let frame = make_cobo_frame(7, false, &h, &[]);
    let mut dec = Decoder::new();
    assert!(dec.decode(&frame).is_none());
    assert_eq!(dec.unsupported(), 1);
}

#[test]
fn item_size_mismatch_for_frame_type_is_malformed() {
    let h = HeaderFields::default();

    let frame = make_cobo_frame(2, false, &h, &[]);
    let mut dec = Decoder::new();
    assert!(dec.decode(&frame).is_none());
    assert_eq!(dec.malformed(), 1);
    assert_eq!(dec.unsupported(), 0);
}

#[test]
fn truncated_item_body_is_malformed_without_panicking() {
    let h = HeaderFields::default();
    let mut frame = make_cobo_frame(1, false, &h, &[(1, 1, 1, 1)]);
    let new_len = frame.len() - 2;
    frame.truncate(new_len);
    let mut dec = Decoder::new();
    assert!(dec.decode(&frame).is_none());
    assert_eq!(dec.malformed(), 1);
}

#[test]
fn item_start_below_header_minimum_is_malformed() {
    let h = HeaderFields::default();
    let mut frame = make_cobo_frame(1, false, &h, &[(0, 0, 0, 0)]);
    write_uint(&mut frame, 8, 10, 2, false);
    let mut dec = Decoder::new();
    assert!(dec.decode(&frame).is_none());
    assert_eq!(dec.malformed(), 1);
}

#[test]
fn frame_shorter_than_primary_header_is_malformed() {
    let frame = vec![0u8; 4];
    let mut dec = Decoder::new();
    assert!(dec.decode(&frame).is_none());
    assert_eq!(dec.malformed(), 1);
}

#[test]
fn frame_shorter_than_common_header_is_malformed() {
    let mut frame = vec![0u8; 40];
    write_uint(&mut frame, 5, 1, 2, false);
    let mut dec = Decoder::new();
    assert!(dec.decode(&frame).is_none());
    assert_eq!(dec.malformed(), 1);
    assert_eq!(dec.unsupported(), 0);
}

#[test]
fn counters_accumulate_across_calls() {
    let h = HeaderFields::default();
    let good = make_cobo_frame(1, false, &h, &[(0, 0, 0, 1), (0, 0, 0, 2)]);
    let bad = make_cobo_frame(5, false, &h, &[]);

    let mut dec = Decoder::new();
    assert!(dec.decode(&good).is_some());
    assert!(dec.decode(&bad).is_none());
    assert!(dec.decode(&good).is_some());

    assert_eq!(dec.frames(), 2);
    assert_eq!(dec.items(), 4);
    assert_eq!(dec.unsupported(), 1);
    assert_eq!(dec.malformed(), 0);
}

#[test]
fn packing_and_unpacking_are_inverse_for_the_extreme_samples() {
    for (aget, chan, bucket, adc, word) in [
        (0u8, 0u8, 0u16, 0u16, 0u32),
        (3, 127, 511, 4095, 0xFFFF_CFFF),
        (2, 5, 10, 385, 0x8282_8181),
        (1, 0, 0, 1, 0x4000_0001),
    ] {
        assert_eq!(pack_item(aget, chan, bucket, adc), Ok(word));
        let item = unpack_item(word);
        assert_eq!((item.aget, item.chan, item.bucket, item.adc), (aget, chan, bucket, adc));
    }
}

#[test]
fn a_sample_field_that_is_too_wide_is_refused() {
    assert_eq!(pack_item(4, 0, 0, 0), Err(ItemOutOfRange));
    assert_eq!(pack_item(0, 128, 0, 0), Err(ItemOutOfRange));
    assert_eq!(pack_item(0, 0, 512, 0), Err(ItemOutOfRange));
    assert_eq!(pack_item(0, 0, 0, 4096), Err(ItemOutOfRange));
}

#[test]
fn words_survive_being_written_as_bytes() {
    let words = [0x0102_0304u32, 0xFFFF_FFFF, 0];
    let bytes = items_to_bytes(&words);
    assert_eq!(bytes, vec![4, 3, 2, 1, 255, 255, 255, 255, 0, 0, 0, 0]);
    assert_eq!(items_from_bytes(&bytes), Some(words.to_vec()));
    assert_eq!(items_from_bytes(&bytes[..11]), None);
    assert_eq!(items_from_bytes(&[]), Some(vec![]));
}

#[test]
fn an_explicit_word_with_clear_spare_bits_is_kept_and_the_spare_bits_are_dropped() {
    let kept = 0x8282_8181u64;
    let spare = 0x0000_3001u64;
    let frame = make_blk256_frame(1, 4, &[kept, spare]);
    let fragment = Decoder::new().decode(&frame).unwrap();
    assert_eq!(items_from_bytes(&fragment.items), Some(vec![0x8282_8181, 1]));
}

#[test]
fn a_chip_with_more_samples_than_buckets_is_malformed() {
    let full = 68 * 512;
    let mut dec = Decoder::new();
    let frame = make_compact_frame(true, &vec![(3, 7); full]);
    let fragment = dec.decode(&frame).unwrap();
    let words = items_from_bytes(&fragment.items).unwrap();
    let last = unpack_item(words[full - 1]);
    assert_eq!((last.aget, last.chan, last.bucket, last.adc), (3, 67, 511, 7));
    assert_eq!(dec.items(), full as u64);

    let frame = make_compact_frame(true, &vec![(3, 7); full + 1]);
    assert!(dec.decode(&frame).is_none());
    assert_eq!((dec.frames(), dec.malformed()), (1, 1));
}

#[test]
fn where_a_chip_is_interleaved_makes_no_difference_to_the_others() {
    let alone: Vec<(u8, u16)> = (0..70u16).map(|c| (1, c)).collect();
    let mut mixed = Vec::new();
    for item in &alone {
        mixed.push((2, 9));
        mixed.push(*item);
    }
    let of_chip_1 = |items: &[(u8, u16)]| -> Vec<u32> {
        let fragment = Decoder::new().decode(&make_compact_frame(false, items)).unwrap();
        let words = items_from_bytes(&fragment.items).unwrap();
        words.into_iter().filter(|&w| unpack_item(w).aget == 1).collect()
    };
    assert_eq!(of_chip_1(&mixed), of_chip_1(&alone));
}

#[test]
fn every_frame_is_counted_exactly_once() {
    let h = HeaderFields::default();
    let mut dec = Decoder::default();
    let frames = [
        make_cobo_frame(1, true, &h, &[(0, 1, 2, 3)]),
        make_cobo_frame(7, true, &h, &[]),
        make_cobo_frame(9, true, &h, &[]),
        vec![0u8; 3],
    ];
    for (n, frame) in frames.iter().enumerate() {
        dec.decode(frame);
        assert_eq!(dec.frames() + dec.malformed() + dec.unsupported(), n as u64 + 1);
    }
    assert_eq!((dec.frames(), dec.malformed(), dec.unsupported(), dec.topology()), (1, 1, 2, 1));
}

#[test]
fn a_topology_frame_can_be_little_endian() {
    let mut frame = REAL_TOPOLOGY_FRAME;
    frame[0] |= 0x80;
    frame[5] = 7;
    frame[6] = 0;
    assert_eq!(
        parse_topology(&frame),
        Some(Topology { cobo: 0, asad_mask: 0x0F, two_p_mode: false })
    );
    assert_eq!((Topology { cobo: 0, asad_mask: 0xFF, two_p_mode: false }).active_asads(), 8);
    assert_eq!((Topology { cobo: 0, asad_mask: 0, two_p_mode: false }).active_asads(), 0);
}
