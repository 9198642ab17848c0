//! The geometry file: what each raw channel reads out.

use tpcdaq::geometry::{
    dump_tsv, fits_in_memory, parse, reorder, ChannelRole, Geometry, MalformedLine, Plane,
    FPN_RAW_CHANNELS, RAW_CH_PER_AGET, REORDER_FROM_GEOMETRY_TO_GRAW, SIGNAL_CH_PER_AGET,
};

fn read(content: &str) -> Geometry {
    assert!(fits_in_memory(content));
    parse(content)
}

fn aget_normal2raw_loop(channel_idx: u32) -> u32 {
    let mut raw = channel_idx;
    for &fpn in &FPN_RAW_CHANNELS {
        if fpn < raw {
            raw += 1;
        }
        if fpn == raw {
            raw += 1;
        }
    }
    raw
}

#[test]
fn reorder_loop_matches_constant_table_for_all_64_inputs() {
    for signal_ch in 0..SIGNAL_CH_PER_AGET {
        assert_eq!(
            aget_normal2raw_loop(signal_ch),
            REORDER_FROM_GEOMETRY_TO_GRAW[signal_ch as usize],
            "mismatch at signal channel {signal_ch}"
        );
    }
}

#[test]
fn plane_parse_accepts_only_uppercase_uvw() {
    assert_eq!(Plane::parse("U"), Some(Plane::U));
    assert_eq!(Plane::parse("V"), Some(Plane::V));
    assert_eq!(Plane::parse("W"), Some(Plane::W));
    assert_eq!(Plane::parse("u"), None);
    assert_eq!(Plane::parse("FPN"), None);
    assert_eq!(Plane::parse(""), None);
}

#[test]
fn aux_agent_ch_uses_same_signal_reorder_as_strip_columns() {
    let text = "\
ANGLES: 0.0 0.0 0.0
DIAMOND SIZE: 1.0
REFERENCE POINT: 0.0 0.0
DRIFT VELOCITY: 1.0
SAMPLING RATE: 1.0
TRIGGER DELAY: 0.0
DRIFT CAGE ACCEPTANCE: -1.0 1.0
AuxTest\t0\t0\t0\t15
";
    let mut geometry = read(text);

    assert_eq!(
        geometry.lookup(0, 0, 0, 16),
        ChannelRole::Aux {
            name: "AuxTest".to_string()
        }
    );
    assert_eq!(geometry.lookup(0, 0, 0, 15), ChannelRole::Unmapped);
}

#[test]
fn duplicate_channel_key_warns_and_keeps_first() {
    let text = "\
ANGLES: 0.0 0.0 0.0
DIAMOND SIZE: 1.0
REFERENCE POINT: 0.0 0.0
DRIFT VELOCITY: 1.0
SAMPLING RATE: 1.0
TRIGGER DELAY: 0.0
DRIFT CAGE ACCEPTANCE: -1.0 1.0
U\t0\t1\t0\t0\t0\t0\t0.0\t0.0\t10
V\t0\t9\t0\t0\t0\t0\t9.0\t9.0\t10
";
    let mut geometry = read(text);

    assert_eq!(
        geometry.lookup(0, 0, 0, 0),
        ChannelRole::Strip {
            plane: Plane::U,
            section: 0,
            strip: 1
        }
    );
    assert_eq!(geometry.duplicate_warnings().len(), 1);
    let dup = geometry.duplicate_warnings()[0];
    assert_eq!(dup.cobo, 0);
    assert_eq!(dup.asad, 0);
    assert_eq!(dup.aget, 0);
    assert_eq!(dup.raw_ch, 0);

    assert_eq!(dup.line_number, 9);
}

#[test]
fn malformed_lines_are_recorded_not_fatal() {
    let text = "\
ANGLES: 0.0 0.0 0.0
DIAMOND SIZE: 1.0
REFERENCE POINT: 0.0 0.0
DRIFT VELOCITY: 1.0
SAMPLING RATE: 1.0
TRIGGER DELAY: 0.0
DRIFT CAGE ACCEPTANCE: -1.0 1.0
foo bar baz qux quux corge
Z\t0\t1\t0\t0\t0\t0\t0.0\t0.0\t10
U\t0\t1\t0\t0\t0\t99\t0.0\t0.0\t10
U\t0\t2\t0\t0\t0\t0\t0.0\t0.0\t10
";
    let mut geometry = read(text);

    assert_eq!(geometry.malformed_lines().len(), 3);
    assert_eq!(
        geometry.lookup(0, 0, 0, 0),
        ChannelRole::Strip {
            plane: Plane::U,
            section: 0,
            strip: 2
        }
    );
}

#[test]
fn aget_index_out_of_hardware_range_is_malformed_not_corrupting() {

    let text = "\
ANGLES: 0.0 0.0 0.0
DIAMOND SIZE: 1.0
REFERENCE POINT: 0.0 0.0
DRIFT VELOCITY: 1.0
SAMPLING RATE: 1.0
TRIGGER DELAY: 0.0
DRIFT CAGE ACCEPTANCE: -1.0 1.0
U\t0\t1\t0\t0\t4\t0\t0.0\t0.0\t10
";
    let geometry = read(text);
    assert_eq!(geometry.malformed_lines().len(), 1);
    assert_eq!(geometry.cobo_count(), 0);
}

#[test]
fn unmapped_hit_count_increments_on_every_unmapped_lookup() {
    let text = "\
ANGLES: 0.0 0.0 0.0
DIAMOND SIZE: 1.0
REFERENCE POINT: 0.0 0.0
DRIFT VELOCITY: 1.0
SAMPLING RATE: 1.0
TRIGGER DELAY: 0.0
DRIFT CAGE ACCEPTANCE: -1.0 1.0
U\t0\t1\t0\t0\t0\t0\t0.0\t0.0\t10
";
    let mut geometry = read(text);
    assert_eq!(geometry.unmapped_hit_count(), 0);

    assert_eq!(geometry.lookup(0, 0, 0, 63), ChannelRole::Unmapped);
    assert_eq!(geometry.unmapped_hit_count(), 1);

    assert_eq!(geometry.lookup(9, 0, 0, 0), ChannelRole::Unmapped);
    assert_eq!(geometry.unmapped_hit_count(), 2);

    let _ = geometry.lookup(0, 0, 0, 0);
    assert_eq!(geometry.unmapped_hit_count(), 2);
}

#[test]
fn dump_tsv_does_not_increment_unmapped_hit_count() {
    let text = "\
ANGLES: 0.0 0.0 0.0
DIAMOND SIZE: 1.0
REFERENCE POINT: 0.0 0.0
DRIFT VELOCITY: 1.0
SAMPLING RATE: 1.0
TRIGGER DELAY: 0.0
DRIFT CAGE ACCEPTANCE: -1.0 1.0
U\t0\t1\t0\t0\t0\t0\t0.0\t0.0\t10
";
    let geometry = read(text);
    let dump = dump_tsv(&geometry);
    assert!(!dump.is_empty());

    assert_eq!(dump.lines().count(), 272);
    assert_eq!(geometry.unmapped_hit_count(), 0);
}

#[test]
fn a_signal_channel_past_the_chip_has_no_raw_channel() {
    assert_eq!(reorder(0), Some(0));
    assert_eq!(reorder(11), Some(12));
    assert_eq!(reorder(63), Some(67));
    assert_eq!(reorder(64), None);
    for signal_ch in 0..SIGNAL_CH_PER_AGET {
        let raw_ch = reorder(signal_ch).unwrap();
        assert!(raw_ch < RAW_CH_PER_AGET);
        assert!(!FPN_RAW_CHANNELS.contains(&raw_ch));
    }
}

#[test]
fn plane_names_read_back() {
    for plane in [Plane::U, Plane::V, Plane::W] {
        assert_eq!(Plane::parse(plane.as_str()), Some(plane));
    }
}

const TWO_COBOS: &str = "\
# a comment
ANGLES: 90.0 -30.0 30.0
DIAMOND SIZE: 1.5
REFERENCE POINT: -138.9971 98.25
DRIFT VELOCITY: 0.405 extra
SAMPLING RATE: fast
TRIGGER DELAY: 5e-1
DRIFT CAGE ACCEPTANCE: -98.0 98.0

U 0 1 0 0 0 0 0.0 0.0 10
W 2 7 1 2 3 63 0.0 0.0 10
V 0 300 1 0 0 12 0.0 0.0 10
W 5 9 1 0.0 0.0 10
";

#[test]
fn a_file_of_two_cobos_is_read() {
    let mut geometry = read(TWO_COBOS);
    assert_eq!(geometry.cobo_count(), 2);
    assert_eq!(geometry.asad_inventory(), vec![(0, 0), (1, 0), (1, 2)]);
    assert_eq!(geometry.max_strip, [1, 300, 7]);
    assert_eq!(
        geometry.lookup(1, 2, 3, 67),
        ChannelRole::Strip { plane: Plane::W, section: 2, strip: 7 }
    );
    assert_eq!(
        geometry.lookup_ref(1, 0, 0, 13),
        &ChannelRole::Strip { plane: Plane::V, section: 0, strip: 300 }
    );
    assert_eq!(geometry.lookup(1, 1, 0, 0), ChannelRole::Unmapped);
    assert_eq!(geometry.malformed_lines(), &[MalformedLine { line_number: 13 }]);
}

#[test]
fn the_header_holds_the_numbers_as_they_are_written() {
    let geometry = read(TWO_COBOS);
    let header = &geometry.header;
    let texts = |items: &[&str]| Some(items.iter().map(|s| s.to_string()).collect::<Vec<_>>());
    assert_eq!(header.angles_deg, texts(&["90.0", "-30.0", "30.0"]));
    assert_eq!(header.diamond_size_mm, texts(&["1.5"]));
    assert_eq!(header.reference_point_mm, texts(&["-138.9971", "98.25"]));
    assert_eq!(header.drift_velocity_cm_per_us, texts(&["0.405"]));
    assert_eq!(header.sampling_rate_mhz, None);
    assert_eq!(header.trigger_delay_us, texts(&["5e-1"]));
    assert_eq!(header.drift_cage_acceptance_mm, texts(&["-98.0", "98.0"]));
}

#[test]
fn what_counts_as_a_number_is_what_reads_as_one() {
    for word in [
        "0", "-1.5", "+3", ".5", "5.", "1e3", "1E-3", "1e+3", "inf", "-inf", "NaN", "infinity", "", ".",
        "e5", "1e", "--1", "1.2.3", "0x1", "1_000", "1f", "nano", " ", "+", "-", "1e5.0", "+inf",
    ] {
        let content = format!("DIAMOND SIZE: {word}\n");
        let read_as_number = read(&content).header.diamond_size_mm.is_some();
        assert_eq!(read_as_number, word.parse::<f64>().is_ok(), "{word:?}");
    }
}

#[test]
fn noise_channels_share_the_chip_with_signals() {
    let mut geometry = read(TWO_COBOS);
    for (i, raw_ch) in FPN_RAW_CHANNELS.into_iter().enumerate() {
        assert_eq!(geometry.lookup(0, 0, 0, raw_ch), ChannelRole::Fpn { index: i as u8 + 1 });
    }
    assert_eq!(geometry.unmapped_hit_count(), 0);
}

#[test]
fn a_legacy_file_maps_the_first_board() {
    let mut geometry = read("U 12 1 20 0.0 0.0 512\n");
    assert_eq!(
        geometry.lookup(0, 0, 1, 21),
        ChannelRole::Strip { plane: Plane::U, section: 0, strip: 12 }
    );
    assert_eq!(geometry.asad_inventory(), vec![(0, 0)]);
}

#[test]
fn the_dump_has_a_row_for_each_raw_channel() {
    let geometry = read("V 3 12 0 1 1 10 0.0 0.0 512\nPulser 0 1 2 0\n");
    let dump = dump_tsv(&geometry);
    let rows: Vec<&str> = dump.lines().collect();
    assert_eq!(rows.len(), 2 * 4 * 68);
    assert_eq!(rows[0], "0\t0\t0\t0\tUnmapped\t\t\t");
    assert_eq!(rows[(4 + 1) * 68 + 10], "0\t1\t1\t10\tStrip\tV\t3\t12");
    assert_eq!(rows[(4 + 1) * 68 + 11], "0\t1\t1\t11\tFpn\t\t\t");
    assert_eq!(rows[(4 + 2) * 68], "0\t1\t2\t0\tAux\t\t\t");
}

#[test]
fn a_file_that_needs_too_many_channels_is_told_apart() {
    assert!(fits_in_memory("U 0 1 3 3 0 0 0.0 0.0 1\n"));
    assert!(!fits_in_memory("U 0 1 0 4294967295 0 0 0.0 0.0 1\n"));
}

#[test]
fn windows_line_ends_and_blanks_are_no_content() {
    let mut geometry = read("  U 0 1 0 0 0 0 0.0 0.0 10  \r\n   \r\n# x\r\nfoo\r\n");
    assert!(matches!(geometry.lookup(0, 0, 0, 0), ChannelRole::Strip { strip: 1, .. }));
    assert_eq!(geometry.malformed_lines(), &[MalformedLine { line_number: 4 }]);
}

#[test]
fn the_inventory_holds_the_boards_that_lines_name() {
    let geometry = read("A 0 2 0 0");
    assert_eq!(geometry.asad_inventory(), vec![(0, 2)]);
    assert_eq!(geometry.unmapped_hit_count(), 0);
    let geometry = read("A 3 1 2 0\nB 0 4 3 1\nC 3 1 0 5\nD 3 0 1 7\nE 2 9 4 0\n");
    assert_eq!(geometry.asad_inventory(), vec![(0, 4), (3, 0), (3, 1)]);
    assert_eq!(geometry.cobo_count(), 4);
    assert!(read("").asad_inventory().is_empty());
}

#[test]
fn noise_channels_are_never_mapped() {
    let mut geometry = read(TWO_COBOS);
    for (cobo, asad, aget) in [(0, 0, 0), (1, 2, 3), (1, 0, 0)] {
        for (i, raw_ch) in [11, 22, 45, 56].into_iter().enumerate() {
            assert_eq!(
                geometry.lookup(cobo, asad, aget, raw_ch),
                ChannelRole::Fpn { index: i as u8 + 1 }
            );
        }
    }
    assert_eq!(geometry.unmapped_hit_count(), 0);
}
