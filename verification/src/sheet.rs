//! How a detector stands in a geometry file, and what is therefore read of it.
//!
//! The laws here begin with what a line of the file is written from, a strip or an input and the
//! channel that reads it out, and say what is read of it; and they begin with what was read, and
//! say which words it was read of.

use vstd::prelude::*;

use crate::geometry;
use crate::geometry::{Entry, HeaderView, Mapping, Plane, RoleView};
use crate::text;

verus! {

/// The letter of a plane.
pub open spec fn letter(plane: Plane) -> char {
    match plane {
        Plane::U => 'U',
        Plane::V => 'V',
        Plane::W => 'W',
    }
}

/// How many of the channels 11, 22, 45 and 56, which record fixed-pattern noise, lie below a raw
/// channel.
pub open spec fn noise_below(raw_ch: int) -> int {
    (if raw_ch > 11 {
        1int
    } else {
        0
    }) + (if raw_ch > 22 {
        1int
    } else {
        0
    }) + (if raw_ch > 45 {
        1int
    } else {
        0
    }) + (if raw_ch > 56 {
        1int
    } else {
        0
    })
}

/// Whether a raw channel is that of a signal channel: it records no noise, and as many other
/// channels that record none lie below it as the signal channel says.
pub open spec fn reads_out(raw_ch: int, signal_ch: nat) -> bool {
    &&& raw_ch == signal_ch + noise_below(raw_ch)
    &&& raw_ch != 11
    &&& raw_ch != 22
    &&& raw_ch != 45
    &&& raw_ch != 56
}

proof fn lemma_letters(plane: Plane)
    ensures
        geometry::plane_name(plane) == seq![letter(plane)],
        geometry::plane_of(seq![letter(plane)]) == Some(plane),
{
    reveal_strlit("U");
    reveal_strlit("V");
    reveal_strlit("W");
    geometry::law_plane_names_round_trip(plane);
    assert(geometry::plane_name(plane) =~= seq![letter(plane)]);
}

/// A plane is named by its letter, and nothing else names one.
pub proof fn law_planes_have_letters(name: Seq<char>, plane: Plane)
    ensures
        geometry::plane_name(plane) == seq![letter(plane)],
        geometry::plane_of(name) == Some(plane) <==> name == seq![letter(plane)],
{
    lemma_letters(Plane::U);
    lemma_letters(Plane::V);
    lemma_letters(Plane::W);
}

/// A line of ten words gives a strip by plane, section and strip, and its channel by CoBo, AsAd,
/// AGET and signal channel. Three fractions follow.
pub open spec fn gives_strip(t: Seq<Seq<char>>, at: Mapping) -> bool {
    &&& t.len() == 10
    &&& at.role matches RoleView::Strip { plane, section, strip } && t[0] == seq![letter(plane)]
        && text::unsigned(t[1]) == Some(section as nat) && text::unsigned(t[2]) == Some(
        strip as nat,
    )
    &&& text::unsigned(t[3]) == Some(at.cobo as nat)
    &&& text::unsigned(t[4]) == Some(at.asad as nat)
    &&& text::unsigned(t[5]) == Some(at.aget as nat)
    &&& at.aget < 4
    &&& text::unsigned(t[6]) matches Some(signal_ch) && signal_ch < 64 && reads_out(
        at.raw_ch as int,
        signal_ch,
    )
    &&& text::is_fraction(t[7]) && text::is_fraction(t[8]) && text::is_fraction(t[9])
}

/// A line of seven words gives a strip of section 0 by plane and strip, and its channel on CoBo 0
/// and AsAd 0 by AGET and signal channel. Three fractions follow.
pub open spec fn gives_plain_strip(t: Seq<Seq<char>>, at: Mapping) -> bool {
    &&& t.len() == 7
    &&& at.role matches RoleView::Strip { plane, section, strip } && t[0] == seq![letter(plane)]
        && section == 0 && text::unsigned(t[1]) == Some(strip as nat)
    &&& at.cobo == 0
    &&& at.asad == 0
    &&& text::unsigned(t[2]) == Some(at.aget as nat)
    &&& at.aget < 4
    &&& text::unsigned(t[3]) matches Some(signal_ch) && signal_ch < 64 && reads_out(
        at.raw_ch as int,
        signal_ch,
    )
    &&& text::is_fraction(t[4]) && text::is_fraction(t[5]) && text::is_fraction(t[6])
}

/// A line of five words gives an input by its name, and its channel by CoBo, AsAd, AGET and signal
/// channel.
pub open spec fn gives_input(t: Seq<Seq<char>>, at: Mapping) -> bool {
    &&& t.len() == 5
    &&& at.role == (RoleView::Aux { name: t[0] })
    &&& text::unsigned(t[1]) == Some(at.cobo as nat)
    &&& text::unsigned(t[2]) == Some(at.asad as nat)
    &&& text::unsigned(t[3]) == Some(at.aget as nat)
    &&& at.aget < 4
    &&& text::unsigned(t[4]) matches Some(signal_ch) && signal_ch < 64 && reads_out(
        at.raw_ch as int,
        signal_ch,
    )
}

/// A line maps a channel to a role exactly where its words give that channel and that role: the
/// plane of a strip is the one that the first word names, and its number the one in the strip's
/// column.
pub proof fn law_a_line_maps_what_it_gives(t: Seq<Seq<char>>, at: Mapping)
    ensures
        geometry::mapping(t) == Some(at) <==> gives_strip(t, at) || gives_plain_strip(t, at)
            || gives_input(t, at),
{
    lemma_letters(Plane::U);
    lemma_letters(Plane::V);
    lemma_letters(Plane::W);
    assert(forall|c: int, signal_ch: nat|
        signal_ch < 64 && #[trigger] reads_out(c, signal_ch) ==> c == geometry::raw_channel(
            signal_ch as int,
        ));
    assert(forall|signal_ch: nat|
        signal_ch < 64 ==> reads_out(
            #[trigger] geometry::raw_channel(signal_ch as int),
            signal_ch,
        ));
}

/// Writing a strip as a line of ten words and reading the line gives the same strip and channel.
pub proof fn law_a_written_strip_is_read(
    plane: Plane,
    section: u8,
    strip: u16,
    cobo: u32,
    asad: u32,
    aget: u32,
    signal_ch: nat,
    raw_ch: u32,
    fractions: Seq<Seq<char>>,
)
    requires
        aget < 4,
        signal_ch < 64,
        reads_out(raw_ch as int, signal_ch),
        fractions.len() == 3,
        forall|k: int| 0 <= k < 3 ==> text::is_fraction(#[trigger] fractions[k]),
    ensures
        geometry::mapping(
            seq![
                seq![letter(plane)],
                text::decimal(section as nat),
                text::decimal(strip as nat),
                text::decimal(cobo as nat),
                text::decimal(asad as nat),
                text::decimal(aget as nat),
                text::decimal(signal_ch),
            ] + fractions,
        ) == Some(
            Mapping { cobo, asad, aget, raw_ch, role: RoleView::Strip { plane, section, strip } },
        ),
        geometry::mapping(
            seq![
                seq![letter(plane)],
                text::decimal(strip as nat),
                text::decimal(aget as nat),
                text::decimal(signal_ch),
            ] + fractions,
        ) == Some(
            Mapping {
                cobo: 0,
                asad: 0,
                aget,
                raw_ch,
                role: RoleView::Strip { plane, section: 0, strip },
            },
        ),
{
    text::law_decimal_round_trip(section as nat);
    text::law_decimal_round_trip(strip as nat);
    text::law_decimal_round_trip(cobo as nat);
    text::law_decimal_round_trip(asad as nat);
    text::law_decimal_round_trip(aget as nat);
    text::law_decimal_round_trip(signal_ch);
    let long = seq![
        seq![letter(plane)],
        text::decimal(section as nat),
        text::decimal(strip as nat),
        text::decimal(cobo as nat),
        text::decimal(asad as nat),
        text::decimal(aget as nat),
        text::decimal(signal_ch),
    ] + fractions;
    let short = seq![
        seq![letter(plane)],
        text::decimal(strip as nat),
        text::decimal(aget as nat),
        text::decimal(signal_ch),
    ] + fractions;
    assert(long[7] == fractions[0] && long[8] == fractions[1] && long[9] == fractions[2]);
    assert(short[4] == fractions[0] && short[5] == fractions[1] && short[6] == fractions[2]);
    let at = Mapping {
        cobo,
        asad,
        aget,
        raw_ch,
        role: RoleView::Strip { plane, section, strip },
    };
    let plain = Mapping {
        cobo: 0,
        asad: 0,
        aget,
        raw_ch,
        role: RoleView::Strip { plane, section: 0, strip },
    };
    assert(gives_strip(long, at));
    assert(gives_plain_strip(short, plain));
    law_a_line_maps_what_it_gives(long, at);
    law_a_line_maps_what_it_gives(short, plain);
}

/// Writing an input as a line and reading the line gives the same input and channel.
pub proof fn law_a_written_input_is_read(
    name: Seq<char>,
    cobo: u32,
    asad: u32,
    aget: u32,
    signal_ch: nat,
    raw_ch: u32,
)
    requires
        aget < 4,
        signal_ch < 64,
        reads_out(raw_ch as int, signal_ch),
    ensures
        geometry::mapping(
            seq![
                name,
                text::decimal(cobo as nat),
                text::decimal(asad as nat),
                text::decimal(aget as nat),
                text::decimal(signal_ch),
            ],
        ) == Some(Mapping { cobo, asad, aget, raw_ch, role: RoleView::Aux { name } }),
{
    text::law_decimal_round_trip(cobo as nat);
    text::law_decimal_round_trip(asad as nat);
    text::law_decimal_round_trip(aget as nat);
    text::law_decimal_round_trip(signal_ch);
    let t = seq![
        name,
        text::decimal(cobo as nat),
        text::decimal(asad as nat),
        text::decimal(aget as nat),
        text::decimal(signal_ch),
    ];
    let at = Mapping { cobo, asad, aget, raw_ch, role: RoleView::Aux { name } };
    assert(gives_input(t, at));
    law_a_line_maps_what_it_gives(t, at);
}

proof fn lemma_last_word(front: Seq<char>, word: Seq<char>)
    requires
        word.len() > 0,
        forall|i: int| 0 <= i < word.len() ==> !text::is_space(#[trigger] word[i]),
        front.len() > 0 ==> text::is_space(front.last()),
    ensures
        text::last_word_start(front + word) == front.len(),
        text::words(front + word) == text::words(front).push(word),
    decreases word.len(),
{
    let s = front + word;
    assert(s.last() == word.last());
    assert(s.drop_last() =~= front + word.drop_last());
    if word.len() == 1 {
        assert(s.drop_last() =~= front);
        assert(text::last_word_start(front) == front.len());
    } else {
        assert forall|i: int| 0 <= i < word.drop_last().len() implies !text::is_space(
            #[trigger] word.drop_last()[i],
        ) by {
            assert(word.drop_last()[i] == word[i]);
        }
        lemma_last_word(front, word.drop_last());
    }
    assert(s.take(front.len() as int) =~= front);
    assert(s.skip(front.len() as int) =~= word);
}

/// The words that a line is written from, with a space between any two, are its words.
pub proof fn law_a_line_is_read_word_by_word(t: Seq<Seq<char>>)
    requires
        t.len() > 0,
        forall|k: int| 0 <= k < t.len() ==> (#[trigger] t[k]).len() > 0,
        forall|k: int, i: int|
            0 <= k < t.len() && 0 <= i < t[k].len() ==> !text::is_space(#[trigger] t[k][i]),
    ensures
        text::words(text::join(t, seq![' '])) == t,
    decreases t.len(),
{
    let last = t.last();
    assert(last == t[t.len() - 1]);
    assert(last.len() > 0);
    if t.len() == 1 {
        lemma_last_word(Seq::empty(), last);
        assert(Seq::<char>::empty() + last =~= last);
        assert(text::words(Seq::<char>::empty()).push(last) =~= t);
    } else {
        let before = t.drop_last();
        assert forall|k: int| 0 <= k < before.len() implies (#[trigger] before[k]).len() > 0 by {
            assert(before[k] == t[k]);
        }
        assert forall|k: int, i: int|
            0 <= k < before.len() && 0 <= i < before[k].len() implies !text::is_space(
            #[trigger] before[k][i],
        ) by {
            assert(before[k] == t[k]);
        }
        law_a_line_is_read_word_by_word(before);
        let front = text::join(before, seq![' ']) + seq![' '];
        assert(front.drop_last() =~= text::join(before, seq![' ']));
        lemma_last_word(front, last);
        assert(before.push(last) =~= t);
    }
}

/// What is read of a file are the mappings of its lines, in order: an entry maps what the words of
/// its line give.
pub proof fn law_entries_are_read_of_their_lines(lines: Seq<Seq<char>>, k: int)
    requires
        0 <= k < geometry::reading(lines).entries.len(),
    ensures
        ({
            let e = geometry::reading(lines).entries[k];
            let t = text::words(text::trimmed(lines[e.line_number - 1]));
            &&& 1 <= e.line_number <= lines.len()
            &&& gives_strip(t, e.at) || gives_plain_strip(t, e.at) || gives_input(t, e.at)
        }),
    decreases lines.len(),
{
    if lines.len() > 0 {
        let before = lines.drop_last();
        let r = geometry::reading(before);
        let e = geometry::reading(lines).entries[k];
        if k < r.entries.len() {
            law_entries_are_read_of_their_lines(before, k);
            assert(before[e.line_number - 1] == lines[e.line_number - 1]);
        } else {
            let t = text::words(text::trimmed(lines.last()));
            law_a_line_maps_what_it_gives(t, e.at);
        }
    }
}

/// The highest strip of a plane is one of it, or 0, and none of the plane is higher.
pub proof fn law_the_highest_strip(entries: Seq<Entry>, plane: Plane)
    ensures
        geometry::highest_strip(entries, plane) == 0 || exists|k: int|
            0 <= k < entries.len() && is_strip(
                #[trigger] entries[k],
                plane,
                geometry::highest_strip(entries, plane),
            ),
        forall|k: int, strip: u16|
            0 <= k < entries.len() && #[trigger] is_strip(entries[k], plane, strip) ==> strip
                <= geometry::highest_strip(entries, plane),
    decreases entries.len(),
{
    if entries.len() > 0 {
        let before = entries.drop_last();
        law_the_highest_strip(before, plane);
        let top = geometry::highest_strip(entries, plane);
        if top == geometry::highest_strip(before, plane) && top > 0 {
            let k = choose|k: int|
                0 <= k < before.len() && is_strip(#[trigger] before[k], plane, top);
            assert(is_strip(entries[k], plane, top));
        } else if top > 0 {
            assert(is_strip(entries[entries.len() - 1], plane, top));
        }
        assert forall|k: int, strip: u16|
            0 <= k < entries.len() && #[trigger] is_strip(entries[k], plane, strip) implies strip
            <= top by {
            if k < before.len() {
                assert(is_strip(before[k], plane, strip));
            }
        }
    }
}

/// Whether an entry is for this strip of a plane.
pub open spec fn is_strip(entry: Entry, plane: Plane, strip: u16) -> bool {
    entry.at.role matches RoleView::Strip { plane: p, strip: s, .. } && p == plane && s == strip
}

proof fn lemma_keys()
    ensures
        "ANGLES:"@[0] == 'A',
        "ANGLES:"@.len() == 7,
        "DIAMOND SIZE:"@[0] == 'D',
        "DIAMOND SIZE:"@[1] == 'I',
        "DIAMOND SIZE:"@.len() == 13,
        "REFERENCE POINT:"@[0] == 'R',
        "REFERENCE POINT:"@.len() == 16,
        "DRIFT VELOCITY:"@[1] == 'R',
        "DRIFT VELOCITY:"@[0] == 'D',
        "DRIFT VELOCITY:"@[6] == 'V',
        "DRIFT VELOCITY:"@.len() == 15,
        "SAMPLING RATE:"@[0] == 'S',
        "SAMPLING RATE:"@.len() == 14,
        "TRIGGER DELAY:"@[0] == 'T',
        "TRIGGER DELAY:"@.len() == 14,
        "DRIFT CAGE ACCEPTANCE:"@[0] == 'D',
        "DRIFT CAGE ACCEPTANCE:"@[1] == 'R',
        "DRIFT CAGE ACCEPTANCE:"@[6] == 'C',
        "DRIFT CAGE ACCEPTANCE:"@.len() == 22,
{
    reveal_strlit("ANGLES:");
    reveal_strlit("DIAMOND SIZE:");
    reveal_strlit("REFERENCE POINT:");
    reveal_strlit("DRIFT VELOCITY:");
    reveal_strlit("SAMPLING RATE:");
    reveal_strlit("TRIGGER DELAY:");
    reveal_strlit("DRIFT CAGE ACCEPTANCE:");
}

/// A key with what follows it on its line.
pub open spec fn keyed(key: Seq<char>, rest: Seq<char>) -> Seq<char> {
    key + rest
}

/// Every key of the header has a value of its own, and takes the decimal fractions behind it: three
/// angles, the size of a diamond, the two coordinates of the reference point, the drift velocity,
/// the sampling rate, the delay of the trigger, and the two limits of the drift cage.
pub proof fn law_every_key_has_its_value(h: HeaderView, rest: Seq<char>)
    ensures
        geometry::scalars_after(h, keyed("ANGLES:"@, rest)) == Some(
            HeaderView { angles_deg: geometry::exactly(rest, 3), ..h },
        ),
        geometry::scalars_after(h, keyed("DIAMOND SIZE:"@, rest)) == Some(
            HeaderView { diamond_size_mm: geometry::exactly(rest, 1), ..h },
        ),
        geometry::scalars_after(h, keyed("REFERENCE POINT:"@, rest)) == Some(
            HeaderView { reference_point_mm: geometry::exactly(rest, 2), ..h },
        ),
        geometry::scalars_after(h, keyed("DRIFT VELOCITY:"@, rest)) == Some(
            HeaderView { drift_velocity_cm_per_us: geometry::exactly(rest, 1), ..h },
        ),
        geometry::scalars_after(h, keyed("SAMPLING RATE:"@, rest)) == Some(
            HeaderView { sampling_rate_mhz: geometry::exactly(rest, 1), ..h },
        ),
        geometry::scalars_after(h, keyed("TRIGGER DELAY:"@, rest)) == Some(
            HeaderView { trigger_delay_us: geometry::exactly(rest, 1), ..h },
        ),
        geometry::scalars_after(h, keyed("DRIFT CAGE ACCEPTANCE:"@, rest)) == Some(
            HeaderView { drift_cage_acceptance_mm: geometry::exactly(rest, 2), ..h },
        ),
{
    lemma_keys();
    lemma_begins("ANGLES:"@, rest);
    lemma_begins("DIAMOND SIZE:"@, rest);
    lemma_keyed("DIAMOND SIZE:"@, rest, "ANGLES:"@);
    lemma_begins("REFERENCE POINT:"@, rest);
    lemma_keyed("REFERENCE POINT:"@, rest, "ANGLES:"@);
    lemma_keyed("REFERENCE POINT:"@, rest, "DIAMOND SIZE:"@);
    lemma_begins("DRIFT VELOCITY:"@, rest);
    lemma_keyed("DRIFT VELOCITY:"@, rest, "ANGLES:"@);
    lemma_keyed("DRIFT VELOCITY:"@, rest, "DIAMOND SIZE:"@);
    lemma_keyed("DRIFT VELOCITY:"@, rest, "REFERENCE POINT:"@);
    lemma_begins("SAMPLING RATE:"@, rest);
    lemma_keyed("SAMPLING RATE:"@, rest, "ANGLES:"@);
    lemma_keyed("SAMPLING RATE:"@, rest, "DIAMOND SIZE:"@);
    lemma_keyed("SAMPLING RATE:"@, rest, "REFERENCE POINT:"@);
    lemma_keyed("SAMPLING RATE:"@, rest, "DRIFT VELOCITY:"@);
    lemma_begins("TRIGGER DELAY:"@, rest);
    lemma_keyed("TRIGGER DELAY:"@, rest, "ANGLES:"@);
    lemma_keyed("TRIGGER DELAY:"@, rest, "DIAMOND SIZE:"@);
    lemma_keyed("TRIGGER DELAY:"@, rest, "REFERENCE POINT:"@);
    lemma_keyed("TRIGGER DELAY:"@, rest, "DRIFT VELOCITY:"@);
    lemma_keyed("TRIGGER DELAY:"@, rest, "SAMPLING RATE:"@);
    lemma_begins("DRIFT CAGE ACCEPTANCE:"@, rest);
    lemma_keyed("DRIFT CAGE ACCEPTANCE:"@, rest, "ANGLES:"@);
    lemma_keyed("DRIFT CAGE ACCEPTANCE:"@, rest, "DIAMOND SIZE:"@);
    lemma_keyed("DRIFT CAGE ACCEPTANCE:"@, rest, "REFERENCE POINT:"@);
    lemma_keyed("DRIFT CAGE ACCEPTANCE:"@, rest, "DRIFT VELOCITY:"@);
    lemma_keyed("DRIFT CAGE ACCEPTANCE:"@, rest, "SAMPLING RATE:"@);
    lemma_keyed("DRIFT CAGE ACCEPTANCE:"@, rest, "TRIGGER DELAY:"@);
}

proof fn lemma_begins(key: Seq<char>, rest: Seq<char>)
    ensures
        text::begins(keyed(key, rest), key),
        keyed(key, rest).skip(key.len() as int) == rest,
{
    let line = keyed(key, rest);
    assert(line.take(key.len() as int) =~= key);
    assert(line.skip(key.len() as int) =~= rest);
}

proof fn lemma_keyed(key: Seq<char>, rest: Seq<char>, other: Seq<char>)
    requires
        key.len() > 6,
        other.len() > 6,
        other[0] != key[0] || other[1] != key[1] || other[6] != key[6],
    ensures
        !text::begins(keyed(key, rest), other),
{
    let line = keyed(key, rest);
    if text::begins(line, other) {
        assert(line[0] == other[0] && line[1] == other[1] && line[6] == other[6]);
    }
}

/// A row of the dump holds eight columns with a tab between any two: CoBo, AsAd, AGET and raw
/// channel, the kind of the role, and plane, section and strip, which are empty for what is no
/// strip.
pub proof fn law_a_row_holds_its_columns(
    cobo: nat,
    asad: nat,
    aget: nat,
    raw_ch: nat,
    plane: Plane,
    section: u8,
    strip: u16,
    index: u8,
    name: Seq<char>,
)
    ensures
        geometry::row(cobo, asad, aget, raw_ch, RoleView::Strip { plane, section, strip })
            == text::join(
            seq![
                text::decimal(cobo),
                text::decimal(asad),
                text::decimal(aget),
                text::decimal(raw_ch),
                "Strip"@,
                seq![letter(plane)],
                text::decimal(section as nat),
                text::decimal(strip as nat),
            ],
            seq!['\t'],
        ).push('\n'),
        geometry::row(cobo, asad, aget, raw_ch, RoleView::Fpn { index }) == bare_row(
            cobo,
            asad,
            aget,
            raw_ch,
            "Fpn"@,
        ),
        geometry::row(cobo, asad, aget, raw_ch, RoleView::Aux { name }) == bare_row(
            cobo,
            asad,
            aget,
            raw_ch,
            "Aux"@,
        ),
        geometry::row(cobo, asad, aget, raw_ch, RoleView::Unmapped) == bare_row(
            cobo,
            asad,
            aget,
            raw_ch,
            "Unmapped"@,
        ),
{
    reveal_strlit("\t");
    reveal_strlit("\t\t");
    reveal_strlit("\n");
    lemma_letters(plane);
    let a = seq![
        text::decimal(cobo),
        text::decimal(asad),
        text::decimal(aget),
        text::decimal(raw_ch),
        "Strip"@,
        seq![letter(plane)],
        text::decimal(section as nat),
        text::decimal(strip as nat),
    ];
    lemma_join_eight(a, seq!['\t']);
    assert("\t"@ =~= seq!['\t']);
    assert("\t\t"@ =~= seq!['\t', '\t']);
    assert("\n"@ =~= seq!['\n']);
    assert(geometry::row(cobo, asad, aget, raw_ch, RoleView::Strip { plane, section, strip })
        =~= text::join(a, seq!['\t']).push('\n'));
    lemma_bare_row(cobo, asad, aget, raw_ch, RoleView::Fpn { index });
    lemma_bare_row(cobo, asad, aget, raw_ch, RoleView::Aux { name });
    lemma_bare_row(cobo, asad, aget, raw_ch, RoleView::Unmapped);
}

/// A row of a channel that reads out no strip.
pub open spec fn bare_row(cobo: nat, asad: nat, aget: nat, raw_ch: nat, kind: Seq<char>) -> Seq<char> {
    text::join(
        seq![
            text::decimal(cobo),
            text::decimal(asad),
            text::decimal(aget),
            text::decimal(raw_ch),
            kind,
            Seq::empty(),
            Seq::empty(),
            Seq::empty(),
        ],
        seq!['\t'],
    ).push('\n')
}

proof fn lemma_bare_row(cobo: nat, asad: nat, aget: nat, raw_ch: nat, role: RoleView)
    requires
        !(role is Strip),
    ensures
        geometry::row(cobo, asad, aget, raw_ch, role) == bare_row(
            cobo,
            asad,
            aget,
            raw_ch,
            geometry::role_name(role),
        ),
{
    reveal_strlit("\t");
    reveal_strlit("\t\t");
    reveal_strlit("\n");
    assert("\t"@ =~= seq!['\t']);
    assert("\t\t"@ =~= seq!['\t', '\t']);
    assert("\n"@ =~= seq!['\n']);
    let a = seq![
        text::decimal(cobo),
        text::decimal(asad),
        text::decimal(aget),
        text::decimal(raw_ch),
        geometry::role_name(role),
        Seq::empty(),
        Seq::empty(),
        Seq::empty(),
    ];
    lemma_join_eight(a, seq!['\t']);
    assert(geometry::row(cobo, asad, aget, raw_ch, role) =~= text::join(a, seq!['\t']).push('\n'));
}

proof fn lemma_join_eight(a: Seq<Seq<char>>, c: Seq<char>)
    requires
        a.len() == 8,
    ensures
        text::join(a, c) == a[0] + c + a[1] + c + a[2] + c + a[3] + c + a[4] + c + a[5] + c + a[6] + c
            + a[7],
{
    assert(a.take(8) =~= a);
    assert(a.take(8).drop_last() =~= a.take(7));
    assert(a.take(7).drop_last() =~= a.take(6));
    assert(a.take(6).drop_last() =~= a.take(5));
    assert(a.take(5).drop_last() =~= a.take(4));
    assert(a.take(4).drop_last() =~= a.take(3));
    assert(a.take(3).drop_last() =~= a.take(2));
    assert(a.take(2).drop_last() =~= a.take(1));
    assert(text::join(a.take(1), c) == a[0]);
    assert(text::join(a.take(2), c) == a[0] + c + a[1]);
    assert(text::join(a.take(3), c) == text::join(a.take(2), c) + c + a[2]);
    assert(text::join(a.take(4), c) == text::join(a.take(3), c) + c + a[3]);
    assert(text::join(a.take(5), c) == text::join(a.take(4), c) + c + a[4]);
    assert(text::join(a.take(6), c) == text::join(a.take(5), c) + c + a[5]);
    assert(text::join(a.take(7), c) == text::join(a.take(6), c) + c + a[6]);
    assert(text::join(a.take(8), c) == text::join(a.take(7), c) + c + a[7]);
}

proof fn lemma_first(entries: Seq<Entry>, cobo: u32, asad: u32, aget: u32, raw_ch: u32, k: int)
    requires
        0 <= k <= entries.len(),
        forall|j: int| 0 <= j < k ==> !is_for(#[trigger] entries[j], cobo, asad, aget, raw_ch),
        k < entries.len() ==> is_for(entries[k], cobo, asad, aget, raw_ch),
    ensures
        geometry::first_for(entries, cobo, asad, aget, raw_ch) == k,
    decreases entries.len(),
{
    if entries.len() > 0 {
        let before = entries.drop_last();
        if k < entries.len() {
            assert forall|j: int| 0 <= j < k implies !is_for(
                #[trigger] before[j],
                cobo,
                asad,
                aget,
                raw_ch,
            ) by {
                assert(before[j] == entries[j]);
            }
            if k < before.len() {
                assert(before[k] == entries[k]);
            }
            lemma_first(before, cobo, asad, aget, raw_ch, k);
        } else {
            assert forall|j: int| 0 <= j < before.len() implies !is_for(
                #[trigger] before[j],
                cobo,
                asad,
                aget,
                raw_ch,
            ) by {
                assert(before[j] == entries[j]);
            }
            assert(!is_for(entries[entries.len() - 1], cobo, asad, aget, raw_ch));
            lemma_first(before, cobo, asad, aget, raw_ch, before.len() as int);
        }
    }
}

/// Whether an entry is for this channel.
pub open spec fn is_for(entry: Entry, cobo: u32, asad: u32, aget: u32, raw_ch: u32) -> bool {
    entry.at.cobo == cobo && entry.at.asad == asad && entry.at.aget == aget && entry.at.raw_ch
        == raw_ch
}

/// Whether an entry is for a channel of this chip.
pub open spec fn is_on(entry: Entry, cobo: u32, asad: u32, aget: u32) -> bool {
    entry.at.cobo == cobo && entry.at.asad == asad && entry.at.aget == aget
}

/// The role of a channel that records no noise is the one that the first entry for it gives, and
/// none where there is none.
pub proof fn law_the_first_entry_gives_the_role(
    entries: Seq<Entry>,
    cobo: u32,
    asad: u32,
    aget: u32,
    raw_ch: u32,
    k: int,
)
    requires
        raw_ch != 11,
        raw_ch != 22,
        raw_ch != 45,
        raw_ch != 56,
        0 <= k <= entries.len(),
        forall|j: int| 0 <= j < k ==> !is_for(#[trigger] entries[j], cobo, asad, aget, raw_ch),
        k < entries.len() ==> is_for(entries[k], cobo, asad, aget, raw_ch),
    ensures
        geometry::role_at(entries, cobo, asad, aget, raw_ch) == if k < entries.len() {
            entries[k].at.role
        } else {
            RoleView::Unmapped
        },
{
    lemma_first(entries, cobo, asad, aget, raw_ch, k);
}

proof fn lemma_active(entries: Seq<Entry>, cobo: u32, asad: u32, aget: u32)
    ensures
        geometry::active(entries, cobo, asad, aget) <==> exists|k: int|
            0 <= k < entries.len() && is_on(#[trigger] entries[k], cobo, asad, aget),
    decreases entries.len(),
{
    if entries.len() > 0 {
        let before = entries.drop_last();
        lemma_active(before, cobo, asad, aget);
        if exists|k: int| 0 <= k < before.len() && is_on(#[trigger] before[k], cobo, asad, aget) {
            let k = choose|k: int| 0 <= k < before.len() && is_on(#[trigger] before[k], cobo, asad, aget);
            assert(is_on(entries[k], cobo, asad, aget));
        }
        if is_on(entries.last(), cobo, asad, aget) {
            assert(is_on(entries[entries.len() - 1], cobo, asad, aget));
        }
        assert forall|k: int| 0 <= k < before.len() && is_on(
            #[trigger] entries[k],
            cobo,
            asad,
            aget,
        ) implies is_on(before[k], cobo, asad, aget) by {}
    }
}

/// The channels 11, 22, 45 and 56 of a chip that any entry is for record its noise, and are numbered
/// from 1 to 4.
pub proof fn law_noise_is_recorded_on_chips_in_use(
    entries: Seq<Entry>,
    cobo: u32,
    asad: u32,
    aget: u32,
    k: int,
)
    requires
        0 <= k < entries.len(),
        is_on(entries[k], cobo, asad, aget),
    ensures
        geometry::role_at(entries, cobo, asad, aget, 11) == (RoleView::Fpn { index: 1 }),
        geometry::role_at(entries, cobo, asad, aget, 22) == (RoleView::Fpn { index: 2 }),
        geometry::role_at(entries, cobo, asad, aget, 45) == (RoleView::Fpn { index: 3 }),
        geometry::role_at(entries, cobo, asad, aget, 56) == (RoleView::Fpn { index: 4 }),
{
    lemma_active(entries, cobo, asad, aget);
}

/// A chip that no entry is for has no role on any channel.
pub proof fn law_other_chips_have_no_roles(
    entries: Seq<Entry>,
    cobo: u32,
    asad: u32,
    aget: u32,
    raw_ch: u32,
)
    requires
        forall|k: int| 0 <= k < entries.len() ==> !is_on(#[trigger] entries[k], cobo, asad, aget),
    ensures
        geometry::role_at(entries, cobo, asad, aget, raw_ch) == RoleView::Unmapped,
{
    lemma_active(entries, cobo, asad, aget);
    assert forall|k: int| 0 <= k < entries.len() implies !is_for(
        #[trigger] entries[k],
        cobo,
        asad,
        aget,
        raw_ch,
    ) by {
        assert(!is_on(entries[k], cobo, asad, aget));
    }
    lemma_first(entries, cobo, asad, aget, raw_ch, entries.len() as int);
}

/// An entry is reported as a repetition exactly where an earlier one is for the same channel.
pub proof fn law_repetitions_are_reported(entries: Seq<Entry>, e: Entry)
    ensures
        geometry::repeats(entries.push(e)) == if exists|j: int|
            0 <= j < entries.len() && is_for(
                #[trigger] entries[j],
                e.at.cobo,
                e.at.asad,
                e.at.aget,
                e.at.raw_ch,
            ) {
            geometry::repeats(entries).push(e)
        } else {
            geometry::repeats(entries)
        },
{
    let a = e.at;
    assert(entries.push(e).drop_last() =~= entries);
    let k = lemma_some_first(entries, a.cobo, a.asad, a.aget, a.raw_ch, 0);
    lemma_first(entries, a.cobo, a.asad, a.aget, a.raw_ch, k);
}

proof fn lemma_some_first(
    entries: Seq<Entry>,
    cobo: u32,
    asad: u32,
    aget: u32,
    raw_ch: u32,
    from: int,
) -> (k: int)
    requires
        0 <= from <= entries.len(),
        forall|j: int| 0 <= j < from ==> !is_for(#[trigger] entries[j], cobo, asad, aget, raw_ch),
    ensures
        from <= k <= entries.len(),
        forall|j: int| 0 <= j < k ==> !is_for(#[trigger] entries[j], cobo, asad, aget, raw_ch),
        k < entries.len() ==> is_for(entries[k], cobo, asad, aget, raw_ch),
    decreases entries.len() - from,
{
    if from == entries.len() || is_for(entries[from], cobo, asad, aget, raw_ch) {
        from
    } else {
        lemma_some_first(entries, cobo, asad, aget, raw_ch, from + 1)
    }
}

/// There are as many CoBos as the highest number needs, and a CoBo has as many AsAd boards as the
/// highest number among its entries needs; no entries need none.
pub proof fn law_boards_are_as_many_as_needed(entries: Seq<Entry>, cobo: u32)
    ensures
        forall|k: int|
            0 <= k < entries.len() ==> (#[trigger] entries[k]).at.cobo < geometry::cobo_total(
                entries,
            ),
        geometry::cobo_total(entries) > 0 ==> exists|k: int|
            0 <= k < entries.len() && (#[trigger] entries[k]).at.cobo + 1 == geometry::cobo_total(
                entries,
            ),
        forall|k: int|
            0 <= k < entries.len() && (#[trigger] entries[k]).at.cobo == cobo ==> entries[k].at.asad
                < geometry::asad_total(entries, cobo as int),
        geometry::asad_total(entries, cobo as int) > 0 ==> exists|k: int|
            0 <= k < entries.len() && (#[trigger] entries[k]).at.cobo == cobo && entries[k].at.asad + 1
                == geometry::asad_total(entries, cobo as int),
    decreases entries.len(),
{
    if entries.len() > 0 {
        let before = entries.drop_last();
        let last = entries.len() - 1;
        law_boards_are_as_many_as_needed(before, cobo);
        let n = geometry::cobo_total(entries);
        if n == geometry::cobo_total(before) && n > 0 {
            let k = choose|k: int| 0 <= k < before.len() && (#[trigger] before[k]).at.cobo + 1 == n;
            assert(entries[k].at.cobo + 1 == n);
        } else {
            assert(entries[last].at.cobo + 1 == n);
        }
        let m = geometry::asad_total(entries, cobo as int);
        if m == geometry::asad_total(before, cobo as int) {
            if m > 0 {
                let k = choose|k: int|
                    0 <= k < before.len() && (#[trigger] before[k]).at.cobo == cobo
                        && before[k].at.asad + 1 == m;
                assert(entries[k].at.cobo == cobo && entries[k].at.asad + 1 == m);
            }
        } else {
            assert(entries[last].at.cobo == cobo && entries[last].at.asad + 1 == m);
        }
        assert forall|k: int| 0 <= k < entries.len() implies (#[trigger] entries[k]).at.cobo < n by {
            if k < last {
                assert(before[k] == entries[k]);
            }
        }
        assert forall|k: int| 0 <= k < entries.len() && (#[trigger] entries[k]).at.cobo
            == cobo implies entries[k].at.asad < m by {
            if k < last {
                assert(before[k] == entries[k]);
            }
        }
    }
}

/// The fractions of a line are those of its words that are fractions, in order; other words are
/// passed over.
pub proof fn law_other_words_are_passed_over(t: Seq<Seq<char>>)
    ensures
        geometry::fractions(t) == t.filter(|w: Seq<char>| text::is_fraction(w)),
    decreases t.len(),
{
    reveal(Seq::filter);
    if t.len() > 0 {
        law_other_words_are_passed_over(t.drop_last());
    }
}

/// A header value is known exactly where its line holds as many fractions as it needs.
pub proof fn law_a_header_value_needs_its_fractions(line: Seq<char>, n: nat)
    ensures
        ({
            let found = text::words(line).filter(|w: Seq<char>| text::is_fraction(w));
            geometry::exactly(line, n) == if found.len() == n {
                Some(found)
            } else {
                None
            }
        }),
{
    law_other_words_are_passed_over(text::words(line));
}

/// Where the row of a channel begins in the dump.
pub open spec fn row_start(
    g: geometry::Geometry,
    cobo: u32,
    asad: u32,
    aget: u32,
    raw_ch: u32,
) -> int {
    (g.rows(cobo as int) + g.cobo_rows(cobo, asad as int) + g.board_rows(cobo, asad, aget as int)
        + g.chip_rows(cobo, asad, aget, raw_ch as int)).len() as int
}

/// The row of a channel, with the role that the geometry gives it.
pub open spec fn row_of(g: geometry::Geometry, cobo: u32, asad: u32, aget: u32, raw_ch: u32) -> Seq<
    char,
> {
    geometry::row(
        cobo as nat,
        asad as nat,
        aget as nat,
        raw_ch as nat,
        g.role(cobo, asad, aget, raw_ch),
    )
}

/// The dump gives every channel a row with its place and its role, from the first raw channel of the
/// first chip on: behind a row stands that of the next raw channel, or of the next chip, board or
/// CoBo where there is no further one; behind the last row stands nothing.
pub proof fn law_the_dump_lists_every_channel(
    g: geometry::Geometry,
    cobo: u32,
    asad: u32,
    aget: u32,
    raw_ch: u32,
)
    requires
        cobo < g.boards().len() <= u32::MAX + 1,
        asad < g.boards()[cobo as int] <= u32::MAX,
        aget < 4,
        raw_ch < 68,
    ensures
        ({
            let all = g.rows(g.boards().len() as int);
            let from = row_start(g, cobo, asad, aget, raw_ch);
            let row = row_of(g, cobo, asad, aget, raw_ch);
            let to = from + row.len();
            &&& row_start(g, 0, 0, 0, 0) == 0
            &&& 0 <= from <= to <= all.len()
            &&& all.subrange(from, to) == row
            &&& to == if raw_ch < 67 {
                row_start(g, cobo, asad, aget, (raw_ch + 1) as u32)
            } else if aget < 3 {
                row_start(g, cobo, asad, (aget + 1) as u32, 0)
            } else if asad + 1 < g.boards()[cobo as int] {
                row_start(g, cobo, (asad + 1) as u32, 0, 0)
            } else if cobo + 1 < g.boards().len() {
                row_start(g, (cobo + 1) as u32, 0, 0, 0)
            } else {
                all.len() as int
            }
        }),
{
    let row = row_of(g, cobo, asad, aget, raw_ch);
    let boards = g.boards()[cobo as int] as int;
    let chips = g.chip_rows(cobo, asad, aget, raw_ch as int);
    let board = g.board_rows(cobo, asad, aget as int);
    let rows = g.cobo_rows(cobo, asad as int);
    let before = g.rows(cobo as int);
    assert(g.chip_rows(cobo, asad, aget, raw_ch + 1) == chips + row);
    assert(g.board_rows(cobo, asad, aget + 1) == board + g.chip_rows(cobo, asad, aget, 68));
    assert(g.cobo_rows(cobo, asad + 1) == rows + g.board_rows(cobo, asad, 4));
    assert(g.rows(cobo + 1) == before + g.cobo_rows(cobo, boards));
    lemma_chip_begins(g, cobo, asad, aget, raw_ch + 1, 68);
    lemma_board_begins(g, cobo, asad, aget + 1, 4);
    lemma_cobo_begins(g, cobo, asad + 1, boards);
    lemma_dump_begins(g, cobo + 1, g.boards().len() as int);
    let all = g.rows(g.boards().len() as int);
    let from = row_start(g, cobo, asad, aget, raw_ch);
    let to = from + row.len();
    let chip = g.chip_rows(cobo, asad, aget, 68);
    let card = g.board_rows(cobo, asad, 4);
    let whole = g.cobo_rows(cobo, boards);
    assert forall|i: int| 0 <= i < row.len() implies all.subrange(from, to)[i] == row[i] by {
        let c = chips.len() + i;
        assert(chip[c] == (chips + row)[c]);
        let b = board.len() + c;
        assert(card[b] == (board + chip)[b]);
        let r = rows.len() + b;
        assert(whole[r] == (rows + card)[r]);
        assert(all[before.len() + r] == (before + whole)[before.len() + r]);
        assert(from + i == before.len() + r);
    }
    assert(all.subrange(from, to) =~= row);
}

proof fn lemma_chip_begins(g: geometry::Geometry, cobo: u32, asad: u32, aget: u32, k: int, n: int)
    requires
        0 <= k <= n,
    ensures
        g.chip_rows(cobo, asad, aget, k).is_prefix_of(g.chip_rows(cobo, asad, aget, n)),
    decreases n - k,
{
    if k < n {
        lemma_chip_begins(g, cobo, asad, aget, k, n - 1);
    }
}

proof fn lemma_board_begins(g: geometry::Geometry, cobo: u32, asad: u32, k: int, n: int)
    requires
        0 <= k <= n,
    ensures
        g.board_rows(cobo, asad, k).is_prefix_of(g.board_rows(cobo, asad, n)),
    decreases n - k,
{
    if k < n {
        lemma_board_begins(g, cobo, asad, k, n - 1);
    }
}

proof fn lemma_cobo_begins(g: geometry::Geometry, cobo: u32, k: int, n: int)
    requires
        0 <= k <= n,
    ensures
        g.cobo_rows(cobo, k).is_prefix_of(g.cobo_rows(cobo, n)),
    decreases n - k,
{
    if k < n {
        lemma_cobo_begins(g, cobo, k, n - 1);
    }
}

proof fn lemma_dump_begins(g: geometry::Geometry, k: int, n: int)
    requires
        0 <= k <= n,
    ensures
        g.rows(k).is_prefix_of(g.rows(n)),
    decreases n - k,
{
    if k < n {
        lemma_dump_begins(g, k, n - 1);
    }
}

} // verus!
