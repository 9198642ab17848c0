//! Channel geometry: which strip, if any, each raw channel of each AGET chip reads out.
//!
//! A geometry file has one line for each channel: ten words for a strip, seven for a strip of a
//! detector with a single AsAd board, five for an auxiliary input. Lines that begin with one of a
//! few keys hold numbers about the detector as a whole, which are kept as they are written. A
//! line that fits none of these is recorded, and the next one is read.
//!
//! A geometry file counts the 64 signal channels of a chip. The chip itself has four more, which
//! record fixed-pattern noise, between them.

use vstd::prelude::*;

use crate::text;
use crate::text::{
    chars_of, decimal_string, is_decimal_fraction, parse_unsigned, push_decimal, split_lines, split_words,
    starts_with, string_of, trim,
};

verus! {

/// AGET chips on one AsAd board.
pub const AGET_CHIPS_PER_ASAD: u32 = 4;

/// Raw channels of one AGET chip.
pub const RAW_CH_PER_AGET: u32 = 68;

/// Signal channels of one AGET chip.
pub const SIGNAL_CH_PER_AGET: u32 = 64;

/// The raw channels that record fixed-pattern noise.
pub const FPN_RAW_CHANNELS: [u32; 4] = [11, 22, 45, 56];

/// The raw channel of each signal channel.
pub const REORDER_FROM_GEOMETRY_TO_GRAW: [u32; 64] = [
    0, 1, 2, 3, 4, 5, 6, 7, 8, 9, 10, 12, 13, 14, 15, 16, 17, 18, 19, 20, 21, 23, 24, 25, 26, 27,
    28, 29, 30, 31, 32, 33, 34, 35, 36, 37, 38, 39, 40, 41, 42, 43, 44, 46, 47, 48, 49, 50, 51, 52,
    53, 54, 55, 57, 58, 59, 60, 61, 62, 63, 64, 65, 66, 67,
];

/// The raw channel of a signal channel: the signal channels in order, leaving out the four that
/// record fixed-pattern noise.
pub open spec fn raw_channel(signal_ch: int) -> int {
    if signal_ch < 11 {
        signal_ch
    } else if signal_ch < 21 {
        signal_ch + 1
    } else if signal_ch < 43 {
        signal_ch + 2
    } else if signal_ch < 53 {
        signal_ch + 3
    } else {
        signal_ch + 4
    }
}

/// The number of the fixed-pattern-noise channel that `raw_ch` is, if it is one.
pub open spec fn fpn_number(raw_ch: int) -> Option<u8> {
    if raw_ch == 11 {
        Some(1)
    } else if raw_ch == 22 {
        Some(2)
    } else if raw_ch == 45 {
        Some(3)
    } else if raw_ch == 56 {
        Some(4)
    } else {
        None
    }
}

/// Signal channels have raw channels of their own, in ascending order, none of which records
/// fixed-pattern noise; and every other raw channel does.
pub proof fn law_signal_and_noise_channels_share_the_chip(a: int, b: int, raw_ch: int)
    requires
        0 <= a < b < SIGNAL_CH_PER_AGET,
        0 <= raw_ch < RAW_CH_PER_AGET,
    ensures
        0 <= raw_channel(a) < raw_channel(b) < RAW_CH_PER_AGET,
        fpn_number(raw_channel(a)) is None,
        fpn_number(raw_channel(b)) is None,
        fpn_number(raw_ch) is None ==> exists|s: int|
            0 <= s < SIGNAL_CH_PER_AGET && #[trigger] raw_channel(s) == raw_ch,
{
    if fpn_number(raw_ch) is None {
        let s = if raw_ch < 11 {
            raw_ch
        } else if raw_ch < 22 {
            raw_ch - 1
        } else if raw_ch < 45 {
            raw_ch - 2
        } else if raw_ch < 56 {
            raw_ch - 3
        } else {
            raw_ch - 4
        };
        assert(raw_channel(s) == raw_ch);
    }
}

/// The raw channel of a signal channel, or `None` where there is no such signal channel.
pub fn reorder(signal_ch: u32) -> (raw_ch: Option<u32>)
    ensures
        raw_ch == if signal_ch < SIGNAL_CH_PER_AGET {
            Some(raw_channel(signal_ch as int) as u32)
        } else {
            None::<u32>
        },
{
    if signal_ch >= SIGNAL_CH_PER_AGET {
        return None;
    }
    let raw_ch: u32 = REORDER_FROM_GEOMETRY_TO_GRAW[signal_ch as usize];
    Some(raw_ch)
}

// ---------------------------------------------------------------------
// Roles
// ---------------------------------------------------------------------

/// A plane of strips.
#[derive(Debug, Clone, Copy, PartialEq, Eq, Structural)]
pub enum Plane {
    U,
    V,
    W,
}

/// The name of a plane.
pub open spec fn plane_name(plane: Plane) -> Seq<char> {
    match plane {
        Plane::U => "U"@,
        Plane::V => "V"@,
        Plane::W => "W"@,
    }
}

/// The plane of a name, if it is one.
pub open spec fn plane_of(name: Seq<char>) -> Option<Plane> {
    if name == "U"@ {
        Some(Plane::U)
    } else if name == "V"@ {
        Some(Plane::V)
    } else if name == "W"@ {
        Some(Plane::W)
    } else {
        None
    }
}

/// The place of a plane in lists that hold one value for each.
pub open spec fn plane_index(plane: Plane) -> int {
    match plane {
        Plane::U => 0,
        Plane::V => 1,
        Plane::W => 2,
    }
}

/// A plane is found again by its name.
pub proof fn law_plane_names_round_trip(plane: Plane)
    ensures
        plane_of(plane_name(plane)) == Some(plane),
{
    reveal_strlit("U");
    reveal_strlit("V");
    reveal_strlit("W");
    assert("U"@[0] == 'U' && "V"@[0] == 'V' && "W"@[0] == 'W');
}

impl Plane {
    /// The plane of a name, if it is one.
    pub fn parse(token: &str) -> (plane: Option<Plane>)
        ensures
            plane == plane_of(token@),
    {
        if text::same(token, "U") {
            Some(Plane::U)
        } else if text::same(token, "V") {
            Some(Plane::V)
        } else if text::same(token, "W") {
            Some(Plane::W)
        } else {
            None
        }
    }

    /// The plane's name.
    pub fn as_str(self) -> (s: &'static str)
        ensures
            s@ == plane_name(self),
    {
        match self {
            Plane::U => "U",
            Plane::V => "V",
            Plane::W => "W",
        }
    }
}

/// What a raw channel reads out.
#[derive(Debug, Clone, PartialEq, Eq)]
pub enum ChannelRole {
    /// A strip.
    Strip { plane: Plane, section: u8, strip: u16 },
    /// Fixed-pattern noise; the chip's four such channels are numbered from 1.
    Fpn { index: u8 },
    /// An auxiliary input.
    Aux { name: String },
    /// Nothing that the file says.
    Unmapped,
}

/// The value of a [`ChannelRole`].
pub enum RoleView {
    Strip { plane: Plane, section: u8, strip: u16 },
    Fpn { index: u8 },
    Aux { name: Seq<char> },
    Unmapped,
}

impl View for ChannelRole {
    type V = RoleView;

    open spec fn view(&self) -> RoleView {
        match self {
            ChannelRole::Strip { plane, section, strip } => RoleView::Strip {
                plane: *plane,
                section: *section,
                strip: *strip,
            },
            ChannelRole::Fpn { index } => RoleView::Fpn { index: *index },
            ChannelRole::Aux { name } => RoleView::Aux { name: name@ },
            ChannelRole::Unmapped => RoleView::Unmapped,
        }
    }
}

impl ChannelRole {
    /// A copy.
    pub fn copy(&self) -> (role: ChannelRole)
        ensures
            role@ == self@,
    {
        match self {
            ChannelRole::Strip { plane, section, strip } => ChannelRole::Strip {
                plane: *plane,
                section: *section,
                strip: *strip,
            },
            ChannelRole::Fpn { index } => ChannelRole::Fpn { index: *index },
            ChannelRole::Aux { name } => ChannelRole::Aux { name: name.clone() },
            ChannelRole::Unmapped => ChannelRole::Unmapped,
        }
    }

    /// Whether the channel is not mapped.
    pub fn is_unmapped(&self) -> (r: bool)
        ensures
            r == (self@ is Unmapped),
    {
        match self {
            ChannelRole::Unmapped => true,
            _ => false,
        }
    }
}

/// The numbers about the detector as a whole, each as it is written.
#[derive(Debug, Clone, PartialEq)]
pub struct HeaderScalars {
    /// Three angles.
    pub angles_deg: Option<Vec<String>>,
    /// One length.
    pub diamond_size_mm: Option<Vec<String>>,
    /// Two coordinates.
    pub reference_point_mm: Option<Vec<String>>,
    /// One velocity.
    pub drift_velocity_cm_per_us: Option<Vec<String>>,
    /// One rate.
    pub sampling_rate_mhz: Option<Vec<String>>,
    /// One time.
    pub trigger_delay_us: Option<Vec<String>>,
    /// Two coordinates.
    pub drift_cage_acceptance_mm: Option<Vec<String>>,
}

/// The value of a [`HeaderScalars`].
pub struct HeaderView {
    pub angles_deg: Option<Seq<Seq<char>>>,
    pub diamond_size_mm: Option<Seq<Seq<char>>>,
    pub reference_point_mm: Option<Seq<Seq<char>>>,
    pub drift_velocity_cm_per_us: Option<Seq<Seq<char>>>,
    pub sampling_rate_mhz: Option<Seq<Seq<char>>>,
    pub trigger_delay_us: Option<Seq<Seq<char>>>,
    pub drift_cage_acceptance_mm: Option<Seq<Seq<char>>>,
}

/// The texts in `v`.
pub open spec fn texts(v: Option<Vec<String>>) -> Option<Seq<Seq<char>>> {
    match v {
        Some(v) => Some(v@.map_values(|s: String| s@)),
        None => None,
    }
}

impl View for HeaderScalars {
    type V = HeaderView;

    open spec fn view(&self) -> HeaderView {
        HeaderView {
            angles_deg: texts(self.angles_deg),
            diamond_size_mm: texts(self.diamond_size_mm),
            reference_point_mm: texts(self.reference_point_mm),
            drift_velocity_cm_per_us: texts(self.drift_velocity_cm_per_us),
            sampling_rate_mhz: texts(self.sampling_rate_mhz),
            trigger_delay_us: texts(self.trigger_delay_us),
            drift_cage_acceptance_mm: texts(self.drift_cage_acceptance_mm),
        }
    }
}

impl HeaderView {
    /// No numbers.
    pub open spec fn none() -> HeaderView {
        HeaderView {
            angles_deg: None,
            diamond_size_mm: None,
            reference_point_mm: None,
            drift_velocity_cm_per_us: None,
            sampling_rate_mhz: None,
            trigger_delay_us: None,
            drift_cage_acceptance_mm: None,
        }
    }
}

impl Default for HeaderScalars {
    fn default() -> (header: Self)
        ensures
            header@ == HeaderView::none(),
    {
        HeaderScalars {
            angles_deg: None,
            diamond_size_mm: None,
            reference_point_mm: None,
            drift_velocity_cm_per_us: None,
            sampling_rate_mhz: None,
            trigger_delay_us: None,
            drift_cage_acceptance_mm: None,
        }
    }
}

/// A line that maps a channel which an earlier line maps already.
#[derive(Debug, Clone, Copy, PartialEq, Eq, Structural)]
pub struct DuplicateChannel {
    pub cobo: u32,
    pub asad: u32,
    pub aget: u32,
    pub raw_ch: u32,
    pub line_number: usize,
}

/// A line that could not be read.
#[derive(Debug, Clone, Copy, PartialEq, Eq, Structural)]
pub struct MalformedLine {
    pub line_number: usize,
}

// ---------------------------------------------------------------------
// Lines
// ---------------------------------------------------------------------

/// What a line maps: a channel and its role.
pub struct Mapping {
    pub cobo: u32,
    pub asad: u32,
    pub aget: u32,
    pub raw_ch: u32,
    pub role: RoleView,
}

/// A mapping with the number of its line.
pub struct Entry {
    pub at: Mapping,
    pub line_number: nat,
}

/// The number in word `i`, if it is one and at most `max`.
pub open spec fn number(t: Seq<Seq<char>>, i: int, max: nat) -> Option<nat> {
    text::unsigned_upto(t[i], max)
}

/// The mapping of signal channel `signal_ch`, if there is such a channel.
pub open spec fn signal_mapping(
    cobo: nat,
    asad: nat,
    aget: nat,
    signal_ch: nat,
    role: RoleView,
) -> Option<Mapping> {
    if aget < AGET_CHIPS_PER_ASAD && signal_ch < SIGNAL_CH_PER_AGET {
        Some(
            Mapping {
                cobo: cobo as u32,
                asad: asad as u32,
                aget: aget as u32,
                raw_ch: raw_channel(signal_ch as int) as u32,
                role,
            },
        )
    } else {
        None
    }
}

/// What ten words map: plane, section, strip, CoBo, AsAd, AGET, channel, and three fractions.
pub open spec fn new_strip(t: Seq<Seq<char>>) -> Option<Mapping> {
    match (
        plane_of(t[0]),
        number(t, 1, u8::MAX as nat),
        number(t, 2, u16::MAX as nat),
        number(t, 3, u32::MAX as nat),
        number(t, 4, u32::MAX as nat),
        number(t, 5, u32::MAX as nat),
        number(t, 6, u32::MAX as nat),
    ) {
        (
            Some(plane),
            Some(section),
            Some(strip),
            Some(cobo),
            Some(asad),
            Some(aget),
            Some(signal_ch),
        ) => if text::is_fraction(t[7]) && text::is_fraction(t[8]) && text::is_fraction(t[9]) {
            signal_mapping(
                cobo,
                asad,
                aget,
                signal_ch,
                RoleView::Strip { plane, section: section as u8, strip: strip as u16 },
            )
        } else {
            None
        },
        _ => None,
    }
}

/// What seven words map: plane, strip, AGET, channel, and three fractions; the section, the CoBo
/// and the AsAd board are the first.
pub open spec fn legacy_strip(t: Seq<Seq<char>>) -> Option<Mapping> {
    match (
        plane_of(t[0]),
        number(t, 1, u16::MAX as nat),
        number(t, 2, u32::MAX as nat),
        number(t, 3, u32::MAX as nat),
    ) {
        (Some(plane), Some(strip), Some(aget), Some(signal_ch)) => if text::is_fraction(t[4])
            && text::is_fraction(t[5]) && text::is_fraction(t[6]) {
            signal_mapping(
                0,
                0,
                aget,
                signal_ch,
                RoleView::Strip { plane, section: 0, strip: strip as u16 },
            )
        } else {
            None
        },
        _ => None,
    }
}

/// What five words map: name, CoBo, AsAd, AGET and channel of an auxiliary input.
pub open spec fn aux_input(t: Seq<Seq<char>>) -> Option<Mapping> {
    match (
        number(t, 1, u32::MAX as nat),
        number(t, 2, u32::MAX as nat),
        number(t, 3, u32::MAX as nat),
        number(t, 4, u32::MAX as nat),
    ) {
        (Some(cobo), Some(asad), Some(aget), Some(signal_ch)) => signal_mapping(
            cobo,
            asad,
            aget,
            signal_ch,
            RoleView::Aux { name: t[0] },
        ),
        _ => None,
    }
}

/// What a line of these words maps, if anything.
pub open spec fn mapping(t: Seq<Seq<char>>) -> Option<Mapping> {
    if t.len() == 10 {
        new_strip(t)
    } else if t.len() == 7 {
        legacy_strip(t)
    } else if t.len() == 5 {
        aux_input(t)
    } else {
        None
    }
}

/// The words among `t` that are decimal fractions.
pub open spec fn fractions(t: Seq<Seq<char>>) -> Seq<Seq<char>>
    decreases t.len(),
{
    if t.len() == 0 {
        Seq::empty()
    } else if text::is_fraction(t.last()) {
        fractions(t.drop_last()).push(t.last())
    } else {
        fractions(t.drop_last())
    }
}

/// The `n` decimal fractions in `s`, if there are exactly so many.
pub open spec fn exactly(s: Seq<char>, n: nat) -> Option<Seq<Seq<char>>> {
    let found = fractions(text::words(s));
    if found.len() == n {
        Some(found)
    } else {
        None
    }
}

/// The `n` decimal fractions behind the key with which `line` begins.
pub open spec fn behind(line: Seq<char>, key: Seq<char>, n: nat) -> Option<Seq<Seq<char>>> {
    exactly(line.skip(key.len() as int), n)
}

/// The header once `line` is read into it, if the line begins with a key.
pub open spec fn scalars_after(h: HeaderView, line: Seq<char>) -> Option<HeaderView> {
    if text::begins(line, "ANGLES:"@) {
        Some(HeaderView { angles_deg: behind(line, "ANGLES:"@, 3), ..h })
    } else if text::begins(line, "DIAMOND SIZE:"@) {
        Some(HeaderView { diamond_size_mm: behind(line, "DIAMOND SIZE:"@, 1), ..h })
    } else if text::begins(line, "REFERENCE POINT:"@) {
        Some(HeaderView { reference_point_mm: behind(line, "REFERENCE POINT:"@, 2), ..h })
    } else if text::begins(line, "DRIFT VELOCITY:"@) {
        Some(HeaderView { drift_velocity_cm_per_us: behind(line, "DRIFT VELOCITY:"@, 1), ..h })
    } else if text::begins(line, "SAMPLING RATE:"@) {
        Some(HeaderView { sampling_rate_mhz: behind(line, "SAMPLING RATE:"@, 1), ..h })
    } else if text::begins(line, "TRIGGER DELAY:"@) {
        Some(HeaderView { trigger_delay_us: behind(line, "TRIGGER DELAY:"@, 1), ..h })
    } else if text::begins(line, "DRIFT CAGE ACCEPTANCE:"@) {
        Some(
            HeaderView {
                drift_cage_acceptance_mm: behind(line, "DRIFT CAGE ACCEPTANCE:"@, 2),
                ..h
            },
        )
    } else {
        None
    }
}

/// What the lines of a file say.
pub struct Reading {
    pub header: HeaderView,
    pub entries: Seq<Entry>,
    pub malformed: Seq<nat>,
}

/// What `lines` say. Lines without content and comments say nothing.
pub open spec fn reading(lines: Seq<Seq<char>>) -> Reading
    decreases lines.len(),
{
    if lines.len() == 0 {
        Reading { header: HeaderView::none(), entries: Seq::empty(), malformed: Seq::empty() }
    } else {
        let r = reading(lines.drop_last());
        let line = text::trimmed(lines.last());
        if line.len() == 0 || line[0] == '#' {
            r
        } else {
            match scalars_after(r.header, line) {
                Some(header) => Reading { header, ..r },
                None => match mapping(text::words(line)) {
                    Some(at) => Reading {
                        entries: r.entries.push(Entry { at, line_number: lines.len() }),
                        ..r
                    },
                    None => Reading { malformed: r.malformed.push(lines.len()), ..r },
                },
            }
        }
    }
}

struct PendingChannel {
    cobo: u32,
    asad: u32,
    aget: u32,
    raw_ch: u32,
    role: ChannelRole,
    line_number: usize,
}

impl View for PendingChannel {
    type V = Entry;

    closed spec fn view(&self) -> Entry {
        Entry { at: self.mapping(), line_number: self.line_number as nat }
    }
}

impl PendingChannel {
    spec fn mapping(&self) -> Mapping {
        Mapping {
            cobo: self.cobo,
            asad: self.asad,
            aget: self.aget,
            raw_ch: self.raw_ch,
            role: self.role@,
        }
    }
}

spec fn views(t: Seq<Vec<char>>) -> Seq<Seq<char>> {
    t.map_values(|w: Vec<char>| w@)
}

fn number_at(t: &Vec<Vec<char>>, i: usize, max: u64) -> (n: Option<u64>)
    requires
        i < t@.len(),
    ensures
        n == match number(views(t@), i as int, max as nat) {
            Some(v) => Some(v as u64),
            None => None::<u64>,
        },
        n matches Some(v) ==> v <= max,
{
    parse_unsigned(t[i].as_slice(), max)
}

fn plane_at(t: &Vec<Vec<char>>, i: usize) -> (plane: Option<Plane>)
    requires
        i < t@.len(),
    ensures
        plane == plane_of(views(t@)[i as int]),
{
    let name: String = string_of(t[i].as_slice());
    Plane::parse(name.as_str())
}

fn fraction_at(t: &Vec<Vec<char>>, i: usize) -> (r: bool)
    requires
        i < t@.len(),
    ensures
        r == text::is_fraction(views(t@)[i as int]),
{
    is_decimal_fraction(t[i].as_slice())
}

fn signal_channel(
    cobo: u64,
    asad: u64,
    aget: u64,
    signal_ch: u64,
    role: ChannelRole,
    line_number: usize,
) -> (c: Option<PendingChannel>)
    requires
        cobo <= u32::MAX,
        asad <= u32::MAX,
        aget <= u32::MAX,
        signal_ch <= u32::MAX,
    ensures
        c is Some <==> signal_mapping(
            cobo as nat,
            asad as nat,
            aget as nat,
            signal_ch as nat,
            role@,
        ) is Some,
        c matches Some(p) ==> p.mapping() == signal_mapping(
            cobo as nat,
            asad as nat,
            aget as nat,
            signal_ch as nat,
            role@,
        )->0 && p.line_number == line_number,
{
    if aget >= AGET_CHIPS_PER_ASAD as u64 {
        return None;
    }
    match reorder(signal_ch as u32) {
        None => None,
        Some(raw_ch) => Some(
            PendingChannel {
                cobo: cobo as u32,
                asad: asad as u32,
                aget: aget as u32,
                raw_ch,
                role,
                line_number,
            },
        ),
    }
}

fn parse_new_strip_line(t: &Vec<Vec<char>>, line_number: usize) -> (c: Option<PendingChannel>)
    requires
        t@.len() == 10,
    ensures
        c is Some <==> new_strip(views(t@)) is Some,
        c matches Some(p) ==> p.mapping() == new_strip(views(t@))->0 && p.line_number
            == line_number,
{
    match (
        plane_at(t, 0),
        number_at(t, 1, 255),
        number_at(t, 2, 65535),
        number_at(t, 3, 0xFFFF_FFFF),
        number_at(t, 4, 0xFFFF_FFFF),
        number_at(t, 5, 0xFFFF_FFFF),
        number_at(t, 6, 0xFFFF_FFFF),
    ) {
        (
            Some(plane),
            Some(section),
            Some(strip),
            Some(cobo),
            Some(asad),
            Some(aget),
            Some(signal_ch),
        ) => {
            if fraction_at(t, 7) && fraction_at(t, 8) && fraction_at(t, 9) {
                let role = ChannelRole::Strip { plane, section: section as u8, strip: strip as u16 };
                signal_channel(cobo, asad, aget, signal_ch, role, line_number)
            } else {
                None
            }
        },
        _ => None,
    }
}

fn parse_legacy_strip_line(t: &Vec<Vec<char>>, line_number: usize) -> (c: Option<PendingChannel>)
    requires
        t@.len() == 7,
    ensures
        c is Some <==> legacy_strip(views(t@)) is Some,
        c matches Some(p) ==> p.mapping() == legacy_strip(views(t@))->0 && p.line_number
            == line_number,
{
    match (
        plane_at(t, 0),
        number_at(t, 1, 65535),
        number_at(t, 2, 0xFFFF_FFFF),
        number_at(t, 3, 0xFFFF_FFFF),
    ) {
        (Some(plane), Some(strip), Some(aget), Some(signal_ch)) => {
            if fraction_at(t, 4) && fraction_at(t, 5) && fraction_at(t, 6) {
                let role = ChannelRole::Strip { plane, section: 0, strip: strip as u16 };
                signal_channel(0, 0, aget, signal_ch, role, line_number)
            } else {
                None
            }
        },
        _ => None,
    }
}

fn parse_aux_line(t: &Vec<Vec<char>>, line_number: usize) -> (c: Option<PendingChannel>)
    requires
        t@.len() == 5,
    ensures
        c is Some <==> aux_input(views(t@)) is Some,
        c matches Some(p) ==> p.mapping() == aux_input(views(t@))->0 && p.line_number
            == line_number,
{
    match (
        number_at(t, 1, 0xFFFF_FFFF),
        number_at(t, 2, 0xFFFF_FFFF),
        number_at(t, 3, 0xFFFF_FFFF),
        number_at(t, 4, 0xFFFF_FFFF),
    ) {
        (Some(cobo), Some(asad), Some(aget), Some(signal_ch)) => {
            let role = ChannelRole::Aux { name: string_of(t[0].as_slice()) };
            signal_channel(cobo, asad, aget, signal_ch, role, line_number)
        },
        _ => None,
    }
}

fn parse_n_fractions(s: &[char], n: usize) -> (found: Option<Vec<String>>)
    ensures
        texts(found) == exactly(s@, n as nat),
{
    let words: Vec<Vec<char>> = split_words(s);
    let ghost all = text::words(s@);
    let mut found: Vec<String> = Vec::new();
    let mut i: usize = 0;
    assert(all.take(0) =~= Seq::empty());
    assert(found@.map_values(|x: String| x@) =~= Seq::<Seq<char>>::empty());
    while i < words.len()
        invariant
            i <= words@.len() == all.len(),
            forall|k: int| 0 <= k < words@.len() ==> (#[trigger] words@[k])@ == all[k],
            found@.map_values(|x: String| x@) == fractions(all.take(i as int)),
        decreases words@.len() - i,
    {
        assert(all.take(i + 1).drop_last() =~= all.take(i as int));
        assert(all.take(i + 1).last() == words@[i as int]@);
        if is_decimal_fraction(words[i].as_slice()) {
            let ghost before = found@;
            found.push(string_of(words[i].as_slice()));
            assert(found@.map_values(|x: String| x@) =~= before.map_values(|x: String| x@).push(
                words@[i as int]@,
            ));
        }
        i = i + 1;
    }
    assert(all.take(i as int) =~= all);
    assert(found@.map_values(|x: String| x@).len() == found@.len());
    if found.len() == n {
        Some(found)
    } else {
        None
    }
}

fn after_key(line: &[char], key: &str, n: usize) -> (found: Option<Vec<String>>)
    requires
        text::begins(line@, key@),
    ensures
        texts(found) == behind(line@, key@, n as nat),
{
    let k: Vec<char> = chars_of(key);
    let rest = &line[k.len()..line.len()];
    assert(rest@ =~= line@.skip(key@.len() as int));
    parse_n_fractions(rest, n)
}

fn try_parse_header_scalar(line: &[char], header: &mut HeaderScalars) -> (r: bool)
    ensures
        r == scalars_after(old(header)@, line@) is Some,
        r ==> final(header)@ == scalars_after(old(header)@, line@)->0,
        !r ==> *final(header) == *old(header),
{
    if starts_with(line, "ANGLES:") {
        header.angles_deg = after_key(line, "ANGLES:", 3);
        return true;
    }
    if starts_with(line, "DIAMOND SIZE:") {
        header.diamond_size_mm = after_key(line, "DIAMOND SIZE:", 1);
        return true;
    }
    if starts_with(line, "REFERENCE POINT:") {
        header.reference_point_mm = after_key(line, "REFERENCE POINT:", 2);
        return true;
    }
    if starts_with(line, "DRIFT VELOCITY:") {
        header.drift_velocity_cm_per_us = after_key(line, "DRIFT VELOCITY:", 1);
        return true;
    }
    if starts_with(line, "SAMPLING RATE:") {
        header.sampling_rate_mhz = after_key(line, "SAMPLING RATE:", 1);
        return true;
    }
    if starts_with(line, "TRIGGER DELAY:") {
        header.trigger_delay_us = after_key(line, "TRIGGER DELAY:", 1);
        return true;
    }
    if starts_with(line, "DRIFT CAGE ACCEPTANCE:") {
        header.drift_cage_acceptance_mm = after_key(line, "DRIFT CAGE ACCEPTANCE:", 2);
        return true;
    }
    false
}

fn parse_channel(t: &Vec<Vec<char>>, line_number: usize) -> (c: Option<PendingChannel>)
    ensures
        c is Some <==> mapping(views(t@)) is Some,
        c matches Some(p) ==> p.mapping() == mapping(views(t@))->0 && p.line_number == line_number,
{
    if t.len() == 10 {
        parse_new_strip_line(t, line_number)
    } else if t.len() == 7 {
        parse_legacy_strip_line(t, line_number)
    } else if t.len() == 5 {
        parse_aux_line(t, line_number)
    } else {
        None
    }
}

struct ReadLines {
    header: HeaderScalars,
    pending: Vec<PendingChannel>,
    malformed: Vec<MalformedLine>,
}

impl View for ReadLines {
    type V = Reading;

    closed spec fn view(&self) -> Reading {
        Reading {
            header: self.header@,
            entries: self.pending@.map_values(|p: PendingChannel| p@),
            malformed: self.malformed@.map_values(|m: MalformedLine| m.line_number as nat),
        }
    }
}

fn read_lines(content: &str) -> (read: ReadLines)
    ensures
        read@ == reading(text::lines(content@)),
{
    let chars: Vec<char> = chars_of(content);
    let lines: Vec<Vec<char>> = split_lines(chars.as_slice());
    let ghost all = text::lines(content@);
    let mut read = ReadLines {
        header: HeaderScalars::default(),
        pending: Vec::new(),
        malformed: Vec::new(),
    };
    let mut i: usize = 0;
    proof {
        assert(all.take(0) =~= Seq::empty());
        assert(read@.entries =~= Seq::empty());
        assert(read@.malformed =~= Seq::empty());
    }
    while i < lines.len()
        invariant
            i <= lines@.len() == all.len(),
            forall|k: int| 0 <= k < lines@.len() ==> (#[trigger] lines@[k])@ == all[k],
            read@ == reading(all.take(i as int)),
        decreases lines@.len() - i,
    {
        proof {
            assert(all.take(i + 1).drop_last() =~= all.take(i as int));
            assert(all.take(i + 1).last() == lines@[i as int]@);
        }
        let ghost before = read@;
        let line_number: usize = i + 1;
        let line = trim(lines[i].as_slice());
        if line.len() > 0 && line[0] != '#' {
            if !try_parse_header_scalar(line, &mut read.header) {
                let words: Vec<Vec<char>> = split_words(line);
                assert(views(words@) =~= text::words(line@));
                match parse_channel(&words, line_number) {
                    Some(channel) => {
                        read.pending.push(channel);
                        assert(read@.entries =~= before.entries.push(channel@));
                    },
                    None => {
                        read.malformed.push(MalformedLine { line_number });
                        assert(read@.malformed =~= before.malformed.push(line_number as nat));
                    },
                }
            }
        }
        i = i + 1;
    }
    assert(all.take(i as int) =~= all);
    read
}

// ---------------------------------------------------------------------
// What the entries of a file say of each channel
// ---------------------------------------------------------------------

impl Mapping {
    /// Whether this is the channel that is mapped.
    pub open spec fn is_for(self, cobo: u32, asad: u32, aget: u32, raw_ch: u32) -> bool {
        self.cobo == cobo && self.asad == asad && self.aget == aget && self.raw_ch == raw_ch
    }
}

/// The place of the first entry for a channel, or the number of entries if there is none.
pub open spec fn first_for(entries: Seq<Entry>, cobo: u32, asad: u32, aget: u32, raw_ch: u32) -> int
    decreases entries.len(),
{
    if entries.len() == 0 {
        0
    } else {
        let k = first_for(entries.drop_last(), cobo, asad, aget, raw_ch);
        if k < entries.len() - 1 || entries.last().at.is_for(cobo, asad, aget, raw_ch) {
            k
        } else {
            entries.len() as int
        }
    }
}

/// Whether any entry is for a channel of this chip.
pub open spec fn active(entries: Seq<Entry>, cobo: u32, asad: u32, aget: u32) -> bool
    decreases entries.len(),
{
    entries.len() > 0 && (active(entries.drop_last(), cobo, asad, aget) || (entries.last().at.cobo
        == cobo && entries.last().at.asad == asad && entries.last().at.aget == aget))
}

/// The role of a channel: fixed-pattern noise where the chip has it, else what the first entry
/// for the channel says.
pub open spec fn role_at(
    entries: Seq<Entry>,
    cobo: u32,
    asad: u32,
    aget: u32,
    raw_ch: u32,
) -> RoleView {
    let k = first_for(entries, cobo, asad, aget, raw_ch);
    if fpn_number(raw_ch as int) is Some && active(entries, cobo, asad, aget) {
        RoleView::Fpn { index: fpn_number(raw_ch as int)->0 }
    } else if k < entries.len() {
        entries[k].at.role
    } else {
        RoleView::Unmapped
    }
}

/// The entries for a channel for which there is an earlier entry.
pub open spec fn repeats(entries: Seq<Entry>) -> Seq<Entry>
    decreases entries.len(),
{
    if entries.len() == 0 {
        Seq::empty()
    } else {
        let before = repeats(entries.drop_last());
        let at = entries.last().at;
        if first_for(entries.drop_last(), at.cobo, at.asad, at.aget, at.raw_ch) < entries.len()
            - 1 {
            before.push(entries.last())
        } else {
            before
        }
    }
}

/// One more than the highest CoBo, or 0 if there is none.
pub open spec fn cobo_total(entries: Seq<Entry>) -> nat
    decreases entries.len(),
{
    if entries.len() == 0 {
        0
    } else {
        let before = cobo_total(entries.drop_last());
        if entries.last().at.cobo >= before {
            (entries.last().at.cobo + 1) as nat
        } else {
            before
        }
    }
}

/// One more than the highest AsAd board of a CoBo, or 0 if there is none.
pub open spec fn asad_total(entries: Seq<Entry>, cobo: int) -> nat
    decreases entries.len(),
{
    if entries.len() == 0 {
        0
    } else {
        let before = asad_total(entries.drop_last(), cobo);
        if entries.last().at.cobo == cobo && entries.last().at.asad >= before {
            (entries.last().at.asad + 1) as nat
        } else {
            before
        }
    }
}

/// The number of AsAd boards of each CoBo.
pub open spec fn boards_of(entries: Seq<Entry>) -> Seq<nat> {
    Seq::new(cobo_total(entries), |c: int| asad_total(entries, c))
}

/// The sum of the first `n` numbers.
pub open spec fn sum_to(counts: Seq<nat>, n: int) -> nat
    decreases n,
{
    if n <= 0 {
        0
    } else {
        sum_to(counts, n - 1) + counts[n - 1]
    }
}

/// Whether the detector that the entries describe can be laid out in memory.
pub open spec fn fits(entries: Seq<Entry>) -> bool {
    let boards = boards_of(entries);
    &&& boards.len() <= usize::MAX
    &&& sum_to(boards, boards.len() as int) <= u32::MAX
    &&& sum_to(boards, boards.len() as int) * AGET_CHIPS_PER_ASAD * RAW_CH_PER_AGET <= usize::MAX
}

/// The highest strip of a plane, or 0 if there is none.
pub open spec fn highest_strip(entries: Seq<Entry>, plane: Plane) -> u16
    decreases entries.len(),
{
    if entries.len() == 0 {
        0
    } else {
        let before = highest_strip(entries.drop_last(), plane);
        match entries.last().at.role {
            RoleView::Strip { plane: p, strip, .. } => if p == plane && strip > before {
                strip
            } else {
                before
            },
            _ => before,
        }
    }
}

/// Whether every entry maps a signal channel of a chip that a board can have.
pub open spec fn sound(entries: Seq<Entry>) -> bool {
    forall|k: int| 0 <= k < entries.len() ==> sound_mapping((#[trigger] entries[k]).at)
}

/// Whether this maps a signal channel of a chip that a board can have.
pub open spec fn sound_mapping(at: Mapping) -> bool {
    &&& at.aget < AGET_CHIPS_PER_ASAD
    &&& at.raw_ch < RAW_CH_PER_AGET
    &&& fpn_number(at.raw_ch as int) is None
    &&& at.role is Strip || at.role is Aux
}

/// What is read of any file maps signal channels of chips that a board can have.
pub proof fn law_entries_are_sound(lines: Seq<Seq<char>>)
    ensures
        sound(reading(lines).entries),
    decreases lines.len(),
{
    if lines.len() > 0 {
        law_entries_are_sound(lines.drop_last());
        let t = text::words(text::trimmed(lines.last()));
        if mapping(t) is Some {
            assert(sound_mapping(mapping(t)->0));
        }
    }
}

/// Whether `line` has to map a channel: it is neither blank nor a comment, and begins with no key.
pub open spec fn is_data_line(line: Seq<char>) -> bool {
    let content = text::trimmed(line);
    content.len() > 0 && content[0] != '#' && scalars_after(HeaderView::none(), content) is None
}

/// Whether line `n` maps a channel.
pub open spec fn maps_at(r: Reading, n: nat) -> bool {
    exists|k: int| 0 <= k < r.entries.len() && (#[trigger] r.entries[k]).line_number == n
}

/// Each line that is neither blank nor a comment nor a header line is recorded once, as a mapping
/// or as malformed; no other line is. The records stand in the order of the lines.
pub proof fn law_each_line_is_recorded_once(lines: Seq<Seq<char>>)
    ensures
        forall|n: int|
            0 <= n < lines.len() ==> (is_data_line(#[trigger] lines[n]) <==> maps_at(
                reading(lines),
                (n + 1) as nat,
            ) || reading(lines).malformed.contains((n + 1) as nat)),
        forall|n: nat|
            !(#[trigger] maps_at(reading(lines), n) && reading(lines).malformed.contains(n)),
        forall|k: int|
            0 <= k < reading(lines).entries.len() ==> 1 <= (#[trigger] reading(
                lines,
            ).entries[k]).line_number <= lines.len(),
        forall|k: int|
            0 <= k < reading(lines).malformed.len() ==> 1 <= #[trigger] reading(
                lines,
            ).malformed[k] <= lines.len(),
        forall|j: int, k: int|
            0 <= j < k < reading(lines).entries.len() ==> (#[trigger] reading(
                lines,
            ).entries[j]).line_number < (#[trigger] reading(lines).entries[k]).line_number,
        forall|j: int, k: int|
            0 <= j < k < reading(lines).malformed.len() ==> #[trigger] reading(
                lines,
            ).malformed[j] < #[trigger] reading(lines).malformed[k],
    decreases lines.len(),
{
    if lines.len() > 0 {
        let before = lines.drop_last();
        law_each_line_is_recorded_once(before);
        let r = reading(before);
        let s = reading(lines);
        assert(s.entries.len() >= r.entries.len() && s.entries.take(r.entries.len() as int)
            =~= r.entries);
        assert(s.malformed.len() >= r.malformed.len() && s.malformed.take(r.malformed.len() as int)
            =~= r.malformed);
        assert forall|n: nat| 1 <= n <= before.len() implies (#[trigger] maps_at(s, n) <==> maps_at(
            r,
            n,
        )) && (s.malformed.contains(n) <==> r.malformed.contains(n)) by {
            if maps_at(r, n) {
                let k = choose|k: int|
                    0 <= k < r.entries.len() && (#[trigger] r.entries[k]).line_number == n;
                assert(s.entries[k] == r.entries[k]);
            }
            if maps_at(s, n) {
                let k = choose|k: int|
                    0 <= k < s.entries.len() && (#[trigger] s.entries[k]).line_number == n;
                assert(s.entries[k] == r.entries[k]);
            }
            if r.malformed.contains(n) {
                let k = choose|k: int| 0 <= k < r.malformed.len() && r.malformed[k] == n;
                assert(s.malformed[k] == r.malformed[k]);
            }
            if s.malformed.contains(n) {
                let k = choose|k: int| 0 <= k < s.malformed.len() && s.malformed[k] == n;
                assert(s.malformed[k] == r.malformed[k]);
            }
        }
        assert forall|n: int| 0 <= n < lines.len() implies (is_data_line(#[trigger] lines[n])
            <==> maps_at(s, (n + 1) as nat) || s.malformed.contains((n + 1) as nat)) by {
            if n < before.len() {
                assert(before[n] == lines[n]);
            } else {
                if s.entries.len() > r.entries.len() {
                    assert(s.entries[r.entries.len() as int].line_number == n + 1);
                }
                if s.malformed.len() > r.malformed.len() {
                    assert(s.malformed[r.malformed.len() as int] == n + 1);
                }
            }
        }
    }
}

proof fn lemma_entry_makes_active(entries: Seq<Entry>, k: int)
    requires
        0 <= k < entries.len(),
    ensures
        active(entries, entries[k].at.cobo, entries[k].at.asad, entries[k].at.aget),
    decreases entries.len(),
{
    if k < entries.len() - 1 {
        assert(entries.drop_last()[k] == entries[k]);
        lemma_entry_makes_active(entries.drop_last(), k);
    }
}

/// Whatever a file holds, the four noise channels of each chip that a line names are noise
/// channels: no strip and no auxiliary input ever sits on one.
pub proof fn law_noise_channels_are_never_mapped(geometry: &Geometry, lines: Seq<Seq<char>>, k: int)
    requires
        geometry.tells(reading(lines)),
        0 <= k < reading(lines).entries.len(),
    ensures
        ({
            let at = reading(lines).entries[k].at;
            &&& geometry.role(at.cobo, at.asad, at.aget, 11) == (RoleView::Fpn { index: 1 })
            &&& geometry.role(at.cobo, at.asad, at.aget, 22) == (RoleView::Fpn { index: 2 })
            &&& geometry.role(at.cobo, at.asad, at.aget, 45) == (RoleView::Fpn { index: 3 })
            &&& geometry.role(at.cobo, at.asad, at.aget, 56) == (RoleView::Fpn { index: 4 })
            &&& fpn_number(at.raw_ch as int) is None
        }),
{
    law_entries_are_sound(lines);
    lemma_entry_makes_active(reading(lines).entries, k);
}

/// Among the entries for one channel the first one counts: adding entries behind others never
/// changes a role that is given.
pub proof fn law_first_entry_wins(
    entries: Seq<Entry>,
    more: Seq<Entry>,
    cobo: u32,
    asad: u32,
    aget: u32,
    raw_ch: u32,
)
    requires
        sound(entries),
        sound(more),
        !(role_at(entries, cobo, asad, aget, raw_ch) is Unmapped),
    ensures
        role_at(entries + more, cobo, asad, aget, raw_ch) == role_at(
            entries,
            cobo,
            asad,
            aget,
            raw_ch,
        ),
    decreases more.len(),
{
    if more.len() == 0 {
        assert(entries + more =~= entries);
    } else {
        law_first_entry_wins(entries, more.drop_last(), cobo, asad, aget, raw_ch);
        let all = entries + more;
        let before = entries + more.drop_last();
        assert(all.drop_last() =~= before);
        lemma_sound_sum(entries, more.drop_last());
        lemma_first_for(before, cobo, asad, aget, raw_ch);
        lemma_first_for(all, cobo, asad, aget, raw_ch);
        let k = first_for(before, cobo, asad, aget, raw_ch);
        if k < before.len() {
            assert(all[k] == before[k]);
        }
    }
}

proof fn lemma_sound_sum(a: Seq<Entry>, b: Seq<Entry>)
    requires
        sound(a),
        sound(b),
    ensures
        sound(a + b),
{
    assert forall|k: int| 0 <= k < (a + b).len() implies sound_mapping(
        (#[trigger] (a + b)[k]).at,
    ) by {
        if k < a.len() {
            assert((a + b)[k] == a[k]);
        } else {
            assert((a + b)[k] == b[k - a.len()]);
        }
    }
}

proof fn lemma_first_for(entries: Seq<Entry>, cobo: u32, asad: u32, aget: u32, raw_ch: u32)
    ensures
        0 <= first_for(entries, cobo, asad, aget, raw_ch) <= entries.len(),
        first_for(entries, cobo, asad, aget, raw_ch) < entries.len() ==> entries[first_for(
            entries,
            cobo,
            asad,
            aget,
            raw_ch,
        )].at.is_for(cobo, asad, aget, raw_ch),
        first_for(entries, cobo, asad, aget, raw_ch) < entries.len() ==> active(
            entries,
            cobo,
            asad,
            aget,
        ),
    decreases entries.len(),
{
    if entries.len() > 0 {
        lemma_first_for(entries.drop_last(), cobo, asad, aget, raw_ch);
    }
}

proof fn lemma_active_is_within(entries: Seq<Entry>, cobo: u32, asad: u32, aget: u32)
    requires
        active(entries, cobo, asad, aget),
    ensures
        cobo < cobo_total(entries),
        asad < asad_total(entries, cobo as int),
    decreases entries.len(),
{
    if active(entries.drop_last(), cobo, asad, aget) {
        lemma_active_is_within(entries.drop_last(), cobo, asad, aget);
    }
}

proof fn lemma_totals_grow(entries: Seq<Entry>, n: int, cobo: int)
    requires
        0 <= n <= entries.len(),
    ensures
        cobo_total(entries.take(n)) <= cobo_total(entries),
        asad_total(entries.take(n), cobo) <= asad_total(entries, cobo),
    decreases entries.len() - n,
{
    if n < entries.len() {
        lemma_totals_grow(entries, n + 1, cobo);
        assert(entries.take(n + 1).drop_last() =~= entries.take(n));
    } else {
        assert(entries.take(n) =~= entries);
    }
}

proof fn lemma_entry_is_within(entries: Seq<Entry>, k: int)
    requires
        0 <= k < entries.len(),
    ensures
        entries[k].at.cobo < cobo_total(entries),
        entries[k].at.asad < asad_total(entries, entries[k].at.cobo as int),
        active(entries, entries[k].at.cobo, entries[k].at.asad, entries[k].at.aget),
    decreases entries.len(),
{
    if k < entries.len() - 1 {
        lemma_entry_is_within(entries.drop_last(), k);
    }
}

proof fn lemma_sum_to_grows(counts: Seq<nat>, a: int, b: int)
    requires
        0 <= a <= b,
    ensures
        sum_to(counts, a) <= sum_to(counts, b),
    decreases b - a,
{
    if a < b {
        lemma_sum_to_grows(counts, a, b - 1);
    }
}

proof fn lemma_sum_to_same(a: Seq<nat>, b: Seq<nat>, n: int)
    requires
        forall|i: int| 0 <= i < n ==> a[i] == b[i],
    ensures
        sum_to(a, n) == sum_to(b, n),
    decreases n,
{
    if n > 0 {
        lemma_sum_to_same(a, b, n - 1);
    }
}

// ---------------------------------------------------------------------
// Layout
// ---------------------------------------------------------------------

/// Whether the detector has this channel.
pub open spec fn has_channel(boards: Seq<nat>, cobo: u32, asad: u32, aget: u32, raw_ch: u32) -> bool {
    cobo < boards.len() && asad < boards[cobo as int] && aget < AGET_CHIPS_PER_ASAD && raw_ch
        < RAW_CH_PER_AGET
}

/// The place of a channel among all channels, in the order of CoBo, AsAd, AGET and raw channel.
pub open spec fn place(boards: Seq<nat>, cobo: u32, asad: u32, aget: u32, raw_ch: u32) -> int {
    ((sum_to(boards, cobo as int) + asad) * AGET_CHIPS_PER_ASAD + aget) * RAW_CH_PER_AGET + raw_ch
}

/// Each channel has a place of its own.
pub proof fn law_places_are_distinct(
    boards: Seq<nat>,
    a: (u32, u32, u32, u32),
    b: (u32, u32, u32, u32),
)
    requires
        has_channel(boards, a.0, a.1, a.2, a.3),
        has_channel(boards, b.0, b.1, b.2, b.3),
        place(boards, a.0, a.1, a.2, a.3) == place(boards, b.0, b.1, b.2, b.3),
    ensures
        a == b,
{
    let ga = sum_to(boards, a.0 as int) + a.1;
    let gb = sum_to(boards, b.0 as int) + b.1;
    assert(ga == gb && a.2 == b.2 && a.3 == b.3);
    if a.0 < b.0 {
        lemma_sum_to_grows(boards, a.0 + 1, b.0 as int);
        assert(sum_to(boards, a.0 + 1) == sum_to(boards, a.0 as int) + boards[a.0 as int]);
    } else if b.0 < a.0 {
        lemma_sum_to_grows(boards, b.0 + 1, a.0 as int);
        assert(sum_to(boards, b.0 + 1) == sum_to(boards, b.0 as int) + boards[b.0 as int]);
    }
}

/// Every place of a channel lies among as many places as there are channels.
pub proof fn law_places_are_within(boards: Seq<nat>, cobo: u32, asad: u32, aget: u32, raw_ch: u32)
    requires
        has_channel(boards, cobo, asad, aget, raw_ch),
    ensures
        0 <= place(boards, cobo, asad, aget, raw_ch) < sum_to(boards, boards.len() as int)
            * AGET_CHIPS_PER_ASAD * RAW_CH_PER_AGET,
        sum_to(boards, cobo as int) + asad < sum_to(boards, boards.len() as int),
{
    lemma_sum_to_grows(boards, cobo + 1, boards.len() as int);
    assert(sum_to(boards, cobo + 1) == sum_to(boards, cobo as int) + boards[cobo as int]);
}

proof fn lemma_board_of(boards: Seq<nat>, n: int, global: int) -> (c: int)
    requires
        0 <= n <= boards.len(),
        0 <= global < sum_to(boards, n),
    ensures
        0 <= c < n,
        sum_to(boards, c) <= global < sum_to(boards, c) + boards[c],
    decreases n,
{
    if global >= sum_to(boards, n - 1) {
        n - 1
    } else {
        lemma_board_of(boards, n - 1, global)
    }
}

/// Every place is that of a channel.
pub proof fn law_every_place_is_taken(boards: Seq<nat>, p: int) -> (at: (u32, u32, u32, u32))
    requires
        boards.len() <= u32::MAX + 1,
        sum_to(boards, boards.len() as int) <= u32::MAX,
        0 <= p < sum_to(boards, boards.len() as int) * AGET_CHIPS_PER_ASAD * RAW_CH_PER_AGET,
    ensures
        has_channel(boards, at.0, at.1, at.2, at.3),
        place(boards, at.0, at.1, at.2, at.3) == p,
{
    let chip = p / (RAW_CH_PER_AGET as int);
    let global = chip / (AGET_CHIPS_PER_ASAD as int);
    let c = lemma_board_of(boards, boards.len() as int, global);
    lemma_sum_to_grows(boards, c + 1, boards.len() as int);
    assert(sum_to(boards, c + 1) == sum_to(boards, c) + boards[c]);
    (
        c as u32,
        (global - sum_to(boards, c)) as u32,
        (chip % (AGET_CHIPS_PER_ASAD as int)) as u32,
        (p % (RAW_CH_PER_AGET as int)) as u32,
    )
}

/// A geometry file as read.
#[derive(Debug)]
pub struct Geometry {
    /// The numbers about the detector as a whole.
    pub header: HeaderScalars,
    /// The highest strip of each plane.
    pub max_strip: [u16; 3],
    channels: Vec<ChannelRole>,
    asad_offset: Vec<u32>,
    asad_count: Vec<u32>,
    duplicates: Vec<DuplicateChannel>,
    malformed: Vec<MalformedLine>,
    unmapped_hits: u64,
    unmapped: ChannelRole,
}

spec fn counts(v: Seq<u32>) -> Seq<nat> {
    v.map_values(|n: u32| n as nat)
}

spec fn is_laid_out(asad_offset: Seq<u32>, asad_count: Seq<u32>) -> bool {
    &&& asad_offset.len() == asad_count.len()
    &&& forall|c: int|
        0 <= c < asad_offset.len() ==> #[trigger] asad_offset[c] == sum_to(counts(asad_count), c)
    &&& sum_to(counts(asad_count), asad_count.len() as int) <= u32::MAX
    &&& sum_to(counts(asad_count), asad_count.len() as int) * AGET_CHIPS_PER_ASAD * RAW_CH_PER_AGET
        <= usize::MAX
}

impl Geometry {
    /// Whether the parts of this value fit together.
    pub closed spec fn wf(&self) -> bool {
        &&& is_laid_out(self.asad_offset@, self.asad_count@)
        &&& self.asad_count@.len() <= u32::MAX + 1
        &&& self.channels@.len() == sum_to(self.boards(), self.boards().len() as int)
            * AGET_CHIPS_PER_ASAD * RAW_CH_PER_AGET
        &&& self.unmapped@ is Unmapped
    }

    /// The numbers about the detector as a whole.
    pub closed spec fn scalars(&self) -> HeaderView {
        self.header@
    }

    /// The highest strip of a plane.
    pub closed spec fn top_strip(&self, plane: Plane) -> u16 {
        self.max_strip@[plane_index(plane)]
    }

    /// The number of AsAd boards of each CoBo.
    pub closed spec fn boards(&self) -> Seq<nat> {
        counts(self.asad_count@)
    }

    /// The role of a channel.
    pub closed spec fn role(&self, cobo: u32, asad: u32, aget: u32, raw_ch: u32) -> RoleView {
        if has_channel(self.boards(), cobo, asad, aget, raw_ch) {
            self.channels@[place(self.boards(), cobo, asad, aget, raw_ch)]@
        } else {
            RoleView::Unmapped
        }
    }

    /// Whether there is an AsAd board: a chip of it has noise channels.
    pub open spec fn has_board(&self, cobo: u32, asad: u32) -> bool {
        exists|aget: u32| #[trigger] self.role(cobo, asad, aget, 11) is Fpn
    }

    /// The lines that map a channel again.
    pub closed spec fn duplicates(&self) -> Seq<DuplicateChannel> {
        self.duplicates@
    }

    /// The lines that could not be read.
    pub closed spec fn malformed(&self) -> Seq<MalformedLine> {
        self.malformed@
    }

    /// How often a channel without a role was looked up.
    pub closed spec fn hits(&self) -> u64 {
        self.unmapped_hits
    }

    /// Whether this is what the entries, the header and the malformed lines of a file say.
    pub open spec fn tells(&self, r: Reading) -> bool {
        &&& self.scalars() == r.header
        &&& self.boards() == boards_of(r.entries)
        &&& forall|cobo: u32, asad: u32, aget: u32, raw_ch: u32| #[trigger]
            self.role(cobo, asad, aget, raw_ch) == role_at(r.entries, cobo, asad, aget, raw_ch)
        &&& forall|plane: Plane| #[trigger]
            self.top_strip(plane) == highest_strip(r.entries, plane)
        &&& self.duplicates().len() == repeats(r.entries).len()
        &&& forall|i: int|
            0 <= i < self.duplicates().len() ==> (#[trigger] self.duplicates()[i]).is_of(
                repeats(r.entries)[i],
            )
        &&& self.malformed().map_values(|m: MalformedLine| m.line_number as nat) == r.malformed
    }

    /// Whether nothing but the count of look-ups differs.
    pub open spec fn agrees_with(&self, other: &Geometry) -> bool {
        &&& self.scalars() == other.scalars()
        &&& forall|plane: Plane| #[trigger] self.top_strip(plane) == other.top_strip(plane)
        &&& self.boards() == other.boards()
        &&& forall|cobo: u32, asad: u32, aget: u32, raw_ch: u32| #[trigger]
            self.role(cobo, asad, aget, raw_ch) == other.role(cobo, asad, aget, raw_ch)
        &&& self.duplicates() == other.duplicates()
        &&& self.malformed() == other.malformed()
    }
}

impl DuplicateChannel {
    /// Whether this reports the entry.
    pub open spec fn is_of(self, entry: Entry) -> bool {
        entry.at.is_for(self.cobo, self.asad, self.aget, self.raw_ch) && self.line_number
            == entry.line_number
    }
}

fn compute_index(
    asad_offset: &Vec<u32>,
    asad_count: &Vec<u32>,
    cobo: u32,
    asad: u32,
    aget: u32,
    raw_ch: u32,
) -> (index: Option<usize>)
    requires
        is_laid_out(asad_offset@, asad_count@),
    ensures
        index is Some <==> has_channel(counts(asad_count@), cobo, asad, aget, raw_ch),
        index matches Some(i) ==> i == place(counts(asad_count@), cobo, asad, aget, raw_ch) && i
            < sum_to(counts(asad_count@), asad_count@.len() as int) * AGET_CHIPS_PER_ASAD
            * RAW_CH_PER_AGET,
{
    let c: usize = cobo as usize;
    if c >= asad_offset.len() || asad >= asad_count[c] {
        return None;
    }
    if aget >= AGET_CHIPS_PER_ASAD || raw_ch >= RAW_CH_PER_AGET {
        return None;
    }
    proof {
        law_places_are_within(counts(asad_count@), cobo, asad, aget, raw_ch);
    }
    let global_asad: usize = asad_offset[c] as usize + asad as usize;
    Some(
        (global_asad * AGET_CHIPS_PER_ASAD as usize + aget as usize) * RAW_CH_PER_AGET as usize
            + raw_ch as usize,
    )
}

spec fn entries_of(pending: Seq<PendingChannel>) -> Seq<Entry> {
    pending.map_values(|p: PendingChannel| p@)
}

/// The number of AsAd boards of each CoBo, or `None` where the detector cannot be laid out.
fn count_boards(pending: &Vec<PendingChannel>) -> (asad_count: Option<Vec<u32>>)
    ensures
        asad_count is Some <==> fits(entries_of(pending@)),
        asad_count matches Some(v) ==> counts(v@) == boards_of(entries_of(pending@)) && v@.len()
            <= u32::MAX + 1,
{
    let ghost entries = entries_of(pending@);
    let mut cobos: u64 = 0;
    let mut i: usize = 0;
    assert(entries.take(0) =~= Seq::empty());
    while i < pending.len()
        invariant
            i <= pending@.len(),
            entries == entries_of(pending@),
            cobos == cobo_total(entries.take(i as int)),
            cobos <= u32::MAX + 1,
        decreases pending@.len() - i,
    {
        assert(entries.take(i + 1).drop_last() =~= entries.take(i as int));
        if pending[i].cobo as u64 >= cobos {
            cobos = pending[i].cobo as u64 + 1;
        }
        i = i + 1;
    }
    assert(entries.take(i as int) =~= entries);
    if cobos > usize::MAX as u64 {
        return None;
    }
    let mut asad_count: Vec<u32> = Vec::new();
    while asad_count.len() < cobos as usize
        invariant
            asad_count@.len() <= cobos <= usize::MAX,
            forall|c: int| 0 <= c < asad_count@.len() ==> asad_count@[c] == 0,
        decreases cobos - asad_count@.len(),
    {
        asad_count.push(0);
    }
    let mut i: usize = 0;
    assert(entries.take(0) =~= Seq::empty());
    while i < pending.len()
        invariant
            i <= pending@.len(),
            entries == entries_of(pending@),
            asad_count@.len() == cobo_total(entries) <= u32::MAX + 1,
            forall|c: int|
                0 <= c < asad_count@.len() ==> #[trigger] asad_count@[c] == asad_total(
                    entries.take(i as int),
                    c,
                ),
        decreases pending@.len() - i,
    {
        proof {
            assert(entries.take(i + 1).drop_last() =~= entries.take(i as int));
            lemma_entry_is_within(entries, i as int);
        }
        let c: usize = pending[i].cobo as usize;
        if pending[i].asad >= asad_count[c] {
            if pending[i].asad == u32::MAX {
                proof {
                    lemma_board_within_sum(entries, c as int);
                }
                return None;
            }
            asad_count.set(c, pending[i].asad + 1);
        }
        i = i + 1;
    }
    assert(entries.take(i as int) =~= entries);
    assert(counts(asad_count@) =~= boards_of(entries));
    let mut total: u32 = 0;
    let mut c: usize = 0;
    while c < asad_count.len()
        invariant
            c <= asad_count@.len() <= u32::MAX + 1,
            entries == entries_of(pending@),
            counts(asad_count@) == boards_of(entries),
            total == sum_to(boards_of(entries), c as int),
        decreases asad_count@.len() - c,
    {
        proof {
            lemma_sum_to_grows(boards_of(entries), c + 1, asad_count@.len() as int);
            assert(boards_of(entries).len() == asad_count@.len());
            assert(counts(asad_count@)[c as int] == asad_count@[c as int]);
        }
        match total.checked_add(asad_count[c]) {
            None => {
                return None;
            },
            Some(t) => {
                total = t;
            },
        }
        c = c + 1;
    }
    assert(boards_of(entries).len() == asad_count@.len());
    let channels: u64 = total as u64 * AGET_CHIPS_PER_ASAD as u64 * RAW_CH_PER_AGET as u64;
    if channels > usize::MAX as u64 {
        return None;
    }
    Some(asad_count)
}

proof fn lemma_board_within_sum(entries: Seq<Entry>, cobo: int)
    requires
        0 <= cobo < cobo_total(entries),
    ensures
        asad_total(entries, cobo) <= sum_to(
            boards_of(entries),
            boards_of(entries).len() as int,
        ),
{
    let boards = boards_of(entries);
    lemma_sum_to_grows(boards, cobo + 1, boards.len() as int);
    assert(sum_to(boards, cobo + 1) == sum_to(boards, cobo) + boards[cobo]);
}

fn offsets(asad_count: &Vec<u32>) -> (asad_offset: Vec<u32>)
    requires
        sum_to(counts(asad_count@), asad_count@.len() as int) <= u32::MAX,
        sum_to(counts(asad_count@), asad_count@.len() as int) * AGET_CHIPS_PER_ASAD
            * RAW_CH_PER_AGET <= usize::MAX,
    ensures
        is_laid_out(asad_offset@, asad_count@),
{
    let mut asad_offset: Vec<u32> = Vec::new();
    let mut running: u32 = 0;
    let mut c: usize = 0;
    while c < asad_count.len()
        invariant
            c == asad_offset@.len() <= asad_count@.len(),
            running == sum_to(counts(asad_count@), c as int),
            sum_to(counts(asad_count@), asad_count@.len() as int) <= u32::MAX,
            forall|k: int|
                0 <= k < asad_offset@.len() ==> #[trigger] asad_offset@[k] == sum_to(
                    counts(asad_count@),
                    k,
                ),
        decreases asad_count@.len() - c,
    {
        proof {
            lemma_sum_to_grows(counts(asad_count@), c + 1, asad_count@.len() as int);
            assert(counts(asad_count@)[c as int] == asad_count@[c as int]);
        }
        asad_offset.push(running);
        running = running + asad_count[c];
        c = c + 1;
    }
    asad_offset
}

/// What a channel's role is once the fixed-pattern noise of all entries and the roles of the
/// first `n` entries are in place.
spec fn role_so_far(
    entries: Seq<Entry>,
    fpn: int,
    n: int,
    cobo: u32,
    asad: u32,
    aget: u32,
    raw_ch: u32,
) -> RoleView {
    let k = first_for(entries.take(n), cobo, asad, aget, raw_ch);
    if fpn_number(raw_ch as int) is Some {
        if active(entries.take(fpn), cobo, asad, aget) {
            RoleView::Fpn { index: fpn_number(raw_ch as int)->0 }
        } else {
            RoleView::Unmapped
        }
    } else if k < n {
        entries[k].at.role
    } else {
        RoleView::Unmapped
    }
}

spec fn are_so_far(
    channels: Seq<ChannelRole>,
    boards: Seq<nat>,
    entries: Seq<Entry>,
    fpn: int,
    n: int,
) -> bool {
    &&& channels.len() == sum_to(boards, boards.len() as int) * AGET_CHIPS_PER_ASAD
        * RAW_CH_PER_AGET
    &&& forall|cobo: u32, asad: u32, aget: u32, raw_ch: u32|
        has_channel(boards, cobo, asad, aget, raw_ch) ==> channels[#[trigger] place(
            boards,
            cobo,
            asad,
            aget,
            raw_ch,
        )]@ == role_so_far(entries, fpn, n, cobo, asad, aget, raw_ch)
}

fn set_fpn(
    channels: &mut Vec<ChannelRole>,
    asad_offset: &Vec<u32>,
    asad_count: &Vec<u32>,
    cobo: u32,
    asad: u32,
    aget: u32,
    Ghost(entries): Ghost<Seq<Entry>>,
    Ghost(i): Ghost<int>,
)
    requires
        is_laid_out(asad_offset@, asad_count@),
        0 <= i < entries.len(),
        entries[i].at.cobo == cobo,
        entries[i].at.asad == asad,
        entries[i].at.aget == aget,
        aget < AGET_CHIPS_PER_ASAD,
        has_channel(counts(asad_count@), cobo, asad, aget, 0),
        are_so_far(old(channels)@, counts(asad_count@), entries, i, 0),
    ensures
        are_so_far(final(channels)@, counts(asad_count@), entries, i + 1, 0),
{
    let ghost boards = counts(asad_count@);
    let ghost start = channels@;
    let mut j: usize = 0;
    while j < 4
        invariant
            j <= 4,
            is_laid_out(asad_offset@, asad_count@),
            boards == counts(asad_count@),
            has_channel(boards, cobo, asad, aget, 0),
            channels@.len() == start.len() == sum_to(boards, boards.len() as int)
                * AGET_CHIPS_PER_ASAD * RAW_CH_PER_AGET,
            forall|c: u32, a: u32, g: u32, r: u32|
                has_channel(boards, c, a, g, r) ==> channels@[#[trigger] place(
                    boards,
                    c,
                    a,
                    g,
                    r,
                )]@ == if (c, a, g) == (cobo, asad, aget) && fpn_number(r as int) is Some
                    && fpn_number(r as int)->0 <= j {
                    RoleView::Fpn { index: fpn_number(r as int)->0 }
                } else {
                    start[place(boards, c, a, g, r)]@
                },
        decreases 4 - j,
    {
        let raw: u32 = FPN_RAW_CHANNELS[j];
        assert(fpn_number(raw as int) == Some((j + 1) as u8));
        let ghost before = channels@;
        match compute_index(asad_offset, asad_count, cobo, asad, aget, raw) {
            Some(index) => {
                channels.set(index, ChannelRole::Fpn { index: (j + 1) as u8 });
                assert forall|c: u32, a: u32, g: u32, r: u32|
                    has_channel(boards, c, a, g, r) implies channels@[#[trigger] place(
                    boards,
                    c,
                    a,
                    g,
                    r,
                )]@ == if (c, a, g) == (cobo, asad, aget) && fpn_number(r as int) is Some
                    && fpn_number(r as int)->0 <= j + 1 {
                    RoleView::Fpn { index: fpn_number(r as int)->0 }
                } else {
                    start[place(boards, c, a, g, r)]@
                } by {
                    law_places_are_within(boards, c, a, g, r);
                    if place(boards, c, a, g, r) == index {
                        law_places_are_distinct(boards, (c, a, g, r), (cobo, asad, aget, raw));
                    } else {
                        assert(channels@[place(boards, c, a, g, r)] == before[place(
                            boards,
                            c,
                            a,
                            g,
                            r,
                        )]);
                    }
                }
            },
            None => {},
        }
        j = j + 1;
    }
    proof {
        assert(entries.take(i + 1).drop_last() =~= entries.take(i));
        assert(entries.take(i + 1).last() == entries[i]);
    }
}

struct Roles {
    channels: Vec<ChannelRole>,
    duplicates: Vec<DuplicateChannel>,
}

fn assign_roles(
    pending: &Vec<PendingChannel>,
    asad_offset: &Vec<u32>,
    asad_count: &Vec<u32>,
) -> (roles: Roles)
    requires
        is_laid_out(asad_offset@, asad_count@),
        counts(asad_count@) == boards_of(entries_of(pending@)),
        sound(entries_of(pending@)),
    ensures
        are_so_far(
            roles.channels@,
            counts(asad_count@),
            entries_of(pending@),
            pending@.len() as int,
            pending@.len() as int,
        ),
        roles.duplicates@.len() == repeats(entries_of(pending@)).len(),
        forall|i: int|
            0 <= i < roles.duplicates@.len() ==> (#[trigger] roles.duplicates@[i]).is_of(
                repeats(entries_of(pending@))[i],
            ),
{
    let ghost entries = entries_of(pending@);
    let ghost boards = counts(asad_count@);
    let mut total: u32 = 0;
    if asad_count.len() > 0 {
        let last: usize = asad_count.len() - 1;
        proof {
            assert(counts(asad_count@)[last as int] == asad_count@[last as int]);
        }
        total = asad_offset[last] + asad_count[last];
    }
    assert(total == sum_to(boards, boards.len() as int));
    let len: usize = total as usize * AGET_CHIPS_PER_ASAD as usize * RAW_CH_PER_AGET as usize;
    let mut channels: Vec<ChannelRole> = Vec::new();
    while channels.len() < len
        invariant
            channels@.len() <= len,
            forall|k: int| 0 <= k < channels@.len() ==> (#[trigger] channels@[k])@ is Unmapped,
        decreases len - channels@.len(),
    {
        channels.push(ChannelRole::Unmapped);
    }
    assert(are_so_far(channels@, boards, entries, 0, 0)) by {
        assert(entries.take(0) =~= Seq::empty());
        assert forall|c: u32, a: u32, g: u32, r: u32|
            has_channel(boards, c, a, g, r) implies channels@[#[trigger] place(
            boards,
            c,
            a,
            g,
            r,
        )]@ == role_so_far(entries, 0, 0, c, a, g, r) by {
            law_places_are_within(boards, c, a, g, r);
        }
    }
    let mut i: usize = 0;
    while i < pending.len()
        invariant
            i <= pending@.len(),
            entries == entries_of(pending@),
            boards == counts(asad_count@),
            boards == boards_of(entries),
            is_laid_out(asad_offset@, asad_count@),
            sound(entries),
            are_so_far(channels@, boards, entries, i as int, 0),
        decreases pending@.len() - i,
    {
        proof {
            lemma_entry_is_within(entries, i as int);
            assert(sound_mapping(entries[i as int].at));
        }
        set_fpn(
            &mut channels,
            asad_offset,
            asad_count,
            pending[i].cobo,
            pending[i].asad,
            pending[i].aget,
            Ghost(entries),
            Ghost(i as int),
        );
        i = i + 1;
    }
    let mut duplicates: Vec<DuplicateChannel> = Vec::new();
    let mut i: usize = 0;
    let ghost all = pending@.len() as int;
    assert(entries.take(0) =~= Seq::empty());
    while i < pending.len()
        invariant
            i <= pending@.len() == all,
            entries == entries_of(pending@),
            boards == counts(asad_count@),
            boards == boards_of(entries),
            is_laid_out(asad_offset@, asad_count@),
            sound(entries),
            are_so_far(channels@, boards, entries, all, i as int),
            duplicates@.len() == repeats(entries.take(i as int)).len(),
            forall|k: int|
                0 <= k < duplicates@.len() ==> (#[trigger] duplicates@[k]).is_of(
                    repeats(entries.take(i as int))[k],
                ),
        decreases pending@.len() - i,
    {
        let p = &pending[i];
        proof {
            assert(entries.take(i + 1).drop_last() =~= entries.take(i as int));
            assert(entries.take(i + 1).last() == entries[i as int]);
            lemma_entry_is_within(entries, i as int);
            assert(sound_mapping(entries[i as int].at));
        }
        let ghost before = channels@;
        match compute_index(asad_offset, asad_count, p.cobo, p.asad, p.aget, p.raw_ch) {
            Some(index) => {
                proof {
                    lemma_first_for(entries.take(i as int), p.cobo, p.asad, p.aget, p.raw_ch);
                    let k = first_for(entries.take(i as int), p.cobo, p.asad, p.aget, p.raw_ch);
                    if k < i {
                        assert(sound_mapping(entries[k].at));
                    }
                    assert(before[place(boards, p.cobo, p.asad, p.aget, p.raw_ch)]@ == role_so_far(
                        entries,
                        all,
                        i as int,
                        p.cobo,
                        p.asad,
                        p.aget,
                        p.raw_ch,
                    ));
                }
                if channels[index].is_unmapped() {
                    channels.set(index, p.role.copy());
                } else {
                    duplicates.push(
                        DuplicateChannel {
                            cobo: p.cobo,
                            asad: p.asad,
                            aget: p.aget,
                            raw_ch: p.raw_ch,
                            line_number: p.line_number,
                        },
                    );
                }
                assert forall|c: u32, a: u32, g: u32, r: u32|
                    has_channel(boards, c, a, g, r) implies channels@[#[trigger] place(
                    boards,
                    c,
                    a,
                    g,
                    r,
                )]@ == role_so_far(entries, all, i + 1, c, a, g, r) by {
                    law_places_are_within(boards, c, a, g, r);
                    lemma_first_for(entries.take(i as int), c, a, g, r);
                    if place(boards, c, a, g, r) == index {
                        law_places_are_distinct(
                            boards,
                            (c, a, g, r),
                            (p.cobo, p.asad, p.aget, p.raw_ch),
                        );
                    } else {
                        assert(!entries[i as int].at.is_for(c, a, g, r));
                        assert(channels@[place(boards, c, a, g, r)] == before[place(
                            boards,
                            c,
                            a,
                            g,
                            r,
                        )]);
                    }
                }
            },
            None => {},
        }
        i = i + 1;
    }
    assert(entries.take(i as int) =~= entries);
    Roles { channels, duplicates }
}

fn highest_strips(pending: &Vec<PendingChannel>) -> (max_strip: [u16; 3])
    ensures
        forall|plane: Plane|
            max_strip@[#[trigger] plane_index(plane)] == highest_strip(
                entries_of(pending@),
                plane,
            ),
{
    let ghost entries = entries_of(pending@);
    let mut u: u16 = 0;
    let mut v: u16 = 0;
    let mut w: u16 = 0;
    let mut i: usize = 0;
    assert(entries.take(0) =~= Seq::empty());
    while i < pending.len()
        invariant
            i <= pending@.len(),
            entries == entries_of(pending@),
            u == highest_strip(entries.take(i as int), Plane::U),
            v == highest_strip(entries.take(i as int), Plane::V),
            w == highest_strip(entries.take(i as int), Plane::W),
        decreases pending@.len() - i,
    {
        proof {
            assert(entries.take(i + 1).drop_last() =~= entries.take(i as int));
            assert(entries.take(i + 1).last() == pending@[i as int]@);
        }
        match &pending[i].role {
            ChannelRole::Strip { plane, section: _, strip } => {
                match plane {
                    Plane::U => {
                        if *strip > u {
                            u = *strip;
                        }
                    },
                    Plane::V => {
                        if *strip > v {
                            v = *strip;
                        }
                    },
                    Plane::W => {
                        if *strip > w {
                            w = *strip;
                        }
                    },
                }
            },
            _ => {},
        }
        i = i + 1;
    }
    assert(entries.take(i as int) =~= entries);
    [u, v, w]
}

fn build_geometry(read: ReadLines) -> (geometry: Geometry)
    requires
        fits(read@.entries),
        sound(read@.entries),
    ensures
        geometry.wf(),
        geometry.tells(read@),
        geometry.hits() == 0,
{
    let ghost entries = entries_of(read.pending@);
    let asad_count: Vec<u32> = match count_boards(&read.pending) {
        Some(v) => v,
        None => Vec::new(),
    };
    assert(asad_count@.len() == boards_of(entries).len());
    let asad_offset: Vec<u32> = offsets(&asad_count);
    let max_strip: [u16; 3] = highest_strips(&read.pending);
    let roles = assign_roles(&read.pending, &asad_offset, &asad_count);
    let geometry = Geometry {
        header: read.header,
        max_strip,
        channels: roles.channels,
        asad_offset,
        asad_count,
        duplicates: roles.duplicates,
        malformed: read.malformed,
        unmapped_hits: 0,
        unmapped: ChannelRole::Unmapped,
    };
    proof {
        let n = entries.len() as int;
        assert(entries.take(n) =~= entries);
        assert forall|c: u32, a: u32, g: u32, r: u32| #[trigger]
            geometry.role(c, a, g, r) == role_at(entries, c, a, g, r) by {
            lemma_first_for(entries, c, a, g, r);
            let k = first_for(entries, c, a, g, r);
            if k < n {
                assert(sound_mapping(entries[k].at));
            }
            if active(entries, c, a, g) {
                lemma_active_is_within(entries, c, a, g);
            }
            if has_channel(geometry.boards(), c, a, g, r) {
                assert(geometry.channels@[place(geometry.boards(), c, a, g, r)]@ == role_so_far(
                    entries,
                    n,
                    n,
                    c,
                    a,
                    g,
                    r,
                ));
            } else {
                lemma_active_chip(entries, c, a, g);
            }
        }
        assert forall|plane: Plane| #[trigger]
            geometry.top_strip(plane) == highest_strip(entries, plane) by {
            assert(max_strip@[plane_index(plane)] == highest_strip(entries, plane));
        }
    }
    geometry
}

proof fn lemma_active_chip(entries: Seq<Entry>, cobo: u32, asad: u32, aget: u32)
    requires
        sound(entries),
    ensures
        active(entries, cobo, asad, aget) ==> aget < AGET_CHIPS_PER_ASAD,
    decreases entries.len(),
{
    if entries.len() > 0 {
        assert(sound_mapping(entries.last().at));
        assert(sound(entries.drop_last()));
        lemma_active_chip(entries.drop_last(), cobo, asad, aget);
    }
}

/// Whether the detector that a file describes can be laid out in memory.
pub fn fits_in_memory(content: &str) -> (r: bool)
    ensures
        r == fits(reading(text::lines(content@)).entries),
{
    let read = read_lines(content);
    count_boards(&read.pending).is_some()
}

/// Reads a geometry file.
pub fn parse(content: &str) -> (geometry: Geometry)
    requires
        fits(reading(text::lines(content@)).entries),
    ensures
        geometry.wf(),
        geometry.tells(reading(text::lines(content@))),
        forall|cobo: u32, asad: u32| #[trigger]
            geometry.has_board(cobo, asad) <==> names_board(
                reading(text::lines(content@)).entries,
                cobo,
                asad,
            ),
        geometry.hits() == 0,
{
    let read = read_lines(content);
    proof {
        law_entries_are_sound(text::lines(content@));
    }
    let geometry = build_geometry(read);
    proof {
        law_boards_are_those_named(&geometry, text::lines(content@));
    }
    geometry
}

// ---------------------------------------------------------------------
// Look-up and dump
// ---------------------------------------------------------------------

/// Whether a board comes before another: by CoBo and then by number.
pub open spec fn board_before(a: (u32, u32), b: (u32, u32)) -> bool {
    a.0 < b.0 || (a.0 == b.0 && a.1 < b.1)
}

/// Whether each board in the list comes before those behind it.
pub open spec fn boards_ascend(list: Seq<(u32, u32)>) -> bool {
    forall|i: int, j: int|
        0 <= i < j < list.len() ==> board_before(#[trigger] list[i], #[trigger] list[j])
}

/// Whether the entries name an AsAd board: some chip of it is active.
pub open spec fn names_board(entries: Seq<Entry>, cobo: u32, asad: u32) -> bool {
    exists|aget: u32| #[trigger] active(entries, cobo, asad, aget)
}

/// Whether the list holds the boards that the entries name, in ascending order and each once.
pub open spec fn lists_boards(list: Seq<(u32, u32)>, entries: Seq<Entry>) -> bool {
    &&& boards_ascend(list)
    &&& forall|cobo: u32, asad: u32| #[trigger]
        list.contains((cobo, asad)) <==> names_board(entries, cobo, asad)
}

proof fn lemma_push_contains(list: Seq<(u32, u32)>, x: (u32, u32), y: (u32, u32))
    ensures
        list.push(x).contains(y) <==> list.contains(y) || x == y,
{
    if list.contains(y) {
        let i = choose|i: int| 0 <= i < list.len() && list[i] == y;
        assert(list.push(x)[i] == y);
    }
    if x == y {
        assert(list.push(x)[list.len() as int] == y);
    }
    if list.push(x).contains(y) && x != y {
        let i = choose|i: int| 0 <= i < list.push(x).len() && list.push(x)[i] == y;
        assert(list[i] == y);
    }
}

proof fn lemma_ascending_boards_are_determined(a: Seq<(u32, u32)>, b: Seq<(u32, u32)>)
    requires
        boards_ascend(a),
        boards_ascend(b),
        forall|p: (u32, u32)| #[trigger] a.contains(p) <==> b.contains(p),
    ensures
        a == b,
    decreases a.len(),
{
    if a.len() == 0 {
        if b.len() > 0 {
            assert(b.contains(b[0]));
            assert(a.contains(b[0]));
        }
        assert(a =~= b);
    } else {
        assert(a.contains(a[a.len() - 1]));
        assert(b.contains(a.last()));
        let k = choose|k: int| 0 <= k < b.len() && b[k] == a.last();
        assert(b.contains(b[b.len() - 1]));
        assert(a.contains(b.last()));
        let m = choose|m: int| 0 <= m < a.len() && a[m] == b.last();
        if k < b.len() - 1 {
            assert(board_before(b[k], b[b.len() - 1]));
            if m < a.len() - 1 {
                assert(board_before(a[m], a[a.len() - 1]));
            }
            assert(false);
        }
        let x = a.last();
        let p = a.drop_last();
        let q = b.drop_last();
        assert(p.push(x) =~= a && q.push(x) =~= b);
        assert forall|y: (u32, u32)| #[trigger] p.contains(y) <==> q.contains(y) by {
            lemma_push_contains(p, x, y);
            lemma_push_contains(q, x, y);
            assert(a.contains(y) <==> b.contains(y));
            if p.contains(x) {
                let i = choose|i: int| 0 <= i < p.len() && p[i] == x;
                assert(board_before(a[i], a[a.len() - 1]));
            }
            if q.contains(x) {
                let i = choose|i: int| 0 <= i < q.len() && q[i] == x;
                assert(board_before(b[i], b[b.len() - 1]));
            }
        }
        lemma_ascending_boards_are_determined(p, q);
    }
}

/// There is one list of the boards that a file names.
pub proof fn law_the_inventory_is_unique(
    a: Seq<(u32, u32)>,
    b: Seq<(u32, u32)>,
    entries: Seq<Entry>,
)
    requires
        lists_boards(a, entries),
        lists_boards(b, entries),
    ensures
        a == b,
{
    assert forall|p: (u32, u32)| #[trigger] a.contains(p) <==> b.contains(p) by {
        assert(a.contains((p.0, p.1)) <==> b.contains((p.0, p.1)));
    }
    lemma_ascending_boards_are_determined(a, b);
}

/// What is read of a file tells of a board exactly where a line of the file names it.
pub proof fn law_boards_are_those_named(geometry: &Geometry, lines: Seq<Seq<char>>)
    requires
        geometry.tells(reading(lines)),
    ensures
        forall|cobo: u32, asad: u32| #[trigger]
            geometry.has_board(cobo, asad) <==> names_board(reading(lines).entries, cobo, asad),
{
    let entries = reading(lines).entries;
    law_entries_are_sound(lines);
    assert forall|cobo: u32, asad: u32| #[trigger]
        geometry.has_board(cobo, asad) <==> names_board(entries, cobo, asad) by {
        if geometry.has_board(cobo, asad) {
            let aget = choose|aget: u32| #[trigger]
                geometry.role(cobo, asad, aget, 11) is Fpn;
            lemma_first_for(entries, cobo, asad, aget, 11);
            assert(active(entries, cobo, asad, aget));
        }
        if names_board(entries, cobo, asad) {
            let aget = choose|aget: u32| #[trigger] active(entries, cobo, asad, aget);
            assert(geometry.role(cobo, asad, aget, 11) is Fpn);
        }
    }
}

impl Geometry {
    fn index_of(&self, cobo: u32, asad: u32, aget: u32, raw_ch: u32) -> (index: Option<usize>)
        requires
            self.wf(),
        ensures
            index is Some <==> has_channel(self.boards(), cobo, asad, aget, raw_ch),
            index matches Some(i) ==> i == place(self.boards(), cobo, asad, aget, raw_ch) && i
                < self.channels@.len(),
    {
        compute_index(&self.asad_offset, &self.asad_count, cobo, asad, aget, raw_ch)
    }

    /// The role of a channel. A channel without one is counted, as is one that there is not.
    pub fn lookup_ref(&mut self, cobo: u32, asad: u32, aget: u32, raw_ch: u32) -> (role:
        &ChannelRole)
        requires
            old(self).wf(),
        ensures
            role@ == old(self).role(cobo, asad, aget, raw_ch),
            final(self).wf(),
            final(self).agrees_with(old(self)),
            final(self).hits() == if role@ is Unmapped {
                old(self).hits().wrapping_add(1)
            } else {
                old(self).hits()
            },
    {
        match self.index_of(cobo, asad, aget, raw_ch) {
            Some(i) => {
                if self.channels[i].is_unmapped() {
                    self.unmapped_hits = self.unmapped_hits.wrapping_add(1);
                }
                &self.channels[i]
            },
            None => {
                self.unmapped_hits = self.unmapped_hits.wrapping_add(1);
                &self.unmapped
            },
        }
    }

    /// The role of a channel, as [`Geometry::lookup_ref`] gives it.
    pub fn lookup(&mut self, cobo: u32, asad: u32, aget: u32, raw_ch: u32) -> (role: ChannelRole)
        requires
            old(self).wf(),
        ensures
            role@ == old(self).role(cobo, asad, aget, raw_ch),
            final(self).wf(),
            final(self).agrees_with(old(self)),
            final(self).hits() == if role@ is Unmapped {
                old(self).hits().wrapping_add(1)
            } else {
                old(self).hits()
            },
    {
        self.lookup_ref(cobo, asad, aget, raw_ch).copy()
    }

    /// How often a channel without a role was looked up.
    pub fn unmapped_hit_count(&self) -> (n: u64)
        ensures
            n == self.hits(),
    {
        self.unmapped_hits
    }

    /// The lines that map a channel again.
    pub fn duplicate_warnings(&self) -> (out: &[DuplicateChannel])
        ensures
            out@ == self.duplicates(),
    {
        self.duplicates.as_slice()
    }

    /// The lines that could not be read.
    pub fn malformed_lines(&self) -> (out: &[MalformedLine])
        ensures
            out@ == self.malformed(),
    {
        self.malformed.as_slice()
    }

    /// The number of CoBos.
    pub fn cobo_count(&self) -> (n: usize)
        requires
            self.wf(),
        ensures
            n == self.boards().len(),
    {
        self.asad_offset.len()
    }

    fn names_board(&self, cobo: u32, asad: u32) -> (r: bool)
        requires
            self.wf(),
        ensures
            r == self.has_board(cobo, asad),
    {
        let mut aget: u32 = 0;
        while aget < AGET_CHIPS_PER_ASAD
            invariant
                self.wf(),
                aget <= AGET_CHIPS_PER_ASAD,
                forall|g: u32| g < aget ==> !(#[trigger] self.role(cobo, asad, g, 11) is Fpn),
            decreases AGET_CHIPS_PER_ASAD - aget,
        {
            if let Some(i) = self.index_of(cobo, asad, aget, 11) {
                if let ChannelRole::Fpn { .. } = &self.channels[i] {
                    assert(self.role(cobo, asad, aget, 11) is Fpn);
                    return true;
                }
            }
            aget = aget + 1;
        }
        false
    }

    /// Every AsAd board that the file names, by CoBo and then by number, each once. This looks up
    /// no channel, so none is counted.
    pub fn asad_inventory(&self) -> (out: Vec<(u32, u32)>)
        requires
            self.wf(),
        ensures
            boards_ascend(out@),
            forall|cobo: u32, asad: u32| #[trigger]
                out@.contains((cobo, asad)) <==> self.has_board(cobo, asad),
    {
        let mut out: Vec<(u32, u32)> = Vec::new();
        let mut cobo: usize = 0;
        while cobo < self.asad_count.len()
            invariant
                self.wf(),
                cobo <= self.asad_count@.len() <= u32::MAX + 1,
                boards_ascend(out@),
                forall|c: u32, a: u32| #[trigger]
                    out@.contains((c, a)) <==> c < cobo && self.has_board(c, a),
            decreases self.asad_count@.len() - cobo,
        {
            let count: u32 = self.asad_count[cobo];
            assert(self.boards()[cobo as int] == count);
            let mut asad: u32 = 0;
            while asad < count
                invariant
                    self.wf(),
                    cobo < self.asad_count@.len() <= u32::MAX + 1,
                    asad <= count,
                    boards_ascend(out@),
                    forall|c: u32, a: u32| #[trigger]
                        out@.contains((c, a)) <==> (c < cobo || (c == cobo && a < asad))
                            && self.has_board(c, a),
                decreases count - asad,
            {
                if self.names_board(cobo as u32, asad) {
                    let ghost before = out@;
                    out.push((cobo as u32, asad));
                    proof {
                        assert forall|i: int, j: int| 0 <= i < j < out@.len() implies board_before(
                            #[trigger] out@[i],
                            #[trigger] out@[j],
                        ) by {
                            assert(out@[i] == before[i]);
                            if j < before.len() {
                                assert(out@[j] == before[j]);
                            } else {
                                assert(before.contains((before[i].0, before[i].1)));
                            }
                        }
                        assert forall|c: u32, a: u32| #[trigger]
                            out@.contains((c, a)) <==> (c < cobo || (c == cobo && a < asad + 1))
                                && self.has_board(c, a) by {
                            lemma_push_contains(before, (cobo as u32, asad), (c, a));
                        }
                    }
                }
                asad = asad + 1;
            }
            assert forall|c: u32, a: u32| #[trigger]
                out@.contains((c, a)) <==> c < cobo + 1 && self.has_board(c, a) by {
                if c == cobo && a >= count && self.has_board(c, a) {
                    let g = choose|g: u32| #[trigger] self.role(c, a, g, 11) is Fpn;
                    assert(!has_channel(self.boards(), c, a, g, 11));
                }
            }
            cobo = cobo + 1;
        }
        assert forall|c: u32, a: u32| #[trigger]
            out@.contains((c, a)) <==> self.has_board(c, a) by {
            if c >= cobo && self.has_board(c, a) {
                let g = choose|g: u32| #[trigger] self.role(c, a, g, 11) is Fpn;
                assert(!has_channel(self.boards(), c, a, g, 11));
            }
        }
        out
    }

    /// The rows of the first `n` channels of a chip.
    pub open spec fn chip_rows(&self, cobo: u32, asad: u32, aget: u32, n: int) -> Seq<char>
        decreases n,
    {
        if n <= 0 {
            Seq::empty()
        } else {
            self.chip_rows(cobo, asad, aget, n - 1) + row(
                cobo as nat,
                asad as nat,
                aget as nat,
                (n - 1) as nat,
                self.role(cobo, asad, aget, (n - 1) as u32),
            )
        }
    }

    /// The rows of the first `n` chips of an AsAd board.
    pub open spec fn board_rows(&self, cobo: u32, asad: u32, n: int) -> Seq<char>
        decreases n,
    {
        if n <= 0 {
            Seq::empty()
        } else {
            self.board_rows(cobo, asad, n - 1) + self.chip_rows(
                cobo,
                asad,
                (n - 1) as u32,
                RAW_CH_PER_AGET as int,
            )
        }
    }

    /// The rows of the first `n` AsAd boards of a CoBo.
    pub open spec fn cobo_rows(&self, cobo: u32, n: int) -> Seq<char>
        decreases n,
    {
        if n <= 0 {
            Seq::empty()
        } else {
            self.cobo_rows(cobo, n - 1) + self.board_rows(
                cobo,
                (n - 1) as u32,
                AGET_CHIPS_PER_ASAD as int,
            )
        }
    }

    /// The rows of the first `n` CoBos.
    pub open spec fn rows(&self, n: int) -> Seq<char>
        decreases n,
    {
        if n <= 0 {
            Seq::empty()
        } else {
            self.rows(n - 1) + self.cobo_rows((n - 1) as u32, self.boards()[n - 1] as int)
        }
    }

    fn push_chip(&self, out: &mut String, cobo: u32, asad: u32, aget: u32)
        requires
            self.wf(),
            has_channel(self.boards(), cobo, asad, aget, 0),
        ensures
            final(out)@ == old(out)@ + self.chip_rows(cobo, asad, aget, RAW_CH_PER_AGET as int),
    {
        let mut raw_ch: u32 = 0;
        assert(out@ =~= old(out)@ + self.chip_rows(cobo, asad, aget, 0));
        while raw_ch < RAW_CH_PER_AGET
            invariant
                raw_ch <= RAW_CH_PER_AGET,
                self.wf(),
                has_channel(self.boards(), cobo, asad, aget, 0),
                out@ == old(out)@ + self.chip_rows(cobo, asad, aget, raw_ch as int),
            decreases RAW_CH_PER_AGET - raw_ch,
        {
            match self.index_of(cobo, asad, aget, raw_ch) {
                Some(i) => {
                    let line: String = row_text(cobo, asad, aget, raw_ch, &self.channels[i]);
                    out.append(line.as_str());
                    assert(out@ =~= old(out)@ + self.chip_rows(cobo, asad, aget, raw_ch + 1));
                },
                None => {},
            }
            raw_ch = raw_ch + 1;
        }
    }

    fn push_board(&self, out: &mut String, cobo: u32, asad: u32)
        requires
            self.wf(),
            has_channel(self.boards(), cobo, asad, 0, 0),
        ensures
            final(out)@ == old(out)@ + self.board_rows(cobo, asad, AGET_CHIPS_PER_ASAD as int),
    {
        let mut aget: u32 = 0;
        assert(out@ =~= old(out)@ + self.board_rows(cobo, asad, 0));
        while aget < AGET_CHIPS_PER_ASAD
            invariant
                aget <= AGET_CHIPS_PER_ASAD,
                self.wf(),
                has_channel(self.boards(), cobo, asad, 0, 0),
                out@ == old(out)@ + self.board_rows(cobo, asad, aget as int),
            decreases AGET_CHIPS_PER_ASAD - aget,
        {
            self.push_chip(out, cobo, asad, aget);
            assert(out@ =~= old(out)@ + self.board_rows(cobo, asad, aget + 1));
            aget = aget + 1;
        }
    }

    fn push_cobo(&self, out: &mut String, cobo: u32, count: u32)
        requires
            self.wf(),
            cobo < self.boards().len(),
            count == self.boards()[cobo as int],
        ensures
            final(out)@ == old(out)@ + self.cobo_rows(cobo, count as int),
    {
        let mut asad: u32 = 0;
        assert(out@ =~= old(out)@ + self.cobo_rows(cobo, 0));
        while asad < count
            invariant
                asad <= count,
                self.wf(),
                cobo < self.boards().len(),
                count == self.boards()[cobo as int],
                out@ == old(out)@ + self.cobo_rows(cobo, asad as int),
            decreases count - asad,
        {
            self.push_board(out, cobo, asad);
            assert(out@ =~= old(out)@ + self.cobo_rows(cobo, asad + 1));
            asad = asad + 1;
        }
    }
}

/// The name of a kind of role.
pub open spec fn role_name(role: RoleView) -> Seq<char> {
    match role {
        RoleView::Strip { .. } => "Strip"@,
        RoleView::Fpn { .. } => "Fpn"@,
        RoleView::Aux { .. } => "Aux"@,
        RoleView::Unmapped => "Unmapped"@,
    }
}

/// Plane, section and strip of a role; all empty where it has none.
pub open spec fn strip_columns(role: RoleView) -> Seq<char> {
    match role {
        RoleView::Strip { plane, section, strip } => plane_name(plane) + "\t"@ + text::decimal(
            section as nat,
        ) + "\t"@ + text::decimal(strip as nat),
        _ => "\t\t"@,
    }
}

/// One line of the dump.
pub open spec fn row(cobo: nat, asad: nat, aget: nat, raw_ch: nat, role: RoleView) -> Seq<char> {
    text::decimal(cobo) + "\t"@ + text::decimal(asad) + "\t"@ + text::decimal(aget) + "\t"@
        + text::decimal(raw_ch) + "\t"@ + role_name(role) + "\t"@ + strip_columns(role) + "\n"@
}

fn strip_text(role: &ChannelRole) -> (s: String)
    ensures
        s@ == strip_columns(role@),
{
    match role {
        ChannelRole::Strip { plane, section, strip } => {
            let mut s = plane.as_str().to_string();
            s.append("\t");
            push_decimal(&mut s, *section as u64);
            s.append("\t");
            push_decimal(&mut s, *strip as u64);
            s
        },
        _ => "\t\t".to_string(),
    }
}

fn row_text(cobo: u32, asad: u32, aget: u32, raw_ch: u32, role: &ChannelRole) -> (s: String)
    ensures
        s@ == row(cobo as nat, asad as nat, aget as nat, raw_ch as nat, role@),
{
    let name = match role {
        ChannelRole::Strip { .. } => "Strip",
        ChannelRole::Fpn { .. } => "Fpn",
        ChannelRole::Aux { .. } => "Aux",
        ChannelRole::Unmapped => "Unmapped",
    };
    let mut s: String = decimal_string(cobo as u64);
    s.append("\t");
    push_decimal(&mut s, asad as u64);
    s.append("\t");
    push_decimal(&mut s, aget as u64);
    s.append("\t");
    push_decimal(&mut s, raw_ch as u64);
    s.append("\t");
    s.append(name);
    s.append("\t");
    let columns: String = strip_text(role);
    s.append(columns.as_str());
    s.append("\n");
    s
}

/// All channels, one to a line, in the order of CoBo, AsAd, AGET and raw channel, with CoBo,
/// AsAd, AGET, raw channel, role, plane, section and strip behind tabs. Nothing is counted as
/// looked up.
pub fn dump_tsv(geometry: &Geometry) -> (out: String)
    requires
        geometry.wf(),
    ensures
        out@ == geometry.rows(geometry.boards().len() as int),
{
    let mut out: String = String::new();
    let mut cobo: usize = 0;
    assert(out@ =~= geometry.rows(0));
    while cobo < geometry.asad_count.len()
        invariant
            cobo <= geometry.asad_count@.len() <= u32::MAX + 1,
            geometry.wf(),
            out@ == geometry.rows(cobo as int),
        decreases geometry.asad_count@.len() - cobo,
    {
        let count: u32 = geometry.asad_count[cobo];
        geometry.push_cobo(&mut out, cobo as u32, count);
        cobo = cobo + 1;
    }
    out
}

} // verus!
