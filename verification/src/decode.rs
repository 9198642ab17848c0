//! Decoding one CoBo frame into a fragment.
//!
//! Frame types 1 and 2 carry data. A type 1 sample is four bytes and names its channel and
//! time bucket. A type 2 sample is two bytes and names only its AGET chip: the samples of a
//! chip come in readout order, all channels of a bucket before the next bucket, so the
//! position of a sample among those of its chip gives its channel and bucket. Other frame types
//! are control frames.

use vstd::prelude::*;

use crate::bytes;
use crate::bytes::{push_u32_le, read_u16_at, read_u32_at, read_uint};
use crate::framer;
use crate::msg;
use crate::msg::{pack_item, Fragment, FragmentView, Item};

verus! {

/// Bytes from the meta type to the revision.
pub const MIN_FRAME_BYTES: usize = 8;

/// Bytes in the common header of a data frame.
pub const HEADER_MIN_BYTES: usize = 88;

/// Raw channels of one AGET chip, fixed-pattern-noise channels counted.
pub const RAW_CH_PER_AGET: u16 = 68;

/// The frame type of a topology frame.
pub const TOPOLOGY_FRAME_TYPE: u16 = 7;

/// Bytes in a topology frame.
pub const TOPOLOGY_FRAME_BYTES: usize = 12;

/// Bytes of the common header up to and with the AsAd number.
pub const PEEK_MIN_BYTES: usize = 28;

/// The header field in bytes `from` to `to`, read in the frame's own byte order.
pub open spec fn field(frame: Seq<u8>, from: int, to: int) -> nat {
    bytes::uint_value(frame.subrange(from, to), framer::is_little(frame))
}

/// The frame type.
pub open spec fn frame_type(frame: Seq<u8>) -> nat {
    field(frame, 5, 7)
}

/// Whether the frame is long enough to peek at and carries data.
pub open spec fn is_routable(frame: Seq<u8>) -> bool {
    frame.len() >= PEEK_MIN_BYTES && (frame_type(frame) == 1 || frame_type(frame) == 2)
}

/// What a topology frame says.
#[derive(Debug, Clone, Copy, PartialEq, Eq, Structural)]
pub struct Topology {
    /// The CoBo's number.
    pub cobo: u8,
    /// Bit N is set where AsAd N takes part.
    pub asad_mask: u8,
    /// Whether the two-proton mode is on.
    pub two_p_mode: bool,
}

/// The number of bits among the low `n` that are set in `mask`.
pub open spec fn bits_set(mask: u8, n: nat) -> nat
    decreases n,
{
    if n == 0 {
        0
    } else {
        bits_set(mask, (n - 1) as nat) + ((mask >> (n - 1) as u8) & 1) as nat
    }
}

impl Topology {
    /// The number of AsAd boards that take part.
    pub fn active_asads(&self) -> (n: u32)
        ensures
            n == bits_set(self.asad_mask, 8),
    {
        let mask: u8 = self.asad_mask;
        let mut n: u32 = 0;
        let mut bit: u8 = 0;
        while bit < 8
            invariant
                bit <= 8,
                n <= bit,
                n == bits_set(mask, bit as nat),
            decreases 8 - bit,
        {
            assert((mask >> bit) & 1 <= 1) by (bit_vector);
            n = n + ((mask >> bit) & 1) as u32;
            bit = bit + 1;
        }
        n
    }
}

/// Whether the frame is a topology frame.
pub open spec fn is_topology(frame: Seq<u8>) -> bool {
    frame.len() >= TOPOLOGY_FRAME_BYTES && frame_type(frame) == TOPOLOGY_FRAME_TYPE
}

/// What a topology frame says, or `None` for any other frame.
pub fn parse_topology(frame: &[u8]) -> (t: Option<Topology>)
    ensures
        t == if is_topology(frame@) {
            Some(Topology { cobo: frame@[8], asad_mask: frame@[9], two_p_mode: frame@[10] != 0 })
        } else {
            None::<Topology>
        },
{
    if frame.len() < TOPOLOGY_FRAME_BYTES {
        return None;
    }
    if read_frame_type(frame) != TOPOLOGY_FRAME_TYPE {
        return None;
    }
    Some(Topology { cobo: frame[8], asad_mask: frame[9], two_p_mode: frame[10] != 0 })
}

/// The AsAd number of a data frame, read without decoding it. `None` for a control frame and
/// for one too short to hold the number.
pub fn peek_asad(frame: &[u8]) -> (asad: Option<u8>)
    ensures
        asad == if is_routable(frame@) {
            Some(frame@[27])
        } else {
            None::<u8>
        },
{
    if frame.len() < PEEK_MIN_BYTES {
        return None;
    }
    let frame_type: u16 = read_frame_type(frame);
    if frame_type != 1 && frame_type != 2 {
        return None;
    }
    Some(frame[27])
}

/// The event number of a data frame, read without decoding it. Given exactly where
/// [`peek_asad`] gives an AsAd number.
pub fn peek_event_idx(frame: &[u8]) -> (idx: Option<u32>)
    ensures
        idx == if is_routable(frame@) {
            Some(field(frame@, 22, 26) as u32)
        } else {
            None::<u32>
        },
        is_routable(frame@) ==> field(frame@, 22, 26) <= u32::MAX,
{
    if frame.len() < PEEK_MIN_BYTES {
        return None;
    }
    let frame_type: u16 = read_frame_type(frame);
    if frame_type != 1 && frame_type != 2 {
        return None;
    }
    let little: bool = is_little_endian(frame[0]);
    Some(read_u32_at(frame, 22, little))
}

/// Whether a meta type asks for little-endian reading.
pub fn is_little_endian(meta_type: u8) -> (little: bool)
    ensures
        little == (meta_type >= 128),
{
    proof {
        framer::lemma_meta_type(meta_type);
    }
    meta_type & 0x80 != 0
}

fn read_frame_type(frame: &[u8]) -> (t: u16)
    requires
        frame@.len() >= MIN_FRAME_BYTES,
    ensures
        t == frame_type(frame@),
{
    let little: bool = is_little_endian(frame[0]);
    read_u16_at(frame, 5, little)
}

// ---------------------------------------------------------------------
// Samples
// ---------------------------------------------------------------------

/// The numbers of `size` bytes each that follow one another in `data`.
pub open spec fn wire_words(data: Seq<u8>, size: int, little: bool) -> Seq<nat> {
    Seq::new(
        (data.len() / size as nat),
        |k: int| bytes::uint_value(data.subrange(k * size, k * size + size), little),
    )
}

/// The sample that a type 1 word stands for.
pub open spec fn explicit_item(word: nat) -> Item {
    Item {
        aget: (word / 0x4000_0000) as u8,
        chan: (word / 0x80_0000 % 128) as u8,
        bucket: (word / 0x4000 % 512) as u16,
        adc: (word % 4096) as u16,
    }
}

/// The chip that a type 2 word names.
pub open spec fn compact_aget(word: nat) -> nat {
    word / 0x4000 % 4
}

/// How many of the first `k` words name chip `aget`.
pub open spec fn chip_count(words: Seq<nat>, k: nat, aget: nat) -> nat
    decreases k,
{
    if k == 0 {
        0
    } else {
        chip_count(words, (k - 1) as nat, aget) + if compact_aget(words[k - 1]) == aget {
            1nat
        } else {
            0nat
        }
    }
}

/// The position of the `k`-th word among those of its own chip.
pub open spec fn chip_rank(words: Seq<nat>, k: int) -> nat {
    chip_count(words, k as nat, compact_aget(words[k]))
}

/// The sample that the `k`-th type 2 word stands for.
pub open spec fn compact_item(words: Seq<nat>, k: int) -> Item {
    Item {
        aget: compact_aget(words[k]) as u8,
        chan: (chip_rank(words, k) % RAW_CH_PER_AGET as nat) as u8,
        bucket: (chip_rank(words, k) / RAW_CH_PER_AGET as nat) as u16,
        adc: (words[k] % 4096) as u16,
    }
}

/// The samples that the words of a frame stand for. `None` where a type 2 frame holds more
/// samples of a chip than there are buckets for.
pub open spec fn wire_items(frame_type: nat, words: Seq<nat>) -> Option<Seq<Item>> {
    if frame_type == 1 {
        Some(Seq::new(words.len(), |k: int| explicit_item(words[k])))
    } else if forall|k: int|
        0 <= k < words.len() ==> #[trigger] chip_rank(words, k) / RAW_CH_PER_AGET as nat <= 511 {
        Some(Seq::new(words.len(), |k: int| compact_item(words, k)))
    } else {
        None
    }
}

/// The bytes in which a fragment carries `items`.
pub open spec fn item_bytes(items: Seq<Item>) -> Seq<u8> {
    msg::words_bytes(items.map_values(|i: Item| i.word() as u32))
}

proof fn lemma_item_bytes_push(items: Seq<Item>, item: Item)
    requires
        item.in_range(),
    ensures
        item_bytes(items.push(item)) == item_bytes(items) + bytes::le_bytes4(item.word() as u32),
        0 <= item.word() <= u32::MAX,
{
    msg::law_pack_round_trip(item);
    let f = |i: Item| i.word() as u32;
    let words = items.push(item).map_values(f);
    assert(words.drop_last() =~= items.map_values(f));
    assert(words.last() == item.word() as u32);
}

/// A type 1 word whose two spare bits are clear is carried over unchanged.
pub proof fn law_explicit_words_are_kept(word: u32)
    requires
        word as nat / 4096 % 4 == 0,
    ensures
        explicit_item(word as nat).word() == word,
{
    assert(word / 0x4000_0000 % 4 == word / 0x4000_0000) by (bit_vector);
    assert(word == word / 0x4000_0000 * 0x4000_0000 + word / 0x80_0000 % 128 * 0x80_0000 + word
        / 0x4000 % 512 * 0x4000 + word / 4096 % 4 * 4096 + word % 4096) by (bit_vector);
}

/// The samples of a chip come out in readout order: the sample that follows another one of
/// its chip has the next channel, or the first channel of the next bucket.
pub proof fn law_compact_readout_order(words: Seq<nat>, j: int, k: int)
    requires
        0 <= j < k < words.len(),
        wire_items(2, words) is Some,
        compact_aget(words[j]) == compact_aget(words[k]),
        forall|m: int|
            j < m < k ==> compact_aget(#[trigger] words[m]) != compact_aget(words[k]),
    ensures
        ({
            let a = wire_items(2, words)->0[j];
            let b = wire_items(2, words)->0[k];
            &&& a.aget == b.aget
            &&& a.chan + 1 < RAW_CH_PER_AGET ==> b.chan == a.chan + 1 && b.bucket == a.bucket
            &&& a.chan + 1 == RAW_CH_PER_AGET ==> b.chan == 0 && b.bucket == a.bucket + 1
        }),
{
    let aget = compact_aget(words[k]);
    lemma_chip_count_between(words, (j + 1) as nat, k as nat, aget);
    assert(chip_rank(words, k) == chip_rank(words, j) + 1);
    let r = chip_rank(words, j);
    assert(chip_rank(words, k) / RAW_CH_PER_AGET as nat <= 511);
    assert(r / RAW_CH_PER_AGET as nat <= 511);
}

proof fn lemma_chip_count_between(words: Seq<nat>, from: nat, to: nat, aget: nat)
    requires
        from <= to <= words.len(),
        forall|m: int| from <= m < to ==> compact_aget(#[trigger] words[m]) != aget,
    ensures
        chip_count(words, to, aget) == chip_count(words, from, aget),
    decreases to - from,
{
    if from < to {
        lemma_chip_count_between(words, from, (to - 1) as nat, aget);
    }
}

/// Interleaving the chips changes nothing: a sample's channel and bucket depend on the words
/// of its own chip alone.
pub proof fn law_chips_are_independent(words: Seq<nat>, others: Seq<nat>, k: int)
    requires
        0 <= k < words.len(),
        words.len() == others.len(),
        words[k] == others[k],
        forall|m: int|
            0 <= m < k ==> (compact_aget(#[trigger] words[m]) == compact_aget(words[k]) <==>
                compact_aget(others[m]) == compact_aget(words[k])),
    ensures
        compact_item(words, k) == compact_item(others, k),
{
    lemma_same_chip_count(words, others, k as nat, compact_aget(words[k]));
}

proof fn lemma_same_chip_count(words: Seq<nat>, others: Seq<nat>, k: nat, aget: nat)
    requires
        k <= words.len(),
        words.len() == others.len(),
        forall|m: int|
            0 <= m < k ==> (compact_aget(#[trigger] words[m]) == aget <==> compact_aget(others[m])
                == aget),
    ensures
        chip_count(words, k, aget) == chip_count(others, k, aget),
    decreases k,
{
    if k > 0 {
        lemma_same_chip_count(words, others, (k - 1) as nat, aget);
    }
}

fn decode_explicit_items(data: &[u8], little: bool) -> (out: Vec<u8>)
    requires
        data@.len() % 4 == 0,
    ensures
        out@ == item_bytes(wire_items(1, wire_words(data@, 4, little))->0),
{
    let ghost words = wire_words(data@, 4, little);
    let ghost items = wire_items(1, words)->0;
    let mut out: Vec<u8> = Vec::new();
    let mut at: usize = 0;
    let ghost mut k: int = 0;
    assert(items.take(0) =~= Seq::empty());
    assert(Seq::<Item>::empty().map_values(|i: Item| i.word() as u32) =~= Seq::empty());
    while at < data.len()
        invariant
            data@.len() % 4 == 0,
            words == wire_words(data@, 4, little),
            items == wire_items(1, words)->0,
            at == 4 * k,
            0 <= k <= words.len(),
            at <= data@.len(),
            out@ == item_bytes(items.take(k)),
        decreases data@.len() - at,
    {
        assert(data@.len() == data.len());
        let w: u32 = read_u32_at(data, at, little);
        assert(words[k] == w);
        assert((w >> 30) & 0x3 == w / 0x4000_0000) by (bit_vector);
        assert((w >> 23) & 0x7F == w / 0x80_0000 % 128) by (bit_vector);
        assert((w >> 14) & 0x1FF == w / 0x4000 % 512) by (bit_vector);
        assert(w & 0xFFF == w % 4096) by (bit_vector);
        let aget: u8 = ((w >> 30) & 0x3) as u8;
        let chan: u8 = ((w >> 23) & 0x7F) as u8;
        let bucket: u16 = ((w >> 14) & 0x1FF) as u16;
        let adc: u16 = (w & 0xFFF) as u16;
        let ghost item = Item { aget, chan, bucket, adc };
        assert(item == items[k]);
        if let Ok(word) = pack_item(aget, chan, bucket, adc) {
            proof {
                lemma_item_bytes_push(items.take(k), item);
                assert(items.take(k + 1) =~= items.take(k).push(item));
            }
            push_u32_le(&mut out, word);
        }
        at = at + 4;
        proof {
            k = k + 1;
        }
    }
    assert(items.take(k) =~= items);
    out
}

fn decode_compact_items(data: &[u8], little: bool) -> (out: Option<Vec<u8>>)
    requires
        data@.len() % 2 == 0,
    ensures
        out is Some <==> wire_items(2, wire_words(data@, 2, little)) is Some,
        out matches Some(o) ==> o@ == item_bytes(wire_items(2, wire_words(data@, 2, little))->0),
{
    let ghost words = wire_words(data@, 2, little);
    let ghost items = Seq::new(words.len(), |k: int| compact_item(words, k));
    let mut out: Vec<u8> = Vec::new();
    let mut seen: [u32; 4] = [0u32; 4];
    let mut at: usize = 0;
    let ghost mut k: int = 0;
    assert(items.take(0) =~= Seq::empty());
    assert(Seq::<Item>::empty().map_values(|i: Item| i.word() as u32) =~= Seq::empty());
    while at < data.len()
        invariant
            data@.len() % 2 == 0,
            words == wire_words(data@, 2, little),
            items == Seq::new(words.len(), |k: int| compact_item(words, k)),
            at == 2 * k,
            0 <= k <= words.len(),
            at <= data@.len(),
            out@ == item_bytes(items.take(k)),
            seen@.len() == 4,
            forall|a: int|
                0 <= a < 4 ==> #[trigger] seen@[a] == chip_count(words, k as nat, a as nat)
                    && seen@[a] <= 512 * 68,
            forall|m: int|
                0 <= m < k ==> #[trigger] chip_rank(words, m) / RAW_CH_PER_AGET as nat <= 511,
        decreases data@.len() - at,
    {
        assert(data@.len() == data.len());
        let w: u16 = read_u16_at(data, at, little);
        assert(words[k] == w);
        assert((w >> 14) & 0x3 == w / 0x4000 && w / 0x4000 < 4) by (bit_vector);
        assert(w & 0xFFF == w % 4096) by (bit_vector);
        let aget: usize = ((w >> 14) & 0x3) as usize;
        let adc: u16 = w & 0xFFF;
        let rank: u32 = seen[aget];
        assert(rank == chip_rank(words, k));
        let chan: u8 = (rank % 68) as u8;
        let bucket: u16 = (rank / 68) as u16;
        let ghost item = Item { aget: aget as u8, chan, bucket, adc };
        match pack_item(aget as u8, chan, bucket, adc) {
            Err(_) => {
                assert(chip_rank(words, k) / RAW_CH_PER_AGET as nat > 511);
                return None;
            },
            Ok(word) => {
                proof {
                    assert(item == items[k]);
                    lemma_item_bytes_push(items.take(k), item);
                    assert(items.take(k + 1) =~= items.take(k).push(item));
                }
                push_u32_le(&mut out, word);
            },
        }
        seen[aget] = rank + 1;
        at = at + 2;
        proof {
            k = k + 1;
        }
    }
    assert(items.take(k) =~= items);
    assert(wire_items(2, words) == Some(items));
    Some(out)
}

// ---------------------------------------------------------------------
// Frames
// ---------------------------------------------------------------------

/// Where the samples of a data frame begin.
pub open spec fn item_start(frame: Seq<u8>) -> nat {
    field(frame, 8, 10) * framer::block_bytes(frame)
}

/// Where the samples of a data frame end.
pub open spec fn item_end(frame: Seq<u8>) -> nat {
    item_start(frame) + field(frame, 12, 16) * field(frame, 10, 12)
}

/// Bytes of one sample in a frame of type `frame_type`.
pub open spec fn item_size(frame_type: nat) -> nat {
    if frame_type == 1 {
        4
    } else {
        2
    }
}

/// Whether the header of a data frame is complete and consistent with the frame's length.
pub open spec fn header_fits(frame: Seq<u8>) -> bool {
    &&& frame.len() >= HEADER_MIN_BYTES
    &&& field(frame, 10, 12) == item_size(frame_type(frame))
    &&& item_start(frame) >= HEADER_MIN_BYTES
    &&& item_end(frame) <= frame.len()
}

/// The samples of a data frame whose header fits.
pub open spec fn frame_items(frame: Seq<u8>) -> Option<Seq<Item>> {
    wire_items(
        frame_type(frame),
        wire_words(
            frame.subrange(item_start(frame) as int, item_end(frame) as int),
            item_size(frame_type(frame)) as int,
            framer::is_little(frame),
        ),
    )
}

/// What a frame turns out to be.
pub enum Verdict {
    /// Too short, or its header contradicts its length or its samples.
    Malformed,
    /// A control frame.
    Unsupported,
    /// A data frame.
    Decoded(FragmentView),
}

/// What `frame` turns out to be.
pub open spec fn verdict(frame: Seq<u8>) -> Verdict {
    if frame.len() < MIN_FRAME_BYTES {
        Verdict::Malformed
    } else if frame_type(frame) != 1 && frame_type(frame) != 2 {
        Verdict::Unsupported
    } else if !header_fits(frame) {
        Verdict::Malformed
    } else {
        match frame_items(frame) {
            None => Verdict::Malformed,
            Some(items) => Verdict::Decoded(
                FragmentView {
                    event_idx: field(frame, 22, 26) as u32,
                    event_time: field(frame, 16, 22) as u64,
                    cobo: frame[26],
                    asad: frame[27],
                    frame_type: frame_type(frame) as u8,
                    revision: frame[7],
                    read_offset: field(frame, 28, 30) as u16,
                    status: frame[30],
                    mult: Seq::new(4, |a: int| field(frame, 67 + 2 * a, 69 + 2 * a) as u16),
                    window_out: field(frame, 75, 79) as u32,
                    last_cell: Seq::new(4, |a: int| field(frame, 79 + 2 * a, 81 + 2 * a) as u16),
                    items: item_bytes(items),
                },
            ),
        }
    }
}

/// The counts that a decoder keeps.
pub struct Counts {
    pub frames: nat,
    pub items: nat,
    pub malformed: nat,
    pub unsupported: nat,
    pub topology: nat,
}

impl Counts {
    /// The counts once `frame` is counted in.
    pub open spec fn with(self, frame: Seq<u8>) -> Counts {
        match verdict(frame) {
            Verdict::Malformed => Counts { malformed: self.malformed + 1, ..self },
            Verdict::Unsupported => Counts {
                unsupported: self.unsupported + 1,
                topology: self.topology + if frame_type(frame) == TOPOLOGY_FRAME_TYPE {
                    1nat
                } else {
                    0nat
                },
                ..self
            },
            Verdict::Decoded(f) => Counts {
                frames: self.frames + 1,
                items: self.items + f.items.len() / 4,
                ..self
            },
        }
    }

    /// Whether `frames` more frames of `bytes` bytes in all can be counted without overflow.
    pub open spec fn room_for(self, frames: nat, bytes: nat) -> bool {
        &&& self.frames + frames <= u64::MAX
        &&& self.items + bytes <= u64::MAX
        &&& self.malformed + frames <= u64::MAX
        &&& self.unsupported + frames <= u64::MAX
    }

    /// Topology frames are among the unsupported ones.
    pub open spec fn wf(self) -> bool {
        self.topology <= self.unsupported
    }

    /// How many frames have been decoded, well or badly.
    pub open spec fn seen(self) -> nat {
        self.frames + self.malformed + self.unsupported
    }
}

/// Every frame is counted exactly once, as decoded, malformed or unsupported, and topology
/// frames stay among the unsupported ones.
pub proof fn law_every_frame_is_counted_once(counts: Counts, frame: Seq<u8>)
    requires
        counts.wf(),
    ensures
        counts.with(frame).seen() == counts.seen() + 1,
        counts.with(frame).wf(),
{
}

/// A frame that decodes can also be routed to a file by its AsAd number, and the peeked
/// values are those of the fragment.
pub proof fn law_decoded_frames_are_routable(frame: Seq<u8>)
    requires
        verdict(frame) is Decoded,
    ensures
        is_routable(frame),
        verdict(frame)->Decoded_0.asad == frame[27],
        verdict(frame)->Decoded_0.event_idx == field(frame, 22, 26) as u32,
{
}

/// A fragment holds four bytes for each of its samples, and no more than twice as many bytes as
/// its frame.
pub proof fn lemma_fragment_size(frame: Seq<u8>)
    requires
        verdict(frame) is Decoded,
    ensures
        verdict(frame)->Decoded_0.items.len() == 4 * field(frame, 12, 16),
        verdict(frame)->Decoded_0.items.len() <= 2 * frame.len(),
{
    let size = item_size(frame_type(frame));
    let count = field(frame, 12, 16);
    let items = frame_items(frame)->0;
    assert(count * size / size == count) by (nonlinear_arith)
        requires
            size == 2 || size == 4,
    ;
    assert(items.len() == count);
    msg::lemma_words_bytes_len(items.map_values(|i: Item| i.word() as u32));
}

/// Decodes frames and counts what it saw.
#[derive(Debug)]
pub struct Decoder {
    frames: u64,
    items: u64,
    malformed: u64,
    unsupported: u64,
    topology: u64,
}

impl View for Decoder {
    type V = Counts;

    closed spec fn view(&self) -> Counts {
        Counts {
            frames: self.frames as nat,
            items: self.items as nat,
            malformed: self.malformed as nat,
            unsupported: self.unsupported as nat,
            topology: self.topology as nat,
        }
    }
}

impl Default for Decoder {
    fn default() -> (decoder: Self)
        ensures
            decoder@ == (Counts { frames: 0, items: 0, malformed: 0, unsupported: 0, topology: 0 }),
    {
        Decoder { frames: 0, items: 0, malformed: 0, unsupported: 0, topology: 0 }
    }
}

impl Decoder {
    /// A decoder that has seen nothing.
    pub fn new() -> (decoder: Self)
        ensures
            decoder@ == (Counts { frames: 0, items: 0, malformed: 0, unsupported: 0, topology: 0 }),
    {
        Decoder::default()
    }

    /// Decodes one frame. Gives `None` for a malformed or unsupported frame, and counts every
    /// frame. The counts must have room for it.
    pub fn decode(&mut self, frame: &[u8]) -> (fragment: Option<Fragment>)
        requires
            old(self)@.wf(),
            old(self)@.room_for(1, frame@.len()),
        ensures
            final(self)@ == old(self)@.with(frame@),
            final(self)@.wf(),
            fragment is Some <==> verdict(frame@) is Decoded,
            fragment matches Some(f) ==> f@ == verdict(frame@)->Decoded_0,
    {
        assert(frame@.len() == frame.len());
        if frame.len() < MIN_FRAME_BYTES {
            self.malformed = self.malformed + 1;
            return None;
        }
        let frame_type: u16 = read_frame_type(frame);
        if frame_type != 1 && frame_type != 2 {
            self.unsupported = self.unsupported + 1;
            if frame_type == TOPOLOGY_FRAME_TYPE {
                self.topology = self.topology + 1;
            }
            return None;
        }
        match decode_data_frame(frame, frame_type) {
            None => {
                self.malformed = self.malformed + 1;
                None
            },
            Some(fragment) => {
                proof {
                    lemma_fragment_size(frame@);
                }
                self.frames = self.frames + 1;
                self.items = self.items + fragment.items.len() as u64 / 4;
                Some(fragment)
            },
        }
    }

    /// Frames that were decoded.
    pub fn frames(&self) -> (n: u64)
        ensures
            n == self@.frames,
    {
        self.frames
    }

    /// Samples in the frames that were decoded.
    pub fn items(&self) -> (n: u64)
        ensures
            n == self@.items,
    {
        self.items
    }

    /// Frames that were too short or inconsistent.
    pub fn malformed(&self) -> (n: u64)
        ensures
            n == self@.malformed,
    {
        self.malformed
    }

    /// Control frames.
    pub fn unsupported(&self) -> (n: u64)
        ensures
            n == self@.unsupported,
    {
        self.unsupported
    }

    /// Control frames that were topology frames.
    pub fn topology(&self) -> (n: u64)
        ensures
            n == self@.topology,
    {
        self.topology
    }
}

/// Decodes a frame of type 1 or 2.
fn decode_data_frame(frame: &[u8], frame_type: u16) -> (fragment: Option<Fragment>)
    requires
        frame@.len() >= MIN_FRAME_BYTES,
        frame_type == self::frame_type(frame@),
        frame_type == 1 || frame_type == 2,
    ensures
        fragment is Some <==> verdict(frame@) is Decoded,
        fragment matches Some(f) ==> f@ == verdict(frame@)->Decoded_0,
{
    assert(frame@.len() == frame.len());
    if frame.len() < HEADER_MIN_BYTES {
        return None;
    }
    let meta_type: u8 = frame[0];
    let little: bool = is_little_endian(meta_type);
    proof {
        framer::lemma_meta_type(meta_type);
    }
    let blk_size: u64 = 1u64 << (meta_type & 0x0F);
    let header_size_blk: u16 = read_u16_at(frame, 8, little);
    let size: u16 = read_u16_at(frame, 10, little);
    let count: u32 = read_u32_at(frame, 12, little);
    proof {
        assert(header_size_blk * blk_size <= 0xFFFF * 0x8000) by (nonlinear_arith)
            requires
                header_size_blk <= 0xFFFF,
                blk_size <= 0x8000,
        ;
        assert(count * size <= 0xFFFF_FFFF * 0xFFFF) by (nonlinear_arith)
            requires
                count <= 0xFFFF_FFFF,
                size <= 0xFFFF,
        ;
    }
    let start: u64 = header_size_blk as u64 * blk_size;
    let end: u64 = start + count as u64 * size as u64;
    let expected: u16 = if frame_type == 1 {
        4
    } else {
        2
    };
    if size != expected || start < HEADER_MIN_BYTES as u64 || end > frame.len() as u64 {
        return None;
    }
    assert(header_fits(frame@));
    let data: &[u8] = &frame[start as usize..end as usize];
    assert(data@.len() % size as nat == 0) by (nonlinear_arith)
        requires
            data@.len() == count * size,
            size == 4 || size == 2,
    ;
    let items: Vec<u8> = if frame_type == 1 {
        decode_explicit_items(data, little)
    } else {
        match decode_compact_items(data, little) {
            None => {
                return None;
            },
            Some(items) => items,
        }
    };
    let event_time: u64 = read_uint(&frame[16..22], little);
    let mult: [u16; 4] = [
        read_u16_at(frame, 67, little),
        read_u16_at(frame, 69, little),
        read_u16_at(frame, 71, little),
        read_u16_at(frame, 73, little),
    ];
    let last_cell: [u16; 4] = [
        read_u16_at(frame, 79, little),
        read_u16_at(frame, 81, little),
        read_u16_at(frame, 83, little),
        read_u16_at(frame, 85, little),
    ];
    let fragment = Fragment {
        event_idx: read_u32_at(frame, 22, little),
        event_time,
        cobo: frame[26],
        asad: frame[27],
        frame_type: frame_type as u8,
        revision: frame[7],
        read_offset: read_u16_at(frame, 28, little),
        status: frame[30],
        mult,
        window_out: read_u32_at(frame, 75, little),
        last_cell,
        items,
    };
    proof {
        let want = verdict(frame@)->Decoded_0;
        assert(fragment@.mult =~= want.mult);
        assert(fragment@.last_cell =~= want.last_cell);
    }
    Some(fragment)
}

} // verus!
