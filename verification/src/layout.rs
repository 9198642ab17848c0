//! How a frame stands in bytes, and what is therefore read of it.
//!
//! A number of so many bytes stands in a frame digit by digit, in the byte order that bit 7 of the
//! frame's first byte asks for. The laws here begin with the numbers and the samples that a sender
//! puts into a frame, and say what the framer, the decoder, the writer of raw data and the replay
//! make of its bytes.

use vstd::arithmetic::power2;
use vstd::prelude::*;

use crate::bytes;
use crate::decode;
use crate::framer;
use crate::graw_writer;
use crate::graw_writer::FileKey;
use crate::msg;
use crate::msg::Item;
use crate::replay;

verus! {

/// The last `width` digits of `n` to the base 256, as they stand in a frame.
pub open spec fn number_bytes(n: nat, width: nat, little: bool) -> Seq<u8>
    decreases width,
{
    if width == 0 {
        Seq::empty()
    } else if little {
        seq![(n % 256) as u8] + number_bytes(n / 256, (width - 1) as nat, little)
    } else {
        number_bytes(n / 256, (width - 1) as nat, little).push((n % 256) as u8)
    }
}

/// Whether bytes `from` to `to` of a frame hold the number `n`.
pub open spec fn holds(frame: Seq<u8>, from: int, to: int, n: nat) -> bool {
    frame.subrange(from, to) == number_bytes(n, (to - from) as nat, frame[0] & 0x80 != 0)
}

proof fn lemma_number_bytes(n: nat, width: nat, little: bool)
    requires
        n < bytes::pow256(width),
    ensures
        number_bytes(n, width, little).len() == width,
        bytes::uint_value(number_bytes(n, width, little), little) == n,
    decreases width,
{
    if width > 0 {
        let rest = number_bytes(n / 256, (width - 1) as nat, little);
        lemma_number_bytes(n / 256, (width - 1) as nat, little);
        let all = number_bytes(n, width, little);
        if little {
            assert(all.drop_first() =~= rest);
        } else {
            assert(all.drop_last() =~= rest);
        }
    }
}

proof fn lemma_powers()
    ensures
        bytes::pow256(1) == 0x100,
        bytes::pow256(2) == 0x1_0000,
        bytes::pow256(3) == 0x100_0000,
        bytes::pow256(4) == 0x1_0000_0000,
        bytes::pow256(6) == 0x1_0000_0000_0000,
{
    reveal_with_fuel(bytes::pow256, 7);
}

/// A number that stands in a frame is what is read there.
pub proof fn law_numbers_are_read_back(frame: Seq<u8>, from: int, to: int, n: nat)
    requires
        0 <= from <= to <= frame.len(),
        0 < frame.len(),
        n < bytes::pow256((to - from) as nat),
        holds(frame, from, to, n),
    ensures
        decode::field(frame, from, to) == n,
{
    framer::lemma_meta_type(frame[0]);
    lemma_number_bytes(n, (to - from) as nat, frame[0] & 0x80 != 0);
}

proof fn lemma_four_bytes(n: u32)
    ensures
        bytes::le_bytes4(n) == number_bytes(n as nat, 4, true),
        bytes::be_bytes4(n) == number_bytes(n as nat, 4, false),
{
    reveal_with_fuel(number_bytes, 5);
    assert(n as nat / 256 / 256 == n as nat / 65536);
    assert(n as nat / 65536 / 256 == n as nat / 16777216);
    assert(bytes::le_bytes4(n) =~= number_bytes(n as nat, 4, true));
    assert(bytes::be_bytes4(n) =~= number_bytes(n as nat, 4, false));
}

/// A frame is as long as its header says: so many blocks, in bytes 1 to 3, of a size that is the
/// power of two in the low four bits of byte 0.
pub proof fn law_lengths_are_read(frame: Seq<u8>, blocks: nat)
    requires
        frame.len() >= 4,
        blocks < 0x100_0000,
        holds(frame, 1, 4, blocks),
    ensures
        framer::announced_bytes(frame) == blocks * power2::pow2((frame[0] & 0x0F) as nat),
{
    lemma_powers();
    framer::lemma_meta_type(frame[0]);
    lemma_number_bytes(blocks, 3, frame[0] & 0x80 != 0);
}

/// What a stream begins with, once eight bytes are there: a frame of the length that its header
/// says, if all of it is there; and nothing that makes sense where that is less than eight bytes or
/// more than a frame may have.
pub proof fn law_what_a_stream_begins_with(pending: Seq<u8>, blocks: nat, max: nat)
    requires
        pending.len() >= 8 ==> blocks < 0x100_0000 && holds(pending, 1, 4, blocks),
    ensures
        ({
            let n = blocks * power2::pow2((pending[0] & 0x0F) as nat);
            let f = framer::front(pending, max);
            &&& pending.len() < 8 ==> f is Incomplete
            &&& pending.len() >= 8 && (n < 8 || n > max) ==> f is Corrupt
            &&& pending.len() >= 8 && 8 <= n <= max && pending.len() < n ==> f is Incomplete
            &&& pending.len() >= 8 && 8 <= n <= max && pending.len() >= n ==> f
                == framer::Front::Frame(n)
        }),
{
    if pending.len() >= 8 {
        law_lengths_are_read(pending, blocks);
    }
}

/// A stream is handed out frame by frame. Where its next header says less than eight bytes, or more
/// than a frame may have, everything that is there is dropped, and that is counted; else what is
/// there and not yet whole stays, and nothing is counted.
pub proof fn law_streams_are_handed_out(s: framer::FramerState, blocks: nat, max: nat)
    requires
        s.pending.len() >= 8 ==> blocks < 0x100_0000 && holds(s.pending, 1, 4, blocks),
    ensures
        ({
            let n = blocks * power2::pow2((s.pending[0] & 0x0F) as nat);
            let t = s.after(framer::FramerCall::Next, max);
            let bad = s.pending.len() >= 8 && (n < 8 || n > max);
            let whole = s.pending.len() >= 8 && 8 <= n <= max && s.pending.len() >= n;
            &&& bad ==> t.pending.len() == 0 && t.resets == s.resets + 1 && s.handed_out(max) is None
            &&& whole ==> t.pending == s.pending.skip(n as int) && t.resets == s.resets
                && s.handed_out(max) == Some(s.pending.take(n as int))
            &&& !bad && !whole ==> t == s && s.handed_out(max) is None
        }),
{
    law_what_a_stream_begins_with(s.pending, blocks, max);
}

/// A file is handed out as a stream is, and more of it is read where no whole frame is there; at its
/// end, what is left of it is told, and what was dropped is not left.
pub proof fn law_files_are_handed_out(s: replay::SourceView, blocks: nat)
    requires
        s.pending.len() >= 8 ==> blocks < 0x100_0000 && holds(s.pending, 1, 4, blocks),
    ensures
        ({
            let n = blocks * power2::pow2((s.pending[0] & 0x0F) as nat);
            let max = framer::DEFAULT_MAX_FRAME_BYTES as nat;
            let t = s.polled();
            let bad = s.pending.len() >= 8 && (n < 8 || n > max);
            let whole = s.pending.len() >= 8 && 8 <= n <= max && s.pending.len() >= n;
            &&& t.eof == s.eof
            &&& bad ==> t.pending.len() == 0 && t.resets == s.resets + 1
            &&& whole ==> t.pending == s.pending.skip(n as int) && t.resets == s.resets && s.next()
                == replay::Next::Frame(s.pending.take(n as int))
            &&& !bad && !whole ==> t == s
            &&& !whole && !s.eof ==> s.next() is Read
            &&& !whole && s.eof ==> s.next() == replay::Next::End(t.pending.len())
        }),
{
    law_what_a_stream_begins_with(
        s.pending,
        blocks,
        framer::DEFAULT_MAX_FRAME_BYTES as nat,
    );
}

/// A frame describes the topology where it is of type 7 and has twelve bytes.
pub proof fn law_topology_frames_are_known(frame: Seq<u8>, kind: nat)
    requires
        frame.len() >= 12 ==> holds(frame, 5, 7, kind) && kind < 0x1_0000,
    ensures
        decode::is_topology(frame) <==> frame.len() >= 12 && kind == 7,
{
    if frame.len() >= 12 {
        lemma_powers();
        law_numbers_are_read_back(frame, 5, 7, kind);
    }
}

/// The boards that take part are counted bit by bit: a set bit adds one, and a mask without any
/// counts none.
pub proof fn law_boards_are_counted_bit_by_bit(mask: u8, n: nat)
    requires
        n < 8,
    ensures
        decode::bits_set(mask, 0) == 0,
        decode::bits_set(mask, n + 1) == decode::bits_set(mask, n) + if mask & (1u8 << (n as u8))
            != 0 {
            1nat
        } else {
            0nat
        },
{
    let b = n as u8;
    assert(b < 8 ==> (mask >> b) & 1 == if mask & (1u8 << b) != 0 {
        1u8
    } else {
        0u8
    }) by (bit_vector);
}

/// What a sender puts into the header of a data frame.
pub struct Header {
    /// The frame type.
    pub kind: u16,
    pub revision: u8,
    /// The length of the header, in blocks.
    pub blocks: u16,
    /// The bytes of one sample.
    pub item_size: u16,
    pub item_count: u32,
    /// A number of 48 bits.
    pub event_time: u64,
    pub event_idx: u32,
    pub cobo: u8,
    pub asad: u8,
    pub read_offset: u16,
    pub status: u8,
    /// A number for each of four chips.
    pub mult: Seq<u16>,
    pub window_out: u32,
    /// A number for each of four chips.
    pub last_cell: Seq<u16>,
}

impl Header {
    /// Whether this stands in a frame.
    pub open spec fn stands_in(self, frame: Seq<u8>) -> bool {
        &&& frame.len() >= 88
        &&& self.event_time < 0x1_0000_0000_0000
        &&& self.mult.len() == 4
        &&& self.last_cell.len() == 4
        &&& holds(frame, 5, 7, self.kind as nat)
        &&& frame[7] == self.revision
        &&& holds(frame, 8, 10, self.blocks as nat)
        &&& holds(frame, 10, 12, self.item_size as nat)
        &&& holds(frame, 12, 16, self.item_count as nat)
        &&& holds(frame, 16, 22, self.event_time as nat)
        &&& holds(frame, 22, 26, self.event_idx as nat)
        &&& frame[26] == self.cobo
        &&& frame[27] == self.asad
        &&& holds(frame, 28, 30, self.read_offset as nat)
        &&& frame[30] == self.status
        &&& holds(frame, 67, 69, self.mult[0] as nat)
        &&& holds(frame, 69, 71, self.mult[1] as nat)
        &&& holds(frame, 71, 73, self.mult[2] as nat)
        &&& holds(frame, 73, 75, self.mult[3] as nat)
        &&& holds(frame, 75, 79, self.window_out as nat)
        &&& holds(frame, 79, 81, self.last_cell[0] as nat)
        &&& holds(frame, 81, 83, self.last_cell[1] as nat)
        &&& holds(frame, 83, 85, self.last_cell[2] as nat)
        &&& holds(frame, 85, 87, self.last_cell[3] as nat)
    }

    /// Where the samples begin in a frame that starts with `first`.
    pub open spec fn start(self, first: u8) -> nat {
        self.blocks as nat * power2::pow2((first & 0x0F) as nat)
    }

    /// Whether the samples lie behind the header and within the frame.
    pub open spec fn has_room(self, frame: Seq<u8>) -> bool {
        88 <= self.start(frame[0]) && self.start(frame[0]) + self.item_count * self.item_size
            <= frame.len()
    }
}

proof fn lemma_fields(h: Header, frame: Seq<u8>)
    requires
        h.stands_in(frame),
    ensures
        decode::frame_type(frame) == h.kind,
        decode::field(frame, 8, 10) == h.blocks,
        decode::field(frame, 10, 12) == h.item_size,
        decode::field(frame, 12, 16) == h.item_count,
        decode::field(frame, 16, 22) == h.event_time,
        decode::field(frame, 22, 26) == h.event_idx,
        decode::field(frame, 28, 30) == h.read_offset,
        decode::field(frame, 75, 79) == h.window_out,
        forall|a: int| 0 <= a < 4 ==> #[trigger] decode::field(frame, 67 + 2 * a, 69 + 2 * a) == h.mult[a],
        forall|a: int|
            0 <= a < 4 ==> #[trigger] decode::field(frame, 79 + 2 * a, 81 + 2 * a) == h.last_cell[a],
        decode::item_start(frame) == h.start(frame[0]),
        decode::item_end(frame) == h.start(frame[0]) + h.item_count * h.item_size,
{
    lemma_powers();
    framer::lemma_meta_type(frame[0]);
    law_numbers_are_read_back(frame, 5, 7, h.kind as nat);
    law_numbers_are_read_back(frame, 8, 10, h.blocks as nat);
    law_numbers_are_read_back(frame, 10, 12, h.item_size as nat);
    law_numbers_are_read_back(frame, 12, 16, h.item_count as nat);
    law_numbers_are_read_back(frame, 16, 22, h.event_time as nat);
    law_numbers_are_read_back(frame, 22, 26, h.event_idx as nat);
    law_numbers_are_read_back(frame, 28, 30, h.read_offset as nat);
    law_numbers_are_read_back(frame, 75, 79, h.window_out as nat);
    assert forall|a: int| 0 <= a < 4 implies #[trigger] decode::field(
        frame,
        67 + 2 * a,
        69 + 2 * a,
    ) == h.mult[a] by {
        assert(a == 0 || a == 1 || a == 2 || a == 3);
        law_numbers_are_read_back(frame, 67 + 2 * a, 69 + 2 * a, h.mult[a] as nat);
    }
    assert forall|a: int| 0 <= a < 4 implies #[trigger] decode::field(
        frame,
        79 + 2 * a,
        81 + 2 * a,
    ) == h.last_cell[a] by {
        assert(a == 0 || a == 1 || a == 2 || a == 3);
        law_numbers_are_read_back(frame, 79 + 2 * a, 81 + 2 * a, h.last_cell[a] as nat);
    }
}

/// A fragment tells what the header of its frame holds, all of it: every number with all of its
/// bytes, in the byte order of the frame.
pub proof fn law_headers_are_read(h: Header, frame: Seq<u8>)
    requires
        h.stands_in(frame),
        decode::verdict(frame) is Decoded,
    ensures
        ({
            let f = decode::verdict(frame)->Decoded_0;
            &&& h.kind == 1 || h.kind == 2
            &&& f.event_idx == h.event_idx
            &&& f.event_time == h.event_time
            &&& f.cobo == h.cobo
            &&& f.asad == h.asad
            &&& f.frame_type == h.kind
            &&& f.revision == h.revision
            &&& f.read_offset == h.read_offset
            &&& f.status == h.status
            &&& f.mult == h.mult
            &&& f.window_out == h.window_out
            &&& f.last_cell == h.last_cell
        }),
{
    lemma_fields(h, frame);
    let f = decode::verdict(frame)->Decoded_0;
    assert(f.mult =~= h.mult) by {
        assert forall|a: int| 0 <= a < 4 implies f.mult[a] == h.mult[a] by {
            assert(decode::field(frame, 67 + 2 * a, 69 + 2 * a) == h.mult[a]);
        }
    }
    assert(f.last_cell =~= h.last_cell) by {
        assert forall|a: int| 0 <= a < 4 implies f.last_cell[a] == h.last_cell[a] by {
            assert(decode::field(frame, 79 + 2 * a, 81 + 2 * a) == h.last_cell[a]);
        }
    }
}

/// Which frames are decoded: of type 1 those whose samples have four bytes each and lie within the
/// frame, behind its header; of type 2 those whose samples have two bytes each, lie so, and are no
/// more for any chip than it has channels and time buckets. Every other frame of these types is
/// malformed, and a frame of any other type is not supported.
pub proof fn law_what_is_decoded(h: Header, frame: Seq<u8>)
    requires
        h.stands_in(frame),
    ensures
        h.kind != 1 && h.kind != 2 ==> decode::verdict(frame) is Unsupported,
        h.kind == 1 || h.kind == 2 ==> !(decode::verdict(frame) is Unsupported),
        h.kind == 1 ==> (decode::verdict(frame) is Decoded <==> h.item_size == 4 && h.has_room(
            frame,
        )),
        h.kind == 2 && !(h.item_size == 2 && h.has_room(frame)) ==> decode::verdict(
            frame,
        ) is Malformed,
{
    lemma_fields(h, frame);
}

/// A frame that is too short for a type is malformed, and a data frame that is too short for its
/// header is so too.
pub proof fn law_short_frames_are_malformed(frame: Seq<u8>, kind: nat)
    requires
        frame.len() >= 8 ==> holds(frame, 5, 7, kind) && kind < 0x1_0000,
    ensures
        frame.len() < 8 ==> decode::verdict(frame) is Malformed,
        8 <= frame.len() < 88 && (kind == 1 || kind == 2) ==> decode::verdict(frame) is Malformed,
        frame.len() >= 8 && kind != 1 && kind != 2 ==> decode::verdict(frame) is Unsupported,
{
    if frame.len() >= 8 {
        lemma_powers();
        law_numbers_are_read_back(frame, 5, 7, kind);
    }
}

/// The word that a sample is packed into: the chip in bits 30 and 31, the channel in bits 23 to 29,
/// the time bucket in bits 14 to 22, the value in bits 0 to 11.
pub open spec fn packed(aget: nat, chan: nat, bucket: nat, adc: nat) -> nat {
    aget * 1073741824 + chan * 8388608 + bucket * 16384 + adc
}

proof fn lemma_items(items: Seq<Item>, k: int)
    requires
        0 <= k < items.len(),
        forall|j: int| 0 <= j < items.len() ==> (#[trigger] items[j]).in_range(),
    ensures
        decode::item_bytes(items).len() == 4 * items.len(),
        decode::item_bytes(items).subrange(4 * k, 4 * k + 4) == number_bytes(
            packed(
                items[k].aget as nat,
                items[k].chan as nat,
                items[k].bucket as nat,
                items[k].adc as nat,
            ),
            4,
            true,
        ),
{
    let words = items.map_values(|i: Item| i.word() as u32);
    msg::lemma_words_bytes_at(words, k);
    msg::law_pack_round_trip(items[k]);
    lemma_four_bytes(words[k]);
}

/// Whether numbers of `width` bytes each stand in a frame one behind the other, from byte `from` on.
pub open spec fn stand_in_row(frame: Seq<u8>, from: int, width: int, numbers: Seq<nat>) -> bool {
    forall|j: int|
        0 <= j < numbers.len() ==> holds(
            frame,
            from + j * width,
            from + j * width + width,
            #[trigger] numbers[j],
        )
}

proof fn lemma_wire_words(h: Header, frame: Seq<u8>, numbers: Seq<nat>)
    requires
        h.stands_in(frame),
        h.item_size == 2 || h.item_size == 4,
        h.has_room(frame),
        numbers.len() == h.item_count,
        forall|j: int|
            0 <= j < numbers.len() ==> #[trigger] numbers[j] < bytes::pow256(h.item_size as nat),
        stand_in_row(frame, h.start(frame[0]) as int, h.item_size as int, numbers),
    ensures
        decode::wire_words(
            frame.subrange(decode::item_start(frame) as int, decode::item_end(frame) as int),
            h.item_size as int,
            framer::is_little(frame),
        ) == numbers,
{
    lemma_fields(h, frame);
    framer::lemma_meta_type(frame[0]);
    let start = h.start(frame[0]) as int;
    let w = h.item_size as int;
    let data = frame.subrange(start, decode::item_end(frame) as int);
    let words = decode::wire_words(data, w, framer::is_little(frame));
    assert(data.len() == numbers.len() * w);
    assert(data.len() / w as nat == numbers.len()) by (nonlinear_arith)
        requires
            data.len() == numbers.len() * w,
            w == 2 || w == 4,
    ;
    assert forall|j: int| 0 <= j < numbers.len() implies words[j] == #[trigger] numbers[j] by {
        assert(0 <= j * w && j * w + w <= numbers.len() * w) by (nonlinear_arith)
            requires
                0 <= j < numbers.len(),
                w == 2 || w == 4,
        ;
        assert(data.subrange(j * w, j * w + w) =~= frame.subrange(
            start + j * w,
            start + j * w + w,
        ));
        lemma_number_bytes(numbers[j], w as nat, frame[0] & 0x80 != 0);
    }
    assert(words =~= numbers);
}

proof fn lemma_full_word(i: Item, spare: nat)
    requires
        i.in_range(),
        spare < 4,
    ensures
        ({
            let n = packed(i.aget as nat, i.chan as nat, i.bucket as nat, i.adc as nat) + 4096
                * spare;
            &&& n < bytes::pow256(4)
            &&& decode::explicit_item(n) == i
        }),
{
    lemma_powers();
    let n = packed(i.aget as nat, i.chan as nat, i.bucket as nat, i.adc as nat) + 4096 * spare;
    assert(n / 0x4000_0000 == i.aget);
    assert(n / 0x80_0000 % 128 == i.chan);
    assert(n / 0x4000 % 512 == i.bucket);
    assert(n % 4096 == i.adc);
}

/// The samples of a frame of type 1 are those that the sender put into it, in order: the fragment
/// holds the word of each, least significant byte first. The two spare bits of a word are ignored.
pub proof fn law_full_samples_are_read(
    h: Header,
    frame: Seq<u8>,
    items: Seq<Item>,
    spare: Seq<nat>,
    k: int,
)
    requires
        h.stands_in(frame),
        h.kind == 1,
        h.item_size == 4,
        h.has_room(frame),
        items.len() == h.item_count,
        spare.len() == items.len(),
        forall|j: int| 0 <= j < items.len() ==> (#[trigger] items[j]).in_range() && spare[j] < 4,
        stand_in_row(
            frame,
            h.start(frame[0]) as int,
            4,
            Seq::new(
                items.len(),
                |j: int|
                    packed(
                        items[j].aget as nat,
                        items[j].chan as nat,
                        items[j].bucket as nat,
                        items[j].adc as nat,
                    ) + 4096 * spare[j],
            ),
        ),
        0 <= k < items.len(),
    ensures
        ({
            let f = decode::verdict(frame)->Decoded_0;
            &&& decode::verdict(frame) is Decoded
            &&& f.items.len() == 4 * items.len()
            &&& f.items.subrange(4 * k, 4 * k + 4) == number_bytes(
                packed(
                    items[k].aget as nat,
                    items[k].chan as nat,
                    items[k].bucket as nat,
                    items[k].adc as nat,
                ),
                4,
                true,
            )
        }),
{
    let numbers = Seq::new(
        items.len(),
        |j: int|
            packed(
                items[j].aget as nat,
                items[j].chan as nat,
                items[j].bucket as nat,
                items[j].adc as nat,
            ) + 4096 * spare[j],
    );
    assert forall|j: int| 0 <= j < items.len() implies #[trigger] numbers[j] < bytes::pow256(4)
        && decode::explicit_item(numbers[j]) == items[j] by {
        assert(items[j].in_range());
        assert(spare[j] < 4);
        lemma_full_word(items[j], spare[j]);
    }
    lemma_fields(h, frame);
    lemma_wire_words(h, frame, numbers);
    assert(decode::frame_items(frame)->0 =~= items);
    lemma_items(items, k);
}

/// The samples of one chip, in order.
pub open spec fn of_chip(samples: Seq<(nat, nat)>, chip: nat) -> Seq<(nat, nat)> {
    samples.filter(|s: (nat, nat)| s.0 == chip)
}

/// How many of the samples before sample `k` are of the same chip.
pub open spec fn earlier_of_chip(samples: Seq<(nat, nat)>, k: int) -> nat {
    of_chip(samples.take(k), samples[k].0).len()
}

proof fn lemma_chip_count(samples: Seq<(nat, nat)>, words: Seq<nat>, k: nat, aget: nat)
    requires
        words.len() == samples.len(),
        k <= words.len(),
        forall|j: int|
            0 <= j < words.len() ==> decode::compact_aget(#[trigger] words[j]) == samples[j].0,
    ensures
        decode::chip_count(words, k, aget) == of_chip(samples.take(k as int), aget).len(),
    decreases k,
{
    reveal(Seq::filter);
    if k > 0 {
        lemma_chip_count(samples, words, (k - 1) as nat, aget);
        assert(samples.take(k as int).drop_last() =~= samples.take(k - 1));
        assert(samples.take(k as int).last() == samples[k - 1]);
        assert(decode::compact_aget(words[k - 1]) == samples[k - 1].0);
    }
}

proof fn lemma_compact_word(aget: nat, spare: nat, adc: nat)
    requires
        aget < 4,
        spare < 4,
        adc < 4096,
    ensures
        ({
            let n = aget * 16384 + spare * 4096 + adc;
            &&& n < bytes::pow256(2)
            &&& decode::compact_aget(n) == aget
            &&& n % 4096 == adc
        }),
{
    lemma_powers();
}

/// The samples of a frame of type 2 are those that the sender put into it, in order. Each names
/// its chip and its value; the samples of a chip are numbered from 0, and a sample's channel and
/// time bucket are the remainder and the quotient of its number by the 68 channels of a chip. A
/// frame with more samples of a chip than 512 time buckets hold is malformed.
pub proof fn law_compact_samples_are_read(
    h: Header,
    frame: Seq<u8>,
    samples: Seq<(nat, nat)>,
    spare: Seq<nat>,
    k: int,
)
    requires
        h.stands_in(frame),
        h.kind == 2,
        h.item_size == 2,
        h.has_room(frame),
        samples.len() == h.item_count,
        spare.len() == samples.len(),
        forall|j: int|
            0 <= j < samples.len() ==> (#[trigger] samples[j]).0 < 4 && samples[j].1 < 4096
                && spare[j] < 4,
        stand_in_row(
            frame,
            h.start(frame[0]) as int,
            2,
            Seq::new(
                samples.len(),
                |j: int| samples[j].0 * 16384 + spare[j] * 4096 + samples[j].1,
            ),
        ),
        0 <= k < samples.len(),
    ensures
        earlier_of_chip(samples, k) >= 512 * 68 ==> decode::verdict(frame) is Malformed,
        (forall|j: int| 0 <= j < samples.len() ==> #[trigger] earlier_of_chip(samples, j) < 512 * 68)
            ==> {
            let f = decode::verdict(frame)->Decoded_0;
            &&& decode::verdict(frame) is Decoded
            &&& f.items.len() == 4 * samples.len()
            &&& f.items.subrange(4 * k, 4 * k + 4) == number_bytes(
                packed(
                    samples[k].0,
                    earlier_of_chip(samples, k) % 68,
                    earlier_of_chip(samples, k) / 68,
                    samples[k].1,
                ),
                4,
                true,
            )
        },
{
    let words = Seq::new(
        samples.len(),
        |j: int| samples[j].0 * 16384 + spare[j] * 4096 + samples[j].1,
    );
    assert forall|j: int| 0 <= j < samples.len() implies #[trigger] words[j] < bytes::pow256(2)
        && decode::compact_aget(words[j]) == samples[j].0 && words[j] % 4096 == samples[j].1 by {
        assert(samples[j].0 < 4 && samples[j].1 < 4096 && spare[j] < 4);
        lemma_compact_word(samples[j].0, spare[j], samples[j].1);
    }
    lemma_fields(h, frame);
    lemma_wire_words(h, frame, words);
    assert forall|j: int| 0 <= j < samples.len() implies decode::chip_rank(words, j)
        == #[trigger] earlier_of_chip(samples, j) by {
        lemma_chip_count(samples, words, j as nat, samples[j].0);
        assert(decode::compact_aget(words[j]) == samples[j].0);
    }
    assert(decode::chip_rank(words, k) == earlier_of_chip(samples, k));
    if forall|j: int| 0 <= j < samples.len() ==> #[trigger] earlier_of_chip(samples, j) < 512 * 68 {
        assert forall|j: int| 0 <= j < words.len() implies #[trigger] decode::chip_rank(words, j)
            / 68 <= 511 by {
            assert(earlier_of_chip(samples, j) < 512 * 68);
        }
        let got = Seq::new(words.len(), |j: int| decode::compact_item(words, j));
        assert(decode::frame_items(frame) == Some(got));
        assert forall|j: int| 0 <= j < got.len() implies (#[trigger] got[j]).in_range() by {
            assert(decode::compact_aget(words[j]) == samples[j].0);
            assert(earlier_of_chip(samples, j) < 512 * 68);
            assert(samples[j].0 < 4);
        }
        lemma_items(got, k);
        assert(decode::compact_aget(words[k]) == samples[k].0);
        assert(samples[k].0 < 4 && samples[k].1 < 4096);
    }
}

/// A frame goes to the file of the AsAd board in byte 27 where it is of type 1 or 2 and holds that
/// byte, and else to the file of control frames of its source.
pub proof fn law_frames_find_their_file(source: u32, frame: Seq<u8>, kind: nat)
    requires
        frame.len() >= 28 ==> holds(frame, 5, 7, kind) && kind < 0x1_0000,
    ensures
        frame.len() >= 28 && (kind == 1 || kind == 2) ==> graw_writer::key_of(source, frame)
            == FileKey::Asad(source, frame[27]) && decode::is_routable(frame),
        frame.len() < 28 || (kind != 1 && kind != 2) ==> graw_writer::key_of(source, frame)
            == FileKey::Ctrl(source) && !decode::is_routable(frame),
{
    if frame.len() >= 28 {
        lemma_powers();
        law_numbers_are_read_back(frame, 5, 7, kind);
    }
}

/// A frame that is decoded goes to the file of the AsAd board in its fragment, whatever its type
/// is, and a frame goes to a file of control frames exactly where no AsAd number is read of it.
pub proof fn law_fragments_and_files_agree(source: u32, frame: Seq<u8>)
    ensures
        decode::verdict(frame) matches decode::Verdict::Decoded(f) ==> graw_writer::key_of(
            source,
            frame,
        ) == FileKey::Asad(source, f.asad) && replay::event_of(frame) == Some(f.event_idx as nat),
        graw_writer::key_of(source, frame) == FileKey::Ctrl(source) <==> !decode::is_routable(frame),
        replay::event_of(frame) is Some <==> decode::is_routable(frame),
{
    if frame.len() >= 88 {
        lemma_powers();
        bytes::lemma_uint_value_bound(frame.subrange(22, 26), framer::is_little(frame));
    }
}

/// In a later lap a data frame is sent with the number of its event raised by one more than the
/// highest number for each lap before, in its own byte order; every other byte stands as it did.
pub proof fn law_laps_raise_the_number(frame: Seq<u8>, kind: nat, event: nat, lap: u32, max_idx: u32)
    requires
        frame.len() >= 28,
        kind == 1 || kind == 2,
        holds(frame, 5, 7, kind),
        event < 0x1_0000_0000,
        holds(frame, 22, 26, event),
    ensures
        ({
            let out = replay::lap_frame_of(frame, lap, max_idx);
            &&& out.len() == frame.len()
            &&& holds(out, 22, 26, (event + lap as nat * (max_idx as nat + 1)) % 0x1_0000_0000)
            &&& forall|i: int| 0 <= i < frame.len() && !(22 <= i < 26) ==> out[i] == frame[i]
        }),
{
    lemma_powers();
    framer::lemma_meta_type(frame[0]);
    law_numbers_are_read_back(frame, 5, 7, kind);
    law_numbers_are_read_back(frame, 22, 26, event);
    let out = replay::lap_frame_of(frame, lap, max_idx);
    if lap > 0 {
        let n = (event + lap as nat * (max_idx as nat + 1)) % 0x1_0000_0000;
        lemma_four_bytes(n as u32);
        assert(replay::lap_number(event, lap as nat, max_idx as nat) % 0x1_0000_0000 == n);
        assert(out.subrange(22, 26) =~= number_bytes(n, 4, frame[0] & 0x80 != 0));
    } else {
        assert(lap as nat * (max_idx as nat + 1) == 0) by (nonlinear_arith)
            requires
                lap == 0,
        ;
    }
}

/// A word of samples is taken apart at the bits in which its parts stand.
pub proof fn law_words_are_taken_apart(aget: u8, chan: u8, bucket: u16, adc: u16)
    requires
        aget < 4,
        chan < 128,
        bucket < 512,
        adc < 4096,
    ensures
        packed(aget as nat, chan as nat, bucket as nat, adc as nat) < 0x1_0000_0000,
        msg::unpacked(
            packed(aget as nat, chan as nat, bucket as nat, adc as nat) as u32,
        ) == (Item { aget, chan, bucket, adc }),
        (Item { aget, chan, bucket, adc }).word() == packed(
            aget as nat,
            chan as nat,
            bucket as nat,
            adc as nat,
        ),
        (Item { aget, chan, bucket, adc }).in_range(),
{
    msg::law_pack_round_trip(Item { aget, chan, bucket, adc });
}

/// The bytes of words follow one another, each word least significant byte first.
pub proof fn law_words_stand_in_bytes(words: Seq<u32>, k: int)
    requires
        0 <= k < words.len(),
    ensures
        msg::words_bytes(words).len() == 4 * words.len(),
        msg::words_bytes(words).subrange(4 * k, 4 * k + 4) == number_bytes(words[k] as nat, 4, true),
{
    msg::lemma_words_bytes_at(words, k);
    lemma_four_bytes(words[k]);
}

} // verus!
