//! The messages that travel between components, and the packed form of a sample.
//!
//! A sample is one 32-bit word: the AGET chip in bits 30 and 31, the channel in bits 23 to 29,
//! the time bucket in bits 14 to 22 and the ADC value in bits 0 to 11. A fragment carries its
//! samples as those words, four bytes each, least significant byte first.

use vstd::prelude::*;

use crate::bytes;
use crate::bytes::{push_u32_le, read_u32_at};

verus! {

/// One sample.
#[derive(Debug, Clone, Copy, PartialEq, Eq, Structural)]
pub struct Item {
    pub aget: u8,
    pub chan: u8,
    pub bucket: u16,
    pub adc: u16,
}

impl Item {
    /// Whether every field fits the bits that a packed word has for it.
    pub open spec fn in_range(self) -> bool {
        self.aget < 4 && self.chan < 128 && self.bucket < 512 && self.adc < 4096
    }

    /// The packed word of a sample.
    pub open spec fn word(self) -> int {
        self.aget * 0x4000_0000 + self.chan * 0x80_0000 + self.bucket * 0x4000 + self.adc
    }
}

/// A field of a sample is too wide for the packed word.
#[derive(Debug, Clone, Copy, PartialEq, Eq, Structural)]
pub struct ItemOutOfRange;

/// The sample that a packed word stands for.
pub open spec fn unpacked(word: u32) -> Item {
    Item {
        aget: (word / 0x4000_0000) as u8,
        chan: (word / 0x80_0000 % 128) as u8,
        bucket: (word / 0x4000 % 512) as u16,
        adc: (word % 4096) as u16,
    }
}

/// Packs a sample into a word.
pub fn pack_item(aget: u8, chan: u8, bucket: u16, adc: u16) -> (r: Result<u32, ItemOutOfRange>)
    ensures
        r is Ok <==> (Item { aget, chan, bucket, adc }).in_range(),
        r matches Ok(w) ==> w == (Item { aget, chan, bucket, adc }).word(),
{
    if aget > 3 || chan > 127 || bucket > 511 || adc > 4095 {
        return Err(ItemOutOfRange);
    }
    Ok(aget as u32 * 0x4000_0000 + chan as u32 * 0x80_0000 + bucket as u32 * 0x4000 + adc as u32)
}

/// Takes a packed word apart.
pub fn unpack_item(word: u32) -> (item: Item)
    ensures
        item == unpacked(word),
        item.in_range(),
{
    Item {
        aget: (word / 0x4000_0000) as u8,
        chan: (word / 0x80_0000 % 128) as u8,
        bucket: (word / 0x4000 % 512) as u16,
        adc: (word % 4096) as u16,
    }
}

/// Packing a sample and taking the word apart gives the sample back.
pub proof fn law_pack_round_trip(item: Item)
    requires
        item.in_range(),
    ensures
        0 <= item.word() <= u32::MAX,
        unpacked(item.word() as u32) == item,
{
    let w = item.word();
    assert(w / 0x4000_0000 == item.aget);
    assert(w / 0x80_0000 % 128 == item.chan);
    assert(w / 0x4000 % 512 == item.bucket);
    assert(w % 4096 == item.adc);
}

/// The bytes of a sequence of words.
pub open spec fn words_bytes(words: Seq<u32>) -> Seq<u8>
    decreases words.len(),
{
    if words.len() == 0 {
        Seq::empty()
    } else {
        words_bytes(words.drop_last()) + bytes::le_bytes4(words.last())
    }
}

/// The words in a sequence of bytes.
pub open spec fn bytes_words(s: Seq<u8>) -> Seq<u32> {
    Seq::new(s.len() / 4, |i: int| bytes::le_value(s.subrange(4 * i, 4 * i + 4)) as u32)
}

/// Word `i` takes the four bytes from `4 * i` on.
pub proof fn lemma_words_bytes_at(words: Seq<u32>, i: int)
    requires
        0 <= i < words.len(),
    ensures
        words_bytes(words).len() == 4 * words.len(),
        words_bytes(words).subrange(4 * i, 4 * i + 4) == bytes::le_bytes4(words[i]),
    decreases words.len(),
{
    let front = words.drop_last();
    lemma_words_bytes_len(front);
    if i == words.len() - 1 {
        assert(words_bytes(words).subrange(4 * i, 4 * i + 4) =~= bytes::le_bytes4(words[i]));
    } else {
        lemma_words_bytes_at(front, i);
        assert(words_bytes(words).subrange(4 * i, 4 * i + 4) =~= words_bytes(front).subrange(
            4 * i,
            4 * i + 4,
        ));
    }
}

/// Every word takes four bytes.
pub proof fn lemma_words_bytes_len(words: Seq<u32>)
    ensures
        words_bytes(words).len() == 4 * words.len(),
    decreases words.len(),
{
    if words.len() > 0 {
        lemma_words_bytes_len(words.drop_last());
    }
}

/// Writing words as bytes and reading them back gives the words.
pub proof fn law_words_round_trip(words: Seq<u32>)
    ensures
        bytes_words(words_bytes(words)) == words,
{
    lemma_words_bytes_len(words);
    assert forall|i: int| 0 <= i < words.len() implies bytes_words(words_bytes(words))[i]
        == words[i] by {
        lemma_words_bytes_at(words, i);
        bytes::law_u32_bytes_round_trip(words[i]);
    }
    assert(bytes_words(words_bytes(words)) =~= words);
}

/// Writes words as bytes.
pub fn items_to_bytes(words: &[u32]) -> (out: Vec<u8>)
    ensures
        out@ == words_bytes(words@),
{
    let mut out: Vec<u8> = Vec::new();
    let mut i: usize = 0;
    assert(words@.take(0) =~= Seq::empty());
    while i < words.len()
        invariant
            i <= words@.len(),
            out@ == words_bytes(words@.take(i as int)),
        decreases words@.len() - i,
    {
        assert(words@.take(i + 1).drop_last() =~= words@.take(i as int));
        push_u32_le(&mut out, words[i]);
        i = i + 1;
    }
    assert(words@.take(i as int) =~= words@);
    out
}

/// Reads bytes as words, or `None` where the last word is not complete.
pub fn items_from_bytes(data: &[u8]) -> (words: Option<Vec<u32>>)
    ensures
        words is Some <==> data@.len() % 4 == 0,
        words matches Some(w) ==> w@ == bytes_words(data@),
{
    if data.len() % 4 != 0 {
        return None;
    }
    let mut words: Vec<u32> = Vec::new();
    let mut at: usize = 0;
    while at < data.len()
        invariant
            at <= data@.len(),
            at % 4 == 0,
            data@.len() % 4 == 0,
            words@.len() == at / 4,
            forall|i: int| 0 <= i < words@.len() ==> words@[i] == #[trigger] bytes_words(data@)[i],
        decreases data@.len() - at,
    {
        assert(data@.len() == data.len());
        let word: u32 = read_u32_at(data, at, true);
        assert(4 * words@.len() == at);
        assert(bytes_words(data@)[words@.len() as int] == word);
        words.push(word);
        at = at + 4;
    }
    assert(words@ =~= bytes_words(data@));
    Some(words)
}

/// What one CoBo frame says about one event: the header fields and the samples.
#[derive(Debug, Clone)]
pub struct Fragment {
    pub event_idx: u32,
    pub event_time: u64,
    pub cobo: u8,
    pub asad: u8,
    pub frame_type: u8,
    pub revision: u8,
    pub read_offset: u16,
    pub status: u8,
    pub mult: [u16; 4],
    pub window_out: u32,
    pub last_cell: [u16; 4],
    pub items: Vec<u8>,
}

/// The value of a [`Fragment`].
pub struct FragmentView {
    pub event_idx: u32,
    pub event_time: u64,
    pub cobo: u8,
    pub asad: u8,
    pub frame_type: u8,
    pub revision: u8,
    pub read_offset: u16,
    pub status: u8,
    pub mult: Seq<u16>,
    pub window_out: u32,
    pub last_cell: Seq<u16>,
    pub items: Seq<u8>,
}

impl View for Fragment {
    type V = FragmentView;

    open spec fn view(&self) -> FragmentView {
        FragmentView {
            event_idx: self.event_idx,
            event_time: self.event_time,
            cobo: self.cobo,
            asad: self.asad,
            frame_type: self.frame_type,
            revision: self.revision,
            read_offset: self.read_offset,
            status: self.status,
            mult: self.mult@,
            window_out: self.window_out,
            last_cell: self.last_cell@,
            items: self.items@,
        }
    }
}

/// A numbered batch of raw frames from one source.
#[derive(Debug, Clone)]
pub struct Batch {
    pub source_id: u32,
    pub run_number: u32,
    pub sequence_number: u64,
    pub created_ns: u64,
    pub payload: Vec<Vec<u8>>,
}

} // verus!
