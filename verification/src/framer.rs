//! Cutting a byte stream into MFM frames.
//!
//! The first eight bytes of a frame are its primary header. Byte 0 is the meta type: bit 7
//! gives the byte order (set for little-endian), the low four bits give the block size as a
//! power of two. Bytes 1 to 3 hold the frame's size in blocks.
//!
//! A header that announces less than a header's worth of bytes, or more than the configured
//! maximum, is corrupt: everything buffered is discarded, and the loss is counted. No attempt
//! is made to find a later frame in the discarded bytes.

use vstd::arithmetic::power2;
use vstd::prelude::*;

use crate::bytes;
use crate::bytes::read_uint;

verus! {

/// Bytes in the MFM primary header.
pub const PRIMARY_HEADER_SIZE: usize = 8;

/// The frame length above which a header is taken to be corrupt, unless set otherwise.
pub const DEFAULT_MAX_FRAME_BYTES: usize = 67_108_864;

/// Whether a frame that starts with `header` is little-endian.
pub open spec fn is_little(header: Seq<u8>) -> bool {
    header[0] >= 128
}

/// Bytes in one block of a frame that starts with `header`.
pub open spec fn block_bytes(header: Seq<u8>) -> nat {
    power2::pow2((header[0] % 16) as nat)
}

/// The number of bytes that a primary header announces for its frame.
pub open spec fn announced_bytes(header: Seq<u8>) -> nat {
    bytes::uint_value(header.subrange(1, 4), is_little(header)) * block_bytes(header)
}

/// What the buffered bytes begin with.
pub enum Front {
    /// Not enough bytes to tell, or a frame whose end has not arrived.
    Incomplete,
    /// A header that announces an impossible length.
    Corrupt,
    /// A complete frame of this many bytes.
    Frame(nat),
}

/// What `pending` begins with, under a length limit of `max` bytes.
pub open spec fn front(pending: Seq<u8>, max: nat) -> Front {
    if pending.len() < PRIMARY_HEADER_SIZE {
        Front::Incomplete
    } else {
        let n = announced_bytes(pending);
        if n < PRIMARY_HEADER_SIZE || n > max {
            Front::Corrupt
        } else if pending.len() < n {
            Front::Incomplete
        } else {
            Front::Frame(n)
        }
    }
}

/// The frames at the front of `pending`, up to the first incomplete or corrupt one.
pub open spec fn cut(pending: Seq<u8>, max: nat) -> Seq<Seq<u8>>
    decreases pending.len(),
{
    match front(pending, max) {
        Front::Frame(n) => seq![pending.take(n as int)] + cut(pending.skip(n as int), max),
        _ => Seq::empty(),
    }
}

/// What is left of `pending` once the frames at its front are cut off.
pub open spec fn remainder(pending: Seq<u8>, max: nat) -> Seq<u8>
    decreases pending.len(),
{
    match front(pending, max) {
        Front::Frame(n) => remainder(pending.skip(n as int), max),
        _ => pending,
    }
}

/// Cutting loses no byte and reorders none: the frames, one after the other, followed by the
/// remainder, are the bytes that were there.
pub proof fn law_cut_conserves_bytes(pending: Seq<u8>, max: nat)
    ensures
        cut(pending, max).flatten() + remainder(pending, max) == pending,
    decreases pending.len(),
{
    match front(pending, max) {
        Front::Frame(n) => {
            let rest = pending.skip(n as int);
            law_cut_conserves_bytes(rest, max);
            let frames = seq![pending.take(n as int)] + cut(rest, max);
            assert(frames.drop_first() =~= cut(rest, max));
            assert(frames.flatten() =~= pending.take(n as int) + cut(rest, max).flatten());
            assert(frames.flatten() + remainder(rest, max) =~= pending.take(n as int) + (cut(
                rest,
                max,
            ).flatten() + remainder(rest, max)));
            assert(pending.take(n as int) + rest =~= pending);
        },
        _ => {
            assert(Seq::<Seq<u8>>::empty().flatten() =~= Seq::empty());
        },
    }
}

/// Every frame that is cut is as long as its own header announces.
pub proof fn law_cut_frames_are_as_long_as_announced(pending: Seq<u8>, max: nat, i: int)
    requires
        0 <= i < cut(pending, max).len(),
    ensures
        cut(pending, max)[i].len() == announced_bytes(cut(pending, max)[i]),
        PRIMARY_HEADER_SIZE <= cut(pending, max)[i].len() <= max,
    decreases pending.len(),
{
    match front(pending, max) {
        Front::Frame(n) => {
            let head = pending.take(n as int);
            if i == 0 {
                assert(head.subrange(1, 4) =~= pending.subrange(1, 4));
            } else {
                law_cut_frames_are_as_long_as_announced(pending.skip(n as int), max, i - 1);
            }
        },
        _ => {},
    }
}

/// Where the stream is split into chunks makes no difference: cutting the first chunk, and
/// then what remained of it with the second chunk behind it, gives the frames and the
/// remainder of both chunks taken at once. The first chunk must not end at a corrupt header,
/// because the bytes behind that header are discarded when it is seen.
pub proof fn law_chunk_boundaries_do_not_matter(first: Seq<u8>, second: Seq<u8>, max: nat)
    requires
        front(remainder(first, max), max) !is Corrupt,
    ensures
        cut(first + second, max) == cut(first, max) + cut(
            remainder(first, max) + second,
            max,
        ),
        remainder(first + second, max) == remainder(remainder(first, max) + second, max),
    decreases first.len(),
{
    match front(first, max) {
        Front::Frame(n) => {
            let both = first + second;
            assert(both.subrange(1, 4) =~= first.subrange(1, 4));
            assert(front(both, max) == Front::Frame(n));
            assert(both.take(n as int) =~= first.take(n as int));
            assert(both.skip(n as int) =~= first.skip(n as int) + second);
            law_chunk_boundaries_do_not_matter(first.skip(n as int), second, max);
            assert(cut(both, max) =~= cut(first, max) + cut(
                remainder(first, max) + second,
                max,
            ));
        },
        _ => {
            assert(cut(first, max) + cut(first + second, max) =~= cut(first + second, max));
        },
    }
}

/// What a framer holds.
pub struct FramerState {
    /// The bytes that were pushed and not yet handed out or discarded.
    pub pending: Seq<u8>,
    /// How often a corrupt header has made the framer discard its bytes.
    pub resets: nat,
}

/// What is done to a framer.
pub enum FramerCall {
    /// Bytes are pushed.
    Push(Seq<u8>),
    /// The next frame is asked for.
    Next,
}

impl FramerState {
    /// The state once `call` is done, under a length limit of `max` bytes.
    pub open spec fn after(self, call: FramerCall, max: nat) -> FramerState {
        match call {
            FramerCall::Push(data) => FramerState { pending: self.pending + data, ..self },
            FramerCall::Next => match front(self.pending, max) {
                Front::Incomplete => self,
                Front::Corrupt => FramerState { pending: Seq::empty(), resets: self.resets + 1 },
                Front::Frame(n) => FramerState { pending: self.pending.skip(n as int), ..self },
            },
        }
    }

    /// The frame that is handed out where the next one is asked for.
    pub open spec fn handed_out(self, max: nat) -> Option<Seq<u8>> {
        match front(self.pending, max) {
            Front::Frame(n) => Some(self.pending.take(n as int)),
            _ => None,
        }
    }

    /// The state of a new framer once all calls are done.
    pub open spec fn after_all(calls: Seq<FramerCall>, max: nat) -> FramerState
        decreases calls.len(),
    {
        if calls.len() == 0 {
            FramerState { pending: Seq::empty(), resets: 0 }
        } else {
            Self::after_all(calls.drop_last(), max).after(calls.last(), max)
        }
    }
}

/// All bytes that the calls push.
pub open spec fn pushed(calls: Seq<FramerCall>) -> Seq<u8>
    decreases calls.len(),
{
    if calls.len() == 0 {
        Seq::empty()
    } else {
        match calls.last() {
            FramerCall::Push(data) => pushed(calls.drop_last()) + data,
            FramerCall::Next => pushed(calls.drop_last()),
        }
    }
}

/// The frames that a new framer hands out over the calls, in order.
pub open spec fn handed(calls: Seq<FramerCall>, max: nat) -> Seq<Seq<u8>>
    decreases calls.len(),
{
    if calls.len() == 0 {
        Seq::empty()
    } else {
        let before = handed(calls.drop_last(), max);
        match calls.last() {
            FramerCall::Push(_) => before,
            FramerCall::Next => match FramerState::after_all(calls.drop_last(), max).handed_out(
                max,
            ) {
                Some(frame) => before.push(frame),
                None => before,
            },
        }
    }
}

/// Whether each of `frames` is as long as its header announces, and no longer than `max`.
pub open spec fn are_whole(frames: Seq<Seq<u8>>, max: nat) -> bool {
    forall|i: int|
        0 <= i < frames.len() ==> PRIMARY_HEADER_SIZE <= (#[trigger] frames[i]).len() <= max
            && announced_bytes(frames[i]) == frames[i].len()
}

/// What a framer makes of the beginning of a stream of whole frames: the first frame, if all of it
/// is there.
proof fn lemma_front_of_whole_frames(frames: Seq<Seq<u8>>, pending: Seq<u8>, rest: Seq<u8>, max: nat)
    requires
        are_whole(frames, max),
        pending + rest == frames.flatten(),
    ensures
        frames.len() == 0 ==> pending.len() == 0 && front(pending, max) is Incomplete,
        frames.len() > 0 && pending.len() < frames[0].len() ==> front(pending, max) is Incomplete,
        frames.len() > 0 && pending.len() >= frames[0].len() ==> {
            &&& front(pending, max) == Front::Frame(frames[0].len())
            &&& pending.take(frames[0].len() as int) == frames[0]
            &&& pending.skip(frames[0].len() as int) + rest == frames.drop_first().flatten()
        },
{
    if frames.len() == 0 {
        assert(frames.flatten() =~= Seq::empty());
        assert((pending + rest).len() == pending.len() + rest.len());
    } else {
        let f = frames[0];
        let all = pending + rest;
        let others = frames.drop_first().flatten();
        assert(all == f + others);
        if pending.len() >= PRIMARY_HEADER_SIZE {
            assert forall|i: int| 0 <= i < 4 implies pending[i] == f[i] by {
                assert(all[i] == pending[i]);
                assert((f + others)[i] == f[i]);
            }
            assert(pending.subrange(1, 4) =~= f.subrange(1, 4));
        }
        if pending.len() >= f.len() {
            assert(pending.take(f.len() as int) =~= f) by {
                assert forall|i: int| 0 <= i < f.len() implies pending[i] == f[i] by {
                    assert(all[i] == pending[i]);
                    assert((f + others)[i] == f[i]);
                }
            }
            assert(pending.skip(f.len() as int) + rest =~= others) by {
                assert forall|i: int| 0 <= i < others.len() implies (pending.skip(f.len() as int)
                    + rest)[i] == others[i] by {
                    assert(all[f.len() + i] == (f + others)[f.len() + i]);
                }
            }
        }
    }
}

/// A stream of whole frames comes out as these frames, byte for byte and in order, however it is
/// split into chunks and whenever frames are asked for; nothing is discarded. Once all of it is
/// pushed and no frame is left to hand out, all of them are out and nothing is buffered.
pub proof fn law_whole_frames_come_out(
    frames: Seq<Seq<u8>>,
    calls: Seq<FramerCall>,
    rest: Seq<u8>,
    max: nat,
)
    requires
        are_whole(frames, max),
        pushed(calls) + rest == frames.flatten(),
    ensures
        ({
            let s = FramerState::after_all(calls, max);
            let out = handed(calls, max);
            &&& out.len() <= frames.len()
            &&& out == frames.take(out.len() as int)
            &&& s.pending + rest == frames.skip(out.len() as int).flatten()
            &&& s.resets == 0
            &&& rest.len() == 0 && s.handed_out(max) is None ==> out == frames && s.pending.len()
                == 0
        }),
    decreases calls.len(),
{
    let s = FramerState::after_all(calls, max);
    let out = handed(calls, max);
    if calls.len() == 0 {
        assert(out =~= frames.take(0));
        assert(frames.skip(0) =~= frames);
        assert(pushed(calls) =~= s.pending);
    } else {
        let before = calls.drop_last();
        let t = FramerState::after_all(before, max);
        let had = handed(before, max);
        match calls.last() {
            FramerCall::Push(data) => {
                assert(pushed(before) + (data + rest) =~= pushed(calls) + rest);
                law_whole_frames_come_out(frames, before, data + rest, max);
                assert(s.pending + rest =~= t.pending + (data + rest));
            },
            FramerCall::Next => {
                law_whole_frames_come_out(frames, before, rest, max);
                let left = frames.skip(had.len() as int);
                assert(are_whole(left, max)) by {
                    assert forall|i: int| 0 <= i < left.len() implies PRIMARY_HEADER_SIZE <= (
                    #[trigger] left[i]).len() <= max && announced_bytes(left[i])
                        == left[i].len() by {
                        assert(left[i] == frames[had.len() + i]);
                    }
                }
                lemma_front_of_whole_frames(left, t.pending, rest, max);
                if left.len() > 0 && t.pending.len() >= left[0].len() {
                    assert(left[0] == frames[had.len() as int]);
                    assert(out =~= frames.take(had.len() as int + 1));
                    assert(left.drop_first() =~= frames.skip(had.len() as int + 1));
                }
            },
        }
    }
    let left = frames.skip(out.len() as int);
    if rest.len() == 0 && s.handed_out(max) is None {
        assert(s.pending + rest =~= s.pending);
        assert(are_whole(left, max)) by {
            assert forall|i: int| 0 <= i < left.len() implies PRIMARY_HEADER_SIZE <= (
            #[trigger] left[i]).len() <= max && announced_bytes(left[i]) == left[i].len() by {
                assert(left[i] == frames[out.len() + i]);
            }
        }
        lemma_front_of_whole_frames(left, s.pending, rest, max);
        if left.len() > 0 {
            assert(left.flatten() == left[0] + left.drop_first().flatten());
            assert(s.pending.len() >= left[0].len());
        }
        assert(frames.take(out.len() as int) =~= frames);
    }
}

/// Collects bytes and hands out complete frames.
#[derive(Debug)]
pub struct Framer {
    buf: Vec<u8>,
    head: usize,
    max_frame_bytes: usize,
    reset_count: u64,
}

impl Framer {
    /// The consumed prefix lies within the buffer.
    pub closed spec fn wf(&self) -> bool {
        self.head <= self.buf@.len()
    }

    /// The bytes that were pushed and not yet handed out or discarded.
    pub closed spec fn pending(&self) -> Seq<u8> {
        self.buf@.skip(self.head as int)
    }

    /// The length limit.
    pub closed spec fn max(&self) -> nat {
        self.max_frame_bytes as nat
    }

    /// How often a corrupt header has made the framer discard its bytes.
    pub closed spec fn resets(&self) -> nat {
        self.reset_count as nat
    }

    /// What is held.
    pub open spec fn state(&self) -> FramerState {
        FramerState { pending: self.pending(), resets: self.resets() }
    }

    /// A framer with the default length limit.
    pub fn new() -> (framer: Self)
        ensures
            framer.wf(),
            framer.pending() == Seq::<u8>::empty(),
            framer.max() == DEFAULT_MAX_FRAME_BYTES,
            framer.resets() == 0,
    {
        Self::with_max_frame_bytes(DEFAULT_MAX_FRAME_BYTES)
    }

    /// A framer with the given length limit.
    pub fn with_max_frame_bytes(max_frame_bytes: usize) -> (framer: Self)
        ensures
            framer.wf(),
            framer.pending() == Seq::<u8>::empty(),
            framer.max() == max_frame_bytes,
            framer.resets() == 0,
    {
        let framer = Framer { buf: Vec::new(), head: 0, max_frame_bytes, reset_count: 0 };
        assert(framer.pending() =~= Seq::<u8>::empty());
        framer
    }

    /// Appends received bytes.
    pub fn push(&mut self, data: &[u8])
        requires
            old(self).wf(),
        ensures
            final(self).wf(),
            final(self).state() == old(self).state().after(
                FramerCall::Push(data@),
                old(self).max(),
            ),
            final(self).max() == old(self).max(),
    {
        if data.is_empty() {
            assert(self.pending() + data@ =~= self.pending());
            return ;
        }
        self.compact();
        self.buf.extend_from_slice(data);
        assert(self.pending() =~= old(self).pending() + data@);
    }

    /// Hands out the frame at the front, if a complete one is there.
    ///
    /// A corrupt header discards everything buffered, is counted, and gives `None`. The count
    /// must have room for it.
    pub fn next(&mut self) -> (frame: Option<&[u8]>)
        requires
            old(self).wf(),
            old(self).resets() < u64::MAX,
        ensures
            final(self).wf(),
            final(self).max() == old(self).max(),
            final(self).state() == old(self).state().after(FramerCall::Next, old(self).max()),
            match old(self).state().handed_out(old(self).max()) {
                Some(f) => frame matches Some(g) && g@ == f,
                None => frame is None,
            },
    {
        let avail: usize = self.buf.len() - self.head;
        if avail < PRIMARY_HEADER_SIZE {
            return None;
        }
        let header = &self.buf[self.head..self.head + PRIMARY_HEADER_SIZE];
        proof {
            assert(header@.subrange(1, 4) =~= self.pending().subrange(1, 4));
        }
        let announced: Option<u64> = parse_frame_size(header);
        let frame_bytes: usize = match announced {
            Some(n) if n <= self.max_frame_bytes as u64 => n as usize,
            _ => {
                self.reset_count = self.reset_count + 1;
                self.reset();
                return None;
            },
        };
        if avail < frame_bytes {
            return None;
        }
        let start: usize = self.head;
        self.head = self.head + frame_bytes;
        assert(self.pending() =~= old(self).pending().skip(frame_bytes as int));
        let frame = &self.buf[start..start + frame_bytes];
        assert(frame@ =~= old(self).pending().take(frame_bytes as int));
        Some(frame)
    }

    /// Discards everything buffered. Counts nothing.
    pub fn reset(&mut self)
        ensures
            final(self).wf(),
            final(self).pending() == Seq::<u8>::empty(),
            final(self).max() == old(self).max(),
            final(self).resets() == old(self).resets(),
    {
        self.buf.clear();
        self.head = 0;
        assert(self.pending() =~= Seq::<u8>::empty());
    }

    /// The number of bytes not yet handed out.
    pub fn buffered(&self) -> (n: usize)
        requires
            self.wf(),
        ensures
            n == self.pending().len(),
    {
        self.buf.len() - self.head
    }

    /// How often a corrupt header has made the framer discard its bytes.
    pub fn reset_count(&self) -> (n: u64)
        ensures
            n == self.resets(),
    {
        self.reset_count
    }

    /// Drops the consumed prefix of the buffer.
    fn compact(&mut self)
        requires
            old(self).wf(),
        ensures
            final(self).head == 0,
            final(self).buf@ == old(self).pending(),
            final(self).max_frame_bytes == old(self).max_frame_bytes,
            final(self).reset_count == old(self).reset_count,
    {
        if self.head == 0 {
            assert(self.buf@ =~= self.pending());
            return ;
        }
        if self.head == self.buf.len() {
            self.buf.clear();
        } else {
            let rest: Vec<u8> = self.buf.split_off(self.head);
            self.buf = rest;
        }
        self.head = 0;
        assert(self.buf@ =~= old(self).pending());
    }
}

impl Default for Framer {
    fn default() -> (framer: Self)
        ensures
            framer.wf(),
            framer.pending() == Seq::<u8>::empty(),
            framer.max() == DEFAULT_MAX_FRAME_BYTES,
            framer.resets() == 0,
    {
        Self::new()
    }
}

/// The frame length that a primary header announces, or `None` where it is shorter than the
/// header itself.
pub fn parse_frame_size(header: &[u8]) -> (n: Option<u64>)
    requires
        header@.len() >= PRIMARY_HEADER_SIZE,
    ensures
        n == if announced_bytes(header@) < PRIMARY_HEADER_SIZE {
            None::<u64>
        } else {
            Some(announced_bytes(header@) as u64)
        },
        announced_bytes(header@) <= 0xFF_FFFF * 0x8000,
{
    let meta_type: u8 = header[0];
    let little: bool = meta_type & 0x80 != 0;
    let blk_log2: u8 = meta_type & 0x0F;
    proof {
        lemma_meta_type(meta_type);
    }
    let blk_size: u64 = 1u64 << blk_log2;
    let frame_blk: u64 = read_uint(&header[1..4], little);
    proof {
        assert(bytes::pow256(3) == 0x100_0000) by {
            reveal_with_fuel(bytes::pow256, 4);
        }
        assert(0 <= frame_blk * blk_size <= 0xFF_FFFF * 0x8000) by (nonlinear_arith)
            requires
                0 <= frame_blk <= 0xFF_FFFF,
                1 <= blk_size <= 0x8000,
        ;
    }
    let frame_bytes: u64 = frame_blk * blk_size;
    if frame_bytes < PRIMARY_HEADER_SIZE as u64 {
        None
    } else {
        Some(frame_bytes)
    }
}

/// What the meta type's bits say: the top bit is the byte order, and the low four bits are the
/// logarithm of the block size.
pub proof fn lemma_meta_type(meta_type: u8)
    ensures
        (meta_type & 0x80 != 0) == (meta_type >= 128),
        meta_type & 0x0F == meta_type % 16,
        1u64 << (meta_type & 0x0F) == power2::pow2((meta_type % 16) as nat),
        1 <= power2::pow2((meta_type % 16) as nat) <= 0x8000,
{
    assert((meta_type & 0x80 != 0) == (meta_type >= 128)) by (bit_vector);
    assert(meta_type & 0x0F == meta_type % 16) by (bit_vector);
    let k = (meta_type & 0x0F) as u64;
    power2::lemma2_to64();
    assert(k < 16);
    assert(power2::pow2(k as nat) <= power2::pow2(15)) by {
        if k < 15 {
            power2::lemma_pow2_strictly_increases(k as nat, 15);
        }
    }
    power2::lemma_pow2_pos(k as nat);
    vstd::bits::lemma_u64_shl_is_mul(1, k);
}

} // verus!
