//! Listening to a web socket: the answer to the handshake, and the messages behind it.

use vstd::prelude::*;

use crate::bytes;
use crate::bytes::read_uint;
use crate::text;
use crate::text::{chars_of, split_lines};

verus! {

/// The end of the header of an answer of a web server.
pub open spec fn header_end() -> Seq<u8> {
    seq![13u8, 10u8, 13u8, 10u8]
}

/// The most bytes that the answer to a handshake may have.
pub const MAX_HANDSHAKE_BYTES: usize = 8192;

/// How far the answer to a handshake is read.
#[derive(Debug, Clone, Copy, PartialEq, Eq, Structural)]
pub enum Handshake {
    /// There is more to read.
    More,
    /// It has more bytes than it may have.
    TooLong,
    /// It is complete.
    Complete,
}

/// Decides how far the answer to a handshake is read, after each byte of it.
pub fn handshake(header: &Vec<u8>) -> (r: Handshake)
    ensures
        r == if header@.len() > MAX_HANDSHAKE_BYTES {
            Handshake::TooLong
        } else if header@.len() >= 4 && header@.skip(header@.len() - 4) == header_end() {
            Handshake::Complete
        } else {
            Handshake::More
        },
{
    let n: usize = header.len();
    if n > MAX_HANDSHAKE_BYTES {
        return Handshake::TooLong;
    }
    if n < 4 {
        return Handshake::More;
    }
    let ghost tail = header@.skip(header@.len() - 4);
    if header[n - 4] == 13 && header[n - 3] == 10 && header[n - 2] == 13 && header[n - 1] == 10 {
        assert(tail =~= header_end());
        Handshake::Complete
    } else {
        assert(tail[0] == header@[n - 4] && tail[1] == header@[n - 3] && tail[2] == header@[n - 2]
            && tail[3] == header@[n - 1]);
        Handshake::More
    }
}

/// Decides whether a handshake was accepted, and says what was answered if it was not.
pub fn check_upgrade(answer: &str) -> (r: Result<(), String>)
    ensures
        if text::begins(answer@, "HTTP/1.1 101"@) {
            r is Ok
        } else {
            r matches Err(s) && s@ == "WS upgrade refused: "@ + if text::lines(answer@).len() > 0 {
                text::lines(answer@)[0]
            } else {
                Seq::empty()
            }
        },
{
    let chars: Vec<char> = chars_of(answer);
    if text::starts_with(chars.as_slice(), "HTTP/1.1 101") {
        return Ok(());
    }
    let lines: Vec<Vec<char>> = split_lines(chars.as_slice());
    let mut s: String = "WS upgrade refused: ".to_string();
    if lines.len() > 0 {
        s.append(text::string_of(lines[0].as_slice()).as_str());
    } else {
        assert(s@ + Seq::empty() =~= s@);
    }
    Err(s)
}

/// How many bytes the length of a message takes behind the first two.
pub open spec fn length_bytes(second: u8) -> int {
    if second % 128 == 126 {
        2
    } else if second % 128 == 127 {
        8
    } else {
        0
    }
}

/// Where the content of a message begins: behind its length, and behind its mask if it has one.
pub open spec fn content_start(second: u8) -> int {
    2 + length_bytes(second) + if second >= 128 {
        4int
    } else {
        0
    }
}

/// How long the content of a message is.
pub open spec fn content_length(data: Seq<u8>) -> nat {
    let n = length_bytes(data[1]);
    if n == 0 {
        (data[1] % 128) as nat
    } else {
        bytes::be_value(data.subrange(2, 2 + n))
    }
}

/// The first message in `data`, if all of it is there: what kind it is, its content as it was sent,
/// and where it ends.
pub open spec fn reading(data: Seq<u8>) -> Option<(u8, Seq<u8>, int)> {
    if data.len() < 2 || data.len() < 2 + length_bytes(data[1]) {
        None
    } else {
        let from = content_start(data[1]);
        let to = from + content_length(data);
        if data.len() < to {
            None
        } else {
            Some((data[0] % 16, data.subrange(from, to), to))
        }
    }
}

/// What there is to do about the bytes that have come.
#[derive(Debug, Clone, Copy, PartialEq, Eq, Structural)]
pub enum WsStep {
    /// Wait for more: the first message is not complete.
    More,
    /// Take a message: its kind, where its content begins, and where it ends.
    Message { opcode: u8, from: usize, to: usize },
}

/// Finds the first message in the bytes that have come.
pub fn next_message(data: &[u8]) -> (step: WsStep)
    ensures
        match reading(data@) {
            None => step == WsStep::More,
            Some((kind, content, end)) => step matches WsStep::Message { opcode, from, to }
                && opcode == kind && from <= to <= data@.len() && data@.subrange(
                from as int,
                to as int,
            ) == content && to == end,
        },
{
    assert(data@.len() == data.len());
    if data.len() < 2 {
        return WsStep::More;
    }
    let short: u8 = data[1] % 128;
    let n: usize = if short == 126 {
        2
    } else if short == 127 {
        8
    } else {
        0
    };
    if data.len() < 2 + n {
        return WsStep::More;
    }
    let length: u64 = if n == 0 {
        short as u64
    } else {
        read_uint(&data[2..2 + n], false)
    };
    assert(length == content_length(data@));
    let from: usize = if data[1] >= 128 {
        6 + n
    } else {
        2 + n
    };
    if data.len() < from || ((data.len() - from) as u64) < length {
        return WsStep::More;
    }
    WsStep::Message { opcode: data[0] % 16, from, to: from + length as usize }
}

/// `n` in `k` bytes, most significant first.
pub open spec fn be_bytes(n: nat, k: nat) -> Seq<u8>
    decreases k,
{
    if k == 0 {
        Seq::empty()
    } else {
        be_bytes(n / 256, (k - 1) as nat).push((n % 256) as u8)
    }
}

proof fn lemma_be_bytes(n: nat, k: nat)
    requires
        n < bytes::pow256(k),
    ensures
        be_bytes(n, k).len() == k,
        bytes::be_value(be_bytes(n, k)) == n,
    decreases k,
{
    if k > 0 {
        assert(n / 256 < bytes::pow256((k - 1) as nat));
        lemma_be_bytes(n / 256, (k - 1) as nat);
        let s = be_bytes(n, k);
        assert(s.drop_last() =~= be_bytes(n / 256, (k - 1) as nat));
    }
}

/// A message as a server sends it: without a mask, and with its length in as few bytes as can be.
pub open spec fn framed(opcode: u8, content: Seq<u8>) -> Seq<u8> {
    let n = content.len();
    seq![(128 + opcode) as u8] + if n < 126 {
        seq![n as u8]
    } else if n < 0x1_0000 {
        seq![126u8] + be_bytes(n, 2)
    } else {
        seq![127u8] + be_bytes(n, 8)
    } + content
}

/// A message that a server sends is found again, whole, whatever follows it.
pub proof fn law_framed_messages_are_read_back(opcode: u8, content: Seq<u8>, rest: Seq<u8>)
    requires
        opcode < 16,
        content.len() <= u64::MAX,
    ensures
        reading(framed(opcode, content) + rest) == Some(
            (opcode, content, framed(opcode, content).len() as int),
        ),
{
    let n = content.len();
    let data = framed(opcode, content) + rest;
    reveal_with_fuel(bytes::pow256, 9);
    assert((128 + opcode) as u8 % 16 == opcode);
    assert(data[0] == (128 + opcode) as u8);
    if n < 126 {
        assert(data[1] == n as u8);
        assert(data.subrange(2, 2 + n as int) =~= content);
    } else if n < 0x1_0000 {
        lemma_be_bytes(n, 2);
        assert(data[1] == 126u8);
        assert(data.subrange(2, 4) =~= be_bytes(n, 2));
        assert(data.subrange(4, 4 + n as int) =~= content);
    } else {
        lemma_be_bytes(n, 8);
        assert(data[1] == 127u8);
        assert(data.subrange(2, 10) =~= be_bytes(n, 8));
        assert(data.subrange(10, 10 + n as int) =~= content);
    }
}

/// A mask, four bytes between the length and the content of a message, is passed over: the content is
/// that of the message without it.
pub proof fn law_masks_are_passed_over(data: Seq<u8>, mask: Seq<u8>)
    requires
        reading(data) is Some,
        data[1] < 128,
        mask.len() == 4,
    ensures
        ({
            let (opcode, content, end) = reading(data)->0;
            let k: int = if data[1] == 126 {
                4
            } else if data[1] == 127 {
                10
            } else {
                2
            };
            let masked = data.take(k).update(1, (data[1] + 128) as u8) + mask + data.skip(k);
            reading(masked) == Some((opcode, content, end + 4))
        }),
{
    let (opcode, content, end) = reading(data)->0;
    let k: int = 2 + length_bytes(data[1]);
    let masked = data.take(k).update(1, (data[1] + 128) as u8) + mask + data.skip(k);
    assert(masked[0] == data[0]);
    assert(masked[1] == data[1] + 128);
    assert(masked.subrange(2, k) =~= data.subrange(2, k));
    assert(masked.subrange(k + 4, end + 4) =~= data.subrange(k, end));
}

/// What a message is for.
#[derive(Debug, Clone, Copy, PartialEq, Eq, Structural)]
pub enum WsKind {
    Text,
    Binary,
    /// The connection is to be closed.
    Close,
    Other,
}

/// What a message of this kind number is for.
pub fn ws_kind(opcode: u8) -> (kind: WsKind)
    ensures
        kind == match opcode {
            1u8 => WsKind::Text,
            2u8 => WsKind::Binary,
            8u8 => WsKind::Close,
            _ => WsKind::Other,
        },
{
    match opcode {
        1 => WsKind::Text,
        2 => WsKind::Binary,
        8 => WsKind::Close,
        _ => WsKind::Other,
    }
}

} // verus!
