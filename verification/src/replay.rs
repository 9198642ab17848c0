//! Replaying recorded frames: from one file as it stands, or from several, in the order in which
//! the electronics would have sent their frames; once, or lap after lap.
//!
//! Several files are merged by the number of the event: of the frames that are next in each file
//! the one with the lowest number goes first, and among equal ones that of the first file. A
//! control frame goes before any other.
//!
//! From the second lap on, the numbers of the events are shifted so that no number comes twice.

use vstd::prelude::*;

use crate::bytes;
use crate::decode;
use crate::decode::peek_event_idx;
use crate::framer;
use crate::framer::Framer;
use crate::text;
use crate::text::{chars_of, is_decimal_fraction, parse_unsigned, push_decimal, same, starts_with};

verus! {

/// How to use the program.
pub const USAGE: &'static str = "usage: graw_replay <host:port> <file.graw>... [--rate-mbps <f64>] [--loop] [--chunk-bytes <n=65536>] [--laps <n>] [--laps-until-s <f64>]\n(複数ファイル = eventIdx 昇順インターリーブ送出。AsAd 昇順で渡すこと。\n--laps/--laps-until-s は eventIdx を周回ごとに +lap*(max_idx+1) して送り直す lap モード。--loop とは併用不可)";

/// How many bytes are read at a time, unless set otherwise.
pub const DEFAULT_CHUNK_BYTES: usize = 65536;

// ---------------------------------------------------------------------
// Arguments
// ---------------------------------------------------------------------

/// What the program is asked to do.
#[derive(Debug, Clone, PartialEq)]
pub struct Args {
    pub endpoint: String,
    /// One file is sent as it stands, several are merged.
    pub files: Vec<String>,
    /// The rate, as it is written.
    pub rate_mbps: Option<String>,
    pub loop_replay: bool,
    pub chunk_bytes: usize,
    /// After how many laps to stop.
    pub laps: Option<u32>,
    /// After how many seconds to finish the lap and stop, as it is written.
    pub laps_until_s: Option<String>,
}

/// The value of an [`Args`].
pub struct ArgsView {
    pub endpoint: Seq<char>,
    pub files: Seq<Seq<char>>,
    pub rate_mbps: Option<Seq<char>>,
    pub loop_replay: bool,
    pub chunk_bytes: nat,
    pub laps: Option<u32>,
    pub laps_until_s: Option<Seq<char>>,
}

/// A text, if there is one.
pub open spec fn text_of(s: Option<String>) -> Option<Seq<char>> {
    match s {
        Some(s) => Some(s@),
        None => None,
    }
}

impl View for Args {
    type V = ArgsView;

    open spec fn view(&self) -> ArgsView {
        ArgsView {
            endpoint: self.endpoint@,
            files: text::values(self.files@),
            rate_mbps: text_of(self.rate_mbps),
            loop_replay: self.loop_replay,
            chunk_bytes: self.chunk_bytes as nat,
            laps: self.laps,
            laps_until_s: text_of(self.laps_until_s),
        }
    }
}

/// What is known of the arguments so far.
pub struct Scan {
    pub positional: Seq<Seq<char>>,
    pub rate: Option<Seq<char>>,
    pub looped: bool,
    pub chunk: nat,
    pub laps: Option<u32>,
    pub until: Option<Seq<char>>,
}

impl Scan {
    /// What is known before any argument is read.
    pub open spec fn nothing() -> Scan {
        Scan {
            positional: Seq::empty(),
            rate: None,
            looped: false,
            chunk: DEFAULT_CHUNK_BYTES as nat,
            laps: None,
            until: None,
        }
    }
}

/// Whether an argument is an option with a value.
pub open spec fn takes_value(arg: Seq<char>) -> bool {
    ||| arg == "--rate-mbps"@
    ||| arg == "--chunk-bytes"@
    ||| arg == "--laps"@
    ||| arg == "--laps-until-s"@
}

/// Why a value that should be a positive number is not accepted, if it is not. `positive` says
/// whether it is finite and greater than zero.
pub open spec fn fraction_problem(option: Seq<char>, value: Seq<char>, positive: bool) -> Option<
    Seq<char>,
> {
    if !text::is_fraction(value) {
        Some(option + " value is not a number: "@ + value)
    } else if !positive {
        Some(option + " must be a positive finite number, got "@ + value)
    } else {
        None
    }
}

/// Why a value that should be a positive whole number is not accepted, if it is not.
pub open spec fn integer_problem(option: Seq<char>, value: Seq<char>, max: nat) -> Option<Seq<char>> {
    match text::unsigned_upto(value, max) {
        None => Some(option + " value is not an integer: "@ + value),
        Some(n) => if n == 0 {
            Some(option + " must be greater than 0"@)
        } else {
            None
        },
    }
}

/// What is known once an option with its value is read, or why it is not accepted.
pub open spec fn with_option(s: Scan, option: Seq<char>, value: Seq<char>, positive: bool) -> Result<
    Scan,
    Seq<char>,
> {
    if option == "--rate-mbps"@ {
        match fraction_problem(option, value, positive) {
            Some(e) => Err(e),
            None => Ok(Scan { rate: Some(value), ..s }),
        }
    } else if option == "--chunk-bytes"@ {
        match integer_problem(option, value, usize::MAX as nat) {
            Some(e) => Err(e),
            None => Ok(Scan { chunk: text::unsigned(value)->0, ..s }),
        }
    } else if option == "--laps"@ {
        match integer_problem(option, value, u32::MAX as nat) {
            Some(e) => Err(e),
            None => Ok(Scan { laps: Some(text::unsigned(value)->0 as u32), ..s }),
        }
    } else {
        match fraction_problem(option, value, positive) {
            Some(e) => Err(e),
            None => Ok(Scan { until: Some(value), ..s }),
        }
    }
}

/// What is known once all arguments from `i` on are read, or why one is not accepted.
pub open spec fn scan(raw: Seq<Seq<char>>, positive: Seq<bool>, i: int, s: Scan) -> Result<
    Scan,
    Seq<char>,
>
    decreases raw.len() - i,
{
    if i >= raw.len() {
        Ok(s)
    } else if takes_value(raw[i]) {
        if i + 1 >= raw.len() {
            Err(raw[i] + " requires a value"@)
        } else {
            match with_option(s, raw[i], raw[i + 1], positive[i + 1]) {
                Err(e) => Err(e),
                Ok(t) => scan(raw, positive, i + 2, t),
            }
        }
    } else if raw[i] == "--loop"@ {
        scan(raw, positive, i + 1, Scan { looped: true, ..s })
    } else if text::begins(raw[i], "--"@) {
        Err("unknown option: "@ + raw[i])
    } else {
        scan(raw, positive, i + 1, Scan { positional: s.positional.push(raw[i]), ..s })
    }
}

/// What the arguments ask for, or why they are not accepted. `positive` says of each argument
/// whether it is a finite number greater than zero.
pub open spec fn parsed(raw: Seq<Seq<char>>, positive: Seq<bool>) -> Result<ArgsView, Seq<char>> {
    match scan(raw, positive, 0, Scan::nothing()) {
        Err(e) => Err(e),
        Ok(s) => if s.positional.len() < 2 {
            Err(
                "expected at least 2 positional arguments (host:port, file.graw...), got "@
                    + text::decimal(s.positional.len()),
            )
        } else if s.looped && (s.laps is Some || s.until is Some) {
            Err(
                "--loop cannot be combined with --laps/--laps-until-s (conflicting semantics)"@,
            )
        } else {
            Ok(
                ArgsView {
                    endpoint: s.positional[0],
                    files: s.positional.skip(1),
                    rate_mbps: s.rate,
                    loop_replay: s.looped,
                    chunk_bytes: s.chunk,
                    laps: s.laps,
                    laps_until_s: s.until,
                },
            )
        },
    }
}

struct Found {
    positional: Vec<String>,
    rate: Option<String>,
    looped: bool,
    chunk: usize,
    laps: Option<u32>,
    until: Option<String>,
}

impl View for Found {
    type V = Scan;

    closed spec fn view(&self) -> Scan {
        Scan {
            positional: text::values(self.positional@),
            rate: text_of(self.rate),
            looped: self.looped,
            chunk: self.chunk as nat,
            laps: self.laps,
            until: text_of(self.until),
        }
    }
}

fn message(option: &str, what: &str, value: &str) -> (s: String)
    ensures
        s@ == option@ + what@ + value@,
{
    let mut s: String = option.to_string();
    s.append(what);
    s.append(value);
    s
}

pub(crate) fn check_fraction(option: &str, value: &str, positive: bool) -> (r: Result<(), String>)
    ensures
        match fraction_problem(option@, value@, positive) {
            Some(e) => r matches Err(s) && s@ == e,
            None => r is Ok,
        },
{
    let chars: Vec<char> = chars_of(value);
    if !is_decimal_fraction(chars.as_slice()) {
        Err(message(option, " value is not a number: ", value))
    } else if !positive {
        Err(message(option, " must be a positive finite number, got ", value))
    } else {
        Ok(())
    }
}

pub(crate) fn check_integer(option: &str, value: &str, max: u64) -> (r: Result<u64, String>)
    ensures
        match integer_problem(option@, value@, max as nat) {
            Some(e) => r matches Err(s) && s@ == e,
            None => r matches Ok(n) && n <= max && text::unsigned(value@) == Some(n as nat),
        },
{
    let chars: Vec<char> = chars_of(value);
    match parse_unsigned(chars.as_slice(), max) {
        None => Err(message(option, " value is not an integer: ", value)),
        Some(n) => if n == 0 {
            let mut s: String = option.to_string();
            s.append(" must be greater than 0");
            Err(s)
        } else {
            Ok(n)
        },
    }
}

fn has_value(arg: &str) -> (r: bool)
    ensures
        r == takes_value(arg@),
{
    same(arg, "--rate-mbps") || same(arg, "--chunk-bytes") || same(arg, "--laps") || same(
        arg,
        "--laps-until-s",
    )
}

impl Found {
    fn option(&mut self, option: &str, value: &String, positive: bool) -> (r: Result<(), String>)
        requires
            takes_value(option@),
        ensures
            match with_option(old(self)@, option@, value@, positive) {
                Err(e) => r matches Err(s) && s@ == e,
                Ok(s) => r is Ok && final(self)@ == s,
            },
    {
        if same(option, "--rate-mbps") {
            if let Err(e) = check_fraction(option, value.as_str(), positive) {
                return Err(e);
            }
            self.rate = Some(value.clone());
        } else if same(option, "--chunk-bytes") {
            match check_integer(option, value.as_str(), usize::MAX as u64) {
                Err(e) => {
                    return Err(e);
                },
                Ok(n) => {
                    self.chunk = n as usize;
                },
            }
        } else if same(option, "--laps") {
            match check_integer(option, value.as_str(), 0xFFFF_FFFF) {
                Err(e) => {
                    return Err(e);
                },
                Ok(n) => {
                    self.laps = Some(n as u32);
                },
            }
        } else {
            if let Err(e) = check_fraction(option, value.as_str(), positive) {
                return Err(e);
            }
            self.until = Some(value.clone());
        }
        Ok(())
    }
}

fn find_all(raw: &Vec<String>, positive: &Vec<bool>) -> (r: Result<Found, String>)
    requires
        positive@.len() == raw@.len(),
    ensures
        match scan(text::values(raw@), positive@, 0, Scan::nothing()) {
            Err(e) => r matches Err(s) && s@ == e,
            Ok(s) => r matches Ok(f) && f@ == s,
        },
{
    let ghost all = text::values(raw@);
    let mut found = Found {
        positional: Vec::new(),
        rate: None,
        looped: false,
        chunk: DEFAULT_CHUNK_BYTES,
        laps: None,
        until: None,
    };
    assert(found@.positional =~= Seq::empty());
    let mut i: usize = 0;
    while i < raw.len()
        invariant
            i <= raw@.len() == positive@.len(),
            all == text::values(raw@),
            scan(all, positive@, i as int, found@) == scan(all, positive@, 0, Scan::nothing()),
        decreases raw@.len() - i,
    {
        let n: usize = raw.len();
        let arg = raw[i].as_str();
        assert(all[i as int] == arg@);
        if has_value(arg) {
            if i + 1 >= n {
                let mut e: String = arg.to_string();
                e.append(" requires a value");
                return Err(e);
            }
            assert(all[i + 1] == raw@[i + 1]@);
            if let Err(e) = found.option(arg, &raw[i + 1], positive[i + 1]) {
                return Err(e);
            }
            i = i + 2;
        } else if same(arg, "--loop") {
            found.looped = true;
            i = i + 1;
        } else {
            let chars: Vec<char> = chars_of(arg);
            if starts_with(chars.as_slice(), "--") {
                let mut e: String = "unknown option: ".to_string();
                e.append(arg);
                return Err(e);
            }
            let ghost before = found@;
            found.positional.push(raw[i].clone());
            assert(found@.positional =~= before.positional.push(arg@));
            i = i + 1;
        }
    }
    Ok(found)
}

/// What the arguments ask for, or why they are not accepted. `positive` says of each argument
/// whether it is a finite number greater than zero.
pub fn parse(raw: &Vec<String>, positive: &Vec<bool>) -> (r: Result<Args, String>)
    requires
        positive@.len() == raw@.len(),
    ensures
        match parsed(text::values(raw@), positive@) {
            Err(e) => r matches Err(s) && s@ == e,
            Ok(a) => r matches Ok(args) && args@ == a,
        },
{
    let mut found: Found = match find_all(raw, positive) {
        Err(e) => {
            return Err(e);
        },
        Ok(found) => found,
    };
    assert(found@.positional.len() == found.positional@.len());
    if found.positional.len() < 2 {
        let mut e: String =
            "expected at least 2 positional arguments (host:port, file.graw...), got ".to_string();
        push_decimal(&mut e, found.positional.len() as u64);
        return Err(e);
    }
    if found.looped && (found.laps.is_some() || found.until.is_some()) {
        return Err(
            "--loop cannot be combined with --laps/--laps-until-s (conflicting semantics)".to_string(),
        );
    }
    let ghost all = found@.positional;
    let endpoint: String = found.positional.remove(0);
    assert(text::values(found.positional@) =~= all.skip(1));
    Ok(
        Args {
            endpoint,
            files: found.positional,
            rate_mbps: found.rate,
            loop_replay: found.looped,
            chunk_bytes: found.chunk,
            laps: found.laps,
            laps_until_s: found.until,
        },
    )
}

/// Whatever is accepted names an endpoint and a file, reads at least one byte at a time, and asks
/// for laps or for a loop without end, not for both.
pub proof fn law_accepted_arguments_make_sense(raw: Seq<Seq<char>>, positive: Seq<bool>)
    requires
        parsed(raw, positive) is Ok,
        positive.len() == raw.len(),
    ensures
        ({
            let a = parsed(raw, positive)->Ok_0;
            &&& a.files.len() >= 1
            &&& a.chunk_bytes > 0
            &&& a.loop_replay ==> a.laps is None && a.laps_until_s is None
            &&& a.laps matches Some(n) ==> n > 0
        }),
{
    lemma_scan(raw, positive, 0, Scan::nothing());
}

proof fn lemma_scan(raw: Seq<Seq<char>>, positive: Seq<bool>, i: int, s: Scan)
    requires
        0 <= i,
        s.chunk > 0,
        s.laps matches Some(n) ==> n > 0,
        scan(raw, positive, i, s) is Ok,
    ensures
        scan(raw, positive, i, s)->Ok_0.chunk > 0,
        scan(raw, positive, i, s)->Ok_0.laps matches Some(n) ==> n > 0,
    decreases raw.len() - i,
{
    if i < raw.len() {
        if takes_value(raw[i]) {
            if i + 1 < raw.len() {
                let t = with_option(s, raw[i], raw[i + 1], positive[i + 1])->Ok_0;
                lemma_scan(raw, positive, i + 2, t);
            }
        } else if raw[i] == "--loop"@ {
            lemma_scan(raw, positive, i + 1, Scan { looped: true, ..s });
        } else {
            lemma_scan(
                raw,
                positive,
                i + 1,
                Scan { positional: s.positional.push(raw[i]), ..s },
            );
        }
    }
}

// ---------------------------------------------------------------------
// Laps
// ---------------------------------------------------------------------

/// The number of an event in a lap: shifted by as many numbers as the laps before have used.
pub open spec fn lap_number(event: nat, lap: nat, max_idx: nat) -> nat {
    event + lap * (max_idx + 1)
}

/// Four bytes that hold a number, in this byte order.
pub open spec fn four_bytes(n: u32, little: bool) -> Seq<u8> {
    if little {
        bytes::le_bytes4(n)
    } else {
        bytes::be_bytes4(n)
    }
}

/// A frame as it is sent in a lap: in the first lap as it stands, later with the number of its
/// event shifted. Control frames stay as they are.
pub open spec fn lap_frame_of(frame: Seq<u8>, lap: u32, max_idx: u32) -> Seq<u8> {
    if lap == 0 || !decode::is_routable(frame) {
        frame
    } else {
        let number = lap_number(decode::field(frame, 22, 26), lap as nat, max_idx as nat);
        frame.take(22) + four_bytes(
            (number % 0x1_0000_0000) as u32,
            framer::is_little(frame),
        ) + frame.skip(26)
    }
}

/// Shifting changes the number of the event and nothing else.
pub proof fn law_shifting_changes_only_the_number(frame: Seq<u8>, lap: u32, max_idx: u32)
    requires
        decode::is_routable(frame),
        lap > 0,
    ensures
        ({
            let out = lap_frame_of(frame, lap, max_idx);
            &&& out.len() == frame.len()
            &&& decode::field(out, 22, 26) == lap_number(
                decode::field(frame, 22, 26),
                lap as nat,
                max_idx as nat,
            ) % 0x1_0000_0000
            &&& forall|i: int| 0 <= i < frame.len() && !(22 <= i < 26) ==> out[i] == frame[i]
            &&& decode::is_routable(out)
        }),
{
    let out = lap_frame_of(frame, lap, max_idx);
    let little = framer::is_little(frame);
    let n = (lap_number(decode::field(frame, 22, 26), lap as nat, max_idx as nat)
        % 0x1_0000_0000) as u32;
    bytes::law_u32_bytes_round_trip(n);
    assert(out.subrange(22, 26) =~= four_bytes(n, little));
    assert(out.subrange(5, 7) =~= frame.subrange(5, 7));
}

/// No number comes twice: an event of one lap never has the number of an event of another, as long
/// as no number in a lap is higher than the highest of the first.
pub proof fn law_laps_do_not_overlap(a: nat, b: nat, lap_a: nat, lap_b: nat, max_idx: nat)
    requires
        a <= max_idx,
        b <= max_idx,
        lap_number(a, lap_a, max_idx) == lap_number(b, lap_b, max_idx),
    ensures
        a == b,
        lap_a == lap_b,
{
    let m = max_idx + 1;
    if lap_a < lap_b {
        assert(lap_b * m >= lap_a * m + m) by (nonlinear_arith)
            requires
                lap_b >= lap_a + 1,
                m >= 1,
        ;
    } else if lap_b < lap_a {
        assert(lap_a * m >= lap_b * m + m) by (nonlinear_arith)
            requires
                lap_a >= lap_b + 1,
                m >= 1,
        ;
    }
}

fn copy_bytes(data: &[u8]) -> (out: Vec<u8>)
    ensures
        out@ == data@,
{
    let mut out: Vec<u8> = Vec::new();
    out.extend_from_slice(data);
    assert(out@ =~= data@);
    out
}

fn push_four(out: &mut Vec<u8>, n: u32, little: bool)
    ensures
        final(out)@ == old(out)@ + four_bytes(n, little),
{
    let b0: u8 = (n % 256) as u8;
    let b1: u8 = (n / 256 % 256) as u8;
    let b2: u8 = (n / 65536 % 256) as u8;
    let b3: u8 = (n / 16777216) as u8;
    if little {
        out.push(b0);
        out.push(b1);
        out.push(b2);
        out.push(b3);
    } else {
        out.push(b3);
        out.push(b2);
        out.push(b1);
        out.push(b0);
    }
    assert(out@ =~= old(out)@ + four_bytes(n, little));
}

/// A frame as it is sent in a lap: in the first lap as it stands, later with the number of its
/// event shifted. Control frames stay as they are.
pub fn lap_frame(frame: &[u8], lap: u32, max_idx: u32) -> (out: Vec<u8>)
    ensures
        out@ == lap_frame_of(frame@, lap, max_idx),
{
    if lap == 0 {
        return copy_bytes(frame);
    }
    match peek_event_idx(frame) {
        None => copy_bytes(frame),
        Some(event) => {
            proof {
                let l = lap as int;
                let m = max_idx + 1;
                assert(0 <= l * m <= 0xFFFF_FFFF * 0x1_0000_0000) by (nonlinear_arith)
                    requires
                        0 <= l <= 0xFFFF_FFFF,
                        1 <= m <= 0x1_0000_0000,
                ;
            }
            let offset: u64 = lap as u64 * (max_idx as u64 + 1);
            let number: u64 = event as u64 + offset;
            assert(number as u32 == number % 0x1_0000_0000) by (bit_vector);
            let little: bool = frame[0] >= 128;
            assert(frame@.len() == frame.len());
            let mut out: Vec<u8> = copy_bytes(&frame[0..22]);
            push_four(&mut out, number as u32, little);
            out.extend_from_slice(&frame[26..frame.len()]);
            assert(out@ =~= lap_frame_of(frame@, lap, max_idx));
            out
        },
    }
}

/// Which lap is on, and the highest number of an event in the first.
#[derive(Debug, Clone, Copy, PartialEq, Eq, Structural)]
pub struct Laps {
    pub lap: u32,
    pub max_idx: u32,
}

impl Laps {
    /// The beginning of the first lap.
    pub fn new() -> (laps: Self)
        ensures
            laps == (Laps { lap: 0, max_idx: 0 }),
    {
        Laps { lap: 0, max_idx: 0 }
    }

    /// The laps once a frame is sent: the first lap takes note of the highest number.
    pub open spec fn after_frame(self, frame: Seq<u8>) -> Laps {
        if self.lap == 0 && decode::is_routable(frame) && decode::field(frame, 22, 26)
            > self.max_idx {
            Laps { max_idx: decode::field(frame, 22, 26) as u32, ..self }
        } else {
            self
        }
    }

    /// Takes a frame and returns it as it is sent.
    pub fn frame(&mut self, frame: &[u8]) -> (out: Vec<u8>)
        ensures
            out@ == lap_frame_of(frame@, old(self).lap, old(self).max_idx),
            *final(self) == old(self).after_frame(frame@),
    {
        let out: Vec<u8> = lap_frame(frame, self.lap, self.max_idx);
        if self.lap == 0 {
            if let Some(event) = peek_event_idx(frame) {
                if event > self.max_idx {
                    self.max_idx = event;
                }
            }
        }
        out
    }

    /// Ends a lap. Returns whether it was the last: where the wanted number of laps is done, or
    /// the time is over.
    pub fn lap_over(&mut self, wanted: Option<u32>, time_over: bool) -> (last: bool)
        requires
            old(self).lap < u32::MAX,
        ensures
            *final(self) == old(self).after_lap(),
            last == (time_over || (wanted matches Some(n) && old(self).lap + 1 >= n)),
    {
        self.lap = self.lap + 1;
        let laps_done: bool = match wanted {
            Some(n) => self.lap >= n,
            None => false,
        };
        laps_done || time_over
    }
}

/// The highest number of an event among `frames`, and 0 where no frame has one.
pub open spec fn highest(frames: Seq<Seq<u8>>) -> nat
    decreases frames.len(),
{
    if frames.len() == 0 {
        0
    } else {
        let before = highest(frames.drop_last());
        let frame = frames.last();
        if decode::is_routable(frame) && decode::field(frame, 22, 26) > before {
            decode::field(frame, 22, 26)
        } else {
            before
        }
    }
}

impl Laps {
    /// The laps once `frames` are sent.
    pub open spec fn after_frames(self, frames: Seq<Seq<u8>>) -> Laps
        decreases frames.len(),
    {
        if frames.len() == 0 {
            self
        } else {
            self.after_frames(frames.drop_last()).after_frame(frames.last())
        }
    }

    /// `frames` as they are sent, one after the other.
    pub open spec fn sent(self, frames: Seq<Seq<u8>>) -> Seq<Seq<u8>>
        decreases frames.len(),
    {
        if frames.len() == 0 {
            Seq::empty()
        } else {
            let now = self.after_frames(frames.drop_last());
            self.sent(frames.drop_last()).push(lap_frame_of(frames.last(), now.lap, now.max_idx))
        }
    }

    /// The laps once a lap is over.
    pub open spec fn after_lap(self) -> Laps {
        Laps { lap: (self.lap + 1) as u32, ..self }
    }

    /// The state at the end of so many laps from the beginning, each of its own frames.
    pub open spec fn after_laps(laps: Seq<Seq<Seq<u8>>>) -> Laps
        decreases laps.len(),
    {
        if laps.len() == 0 {
            Laps { lap: 0, max_idx: 0 }
        } else {
            Self::after_laps(laps.drop_last()).after_frames(laps.last()).after_lap()
        }
    }

    /// All that is sent in so many laps from the beginning, each of its own frames.
    pub open spec fn sent_in_laps(laps: Seq<Seq<Seq<u8>>>) -> Seq<Seq<u8>>
        decreases laps.len(),
    {
        if laps.len() == 0 {
            Seq::empty()
        } else {
            Self::sent_in_laps(laps.drop_last()) + Self::after_laps(laps.drop_last()).sent(
                laps.last(),
            )
        }
    }
}

/// The frames of all laps, those of each lap mapped by [`lap_frame_of`] with the number of the lap
/// and `max_idx`.
pub open spec fn shifted(laps: Seq<Seq<Seq<u8>>>, max_idx: u32) -> Seq<Seq<u8>>
    decreases laps.len(),
{
    if laps.len() == 0 {
        Seq::empty()
    } else {
        shifted(laps.drop_last(), max_idx) + laps.last().map_values(
            |frame: Seq<u8>| lap_frame_of(frame, (laps.len() - 1) as u32, max_idx),
        )
    }
}

proof fn lemma_highest(frames: Seq<Seq<u8>>)
    ensures
        highest(frames) <= u32::MAX,
        forall|i: int|
            0 <= i < frames.len() && decode::is_routable(#[trigger] frames[i]) ==> decode::field(
                frames[i],
                22,
                26,
            ) <= highest(frames),
    decreases frames.len(),
{
    if frames.len() > 0 {
        let before = frames.drop_last();
        lemma_highest(before);
        assert forall|i: int| 0 <= i < frames.len() && decode::is_routable(
            #[trigger] frames[i],
        ) implies decode::field(frames[i], 22, 26) <= highest(frames) by {
            if i < before.len() {
                assert(before[i] == frames[i]);
            }
        }
        let field = frames.last().subrange(22, 26);
        if decode::is_routable(frames.last()) {
            bytes::lemma_uint_value_bound(field, framer::is_little(frames.last()));
            assert(bytes::pow256(4) == 0x1_0000_0000) by {
                reveal_with_fuel(bytes::pow256, 5);
            }
        }
    }
}

proof fn lemma_first_lap(frames: Seq<Seq<u8>>)
    ensures
        ({
            let start = Laps { lap: 0, max_idx: 0 };
            &&& start.after_frames(frames) == (Laps { lap: 0, max_idx: highest(frames) as u32 })
            &&& start.sent(frames) == frames
        }),
    decreases frames.len(),
{
    let start = Laps { lap: 0, max_idx: 0 };
    if frames.len() > 0 {
        lemma_first_lap(frames.drop_last());
        lemma_highest(frames.drop_last());
        lemma_highest(frames);
        assert(start.sent(frames) =~= frames);
    } else {
        assert(start.sent(frames) =~= frames);
    }
}

proof fn lemma_later_lap(laps: Laps, frames: Seq<Seq<u8>>)
    requires
        laps.lap > 0,
    ensures
        laps.after_frames(frames) == laps,
        laps.sent(frames) == frames.map_values(
            |frame: Seq<u8>| lap_frame_of(frame, laps.lap, laps.max_idx),
        ),
    decreases frames.len(),
{
    if frames.len() > 0 {
        lemma_later_lap(laps, frames.drop_last());
    }
    assert(laps.sent(frames) =~= frames.map_values(
        |frame: Seq<u8>| lap_frame_of(frame, laps.lap, laps.max_idx),
    ));
}

/// The first lap fixes the shift of all others: once it is over, the highest number is that of its
/// data frames, or 0 where it has none, and stays so. In lap `n`, counted from 0, every data frame
/// has its number shifted by `n` times one more than that; everything else is sent as it stands.
pub proof fn law_the_first_lap_fixes_the_shift(laps: Seq<Seq<Seq<u8>>>)
    requires
        0 < laps.len() <= u32::MAX,
    ensures
        Laps::after_laps(laps) == (Laps {
            lap: laps.len() as u32,
            max_idx: highest(laps.first()) as u32,
        }),
        highest(laps.first()) <= u32::MAX,
        forall|i: int|
            0 <= i < laps.first().len() && decode::is_routable(#[trigger] laps.first()[i])
                ==> decode::field(laps.first()[i], 22, 26) <= highest(laps.first()),
        Laps::sent_in_laps(laps) == shifted(laps, highest(laps.first()) as u32),
    decreases laps.len(),
{
    let max = highest(laps.first()) as u32;
    let before = laps.drop_last();
    lemma_highest(laps.first());
    if laps.len() == 1 {
        assert(before =~= Seq::empty());
        lemma_first_lap(laps.last());
        assert(Laps::after_laps(before) == (Laps { lap: 0, max_idx: 0 }));
        assert(Laps::sent_in_laps(before) =~= shifted(before, max));
        assert(laps.last().map_values(
            |frame: Seq<u8>| lap_frame_of(frame, (laps.len() - 1) as u32, max),
        ) =~= laps.last());
    } else {
        assert(before.first() == laps.first());
        law_the_first_lap_fixes_the_shift(before);
        let start = Laps::after_laps(before);
        lemma_later_lap(start, laps.last());
        assert(laps.last().map_values(
            |frame: Seq<u8>| lap_frame_of(frame, start.lap, start.max_idx),
        ) =~= laps.last().map_values(
            |frame: Seq<u8>| lap_frame_of(frame, (laps.len() - 1) as u32, max),
        ));
    }
}

/// `n` laps of the same frames send `n` copies of them: copy `k`, counted from 0, is made of the
/// frames, in order, each shifted for lap `k`.
pub proof fn law_each_lap_sends_a_copy(frames: Seq<Seq<u8>>, n: nat, k: int, i: int)
    requires
        n <= u32::MAX,
        0 <= k < n,
        0 <= i < frames.len(),
    ensures
        ({
            let sent = Laps::sent_in_laps(Seq::new(n, |lap: int| frames));
            &&& sent.len() == n * frames.len()
            &&& 0 <= k * frames.len() + i < sent.len()
            &&& sent[k * frames.len() + i] == lap_frame_of(
                frames[i],
                k as u32,
                highest(frames) as u32,
            )
        }),
    decreases n,
{
    let laps = Seq::new(n, |lap: int| frames);
    let before = Seq::new((n - 1) as nat, |lap: int| frames);
    let max = highest(frames) as u32;
    law_the_first_lap_fixes_the_shift(laps);
    assert(laps.drop_last() =~= before);
    let last = frames.map_values(|frame: Seq<u8>| lap_frame_of(frame, (n - 1) as u32, max));
    assert(shifted(laps, max) == shifted(before, max) + last) by {
        assert(laps.last().map_values(
            |frame: Seq<u8>| lap_frame_of(frame, (laps.len() - 1) as u32, max),
        ) =~= last);
    }
    let len = frames.len();
    assert(n * len == (n - 1) * len + len) by (nonlinear_arith)
        requires
            n >= 1,
    ;
    if n == 1 {
        assert(shifted(before, max) =~= Seq::empty());
        assert((n - 1) * len == 0) by (nonlinear_arith)
            requires
                n == 1,
        ;
        assert(k * len == 0) by (nonlinear_arith)
            requires
                k == 0,
        ;
    } else {
        law_the_first_lap_fixes_the_shift(before);
        if k < n - 1 {
            law_each_lap_sends_a_copy(frames, (n - 1) as nat, k, i);
        } else {
            law_each_lap_sends_a_copy(frames, (n - 1) as nat, 0, i);
        }
    }
}

// ---------------------------------------------------------------------
// Reading frames from a file
// ---------------------------------------------------------------------

/// What a file has next.
pub enum SourceStep {
    /// A frame.
    Frame(Vec<u8>),
    /// Nothing before more of the file is read.
    Read,
    /// Nothing any more. So many bytes at the end are no complete frame.
    End(usize),
}

/// The frames of a file, as far as it is read.
pub struct FrameSource {
    framer: Framer,
    eof: bool,
}

/// The value of a [`FrameSource`].
pub struct SourceView {
    /// What is read and not handed out.
    pub pending: Seq<u8>,
    /// Whether the file is at its end.
    pub eof: bool,
    /// How often a corrupt header has made everything read be discarded.
    pub resets: nat,
}

/// What a file has next.
pub enum Next {
    Frame(Seq<u8>),
    Read,
    End(nat),
}

impl SourceView {
    /// What the file has next.
    pub open spec fn next(self) -> Next {
        match framer::front(self.pending, framer::DEFAULT_MAX_FRAME_BYTES as nat) {
            framer::Front::Frame(n) => Next::Frame(self.pending.take(n as int)),
            framer::Front::Incomplete => if self.eof {
                Next::End(self.pending.len())
            } else {
                Next::Read
            },
            framer::Front::Corrupt => if self.eof {
                Next::End(0)
            } else {
                Next::Read
            },
        }
    }

    /// The file once it was asked what it has next.
    pub open spec fn polled(self) -> SourceView {
        match framer::front(self.pending, framer::DEFAULT_MAX_FRAME_BYTES as nat) {
            framer::Front::Frame(n) => SourceView { pending: self.pending.skip(n as int), ..self },
            framer::Front::Incomplete => self,
            framer::Front::Corrupt => SourceView {
                pending: Seq::empty(),
                resets: self.resets + 1,
                ..self
            },
        }
    }

    /// The file once more of it is read. That nothing came means that it is at its end.
    pub open spec fn fed(self, data: Seq<u8>) -> SourceView {
        if data.len() == 0 {
            SourceView { eof: true, ..self }
        } else {
            SourceView { pending: self.pending + data, ..self }
        }
    }
}

impl SourceStep {
    /// Whether this says what the file has next.
    pub open spec fn tells(self, next: Next) -> bool {
        match next {
            Next::Frame(f) => self matches SourceStep::Frame(v) && v@ == f,
            Next::Read => self is Read,
            Next::End(n) => self matches SourceStep::End(k) && k == n,
        }
    }
}

impl View for FrameSource {
    type V = SourceView;

    closed spec fn view(&self) -> SourceView {
        SourceView {
            pending: self.framer.pending(),
            eof: self.eof,
            resets: self.framer.resets(),
        }
    }
}

impl FrameSource {
    /// Whether the parts of this value fit together.
    pub closed spec fn wf(&self) -> bool {
        self.framer.wf() && self.framer.max() == framer::DEFAULT_MAX_FRAME_BYTES
    }

    /// A file of which nothing is read.
    pub fn new() -> (source: Self)
        ensures
            source.wf(),
            source@ == (SourceView { pending: Seq::empty(), eof: false, resets: 0 }),
    {
        FrameSource { framer: Framer::new(), eof: false }
    }

    /// What the file has next.
    pub fn next_frame(&mut self) -> (step: SourceStep)
        requires
            old(self).wf(),
            old(self)@.resets < u64::MAX,
        ensures
            final(self).wf(),
            step.tells(old(self)@.next()),
            final(self)@ == old(self)@.polled(),
    {
        if let Some(frame) = self.framer.next() {
            return SourceStep::Frame(copy_bytes(frame));
        }
        if self.eof {
            SourceStep::End(self.framer.buffered())
        } else {
            SourceStep::Read
        }
    }

    /// Takes more of the file. That nothing came means that it is at its end.
    pub fn feed(&mut self, data: &[u8])
        requires
            old(self).wf(),
        ensures
            final(self).wf(),
            final(self)@ == old(self)@.fed(data@),
    {
        if data.len() == 0 {
            self.eof = true;
        } else {
            self.framer.push(data);
        }
    }

    /// How often a corrupt header has made everything read be discarded.
    pub fn resets(&self) -> (n: u64)
        ensures
            n == self@.resets,
    {
        self.framer.reset_count()
    }
}

// ---------------------------------------------------------------------
// Merging files
// ---------------------------------------------------------------------

/// The number of the event that a frame belongs to; control frames belong to none.
pub open spec fn event_of(frame: Seq<u8>) -> Option<nat> {
    if decode::is_routable(frame) {
        Some(decode::field(frame, 22, 26))
    } else {
        None
    }
}

/// Whether the frame at the head of file `i` is a control frame.
pub open spec fn is_control(heads: Seq<Option<Seq<u8>>>, i: int) -> bool {
    heads[i] matches Some(f) && event_of(f) is None
}

/// Whether file `i` is to be taken from next: it has the first control frame, or, where there is
/// none, the first of the frames of the lowest event.
pub open spec fn is_pick(heads: Seq<Option<Seq<u8>>>, i: int) -> bool {
    &&& 0 <= i < heads.len()
    &&& heads[i] is Some
    &&& if is_control(heads, i) {
        forall|j: int| 0 <= j < i ==> !#[trigger] is_control(heads, j)
    } else {
        &&& forall|j: int| 0 <= j < heads.len() ==> !#[trigger] is_control(heads, j)
        &&& forall|j: int|
            0 <= j < heads.len() && (#[trigger] heads[j]) is Some ==> event_of(heads[i]->0)->0
                < event_of(heads[j]->0)->0 || (event_of(heads[i]->0)->0 == event_of(heads[j]->0)->0
                && i <= j)
    }
}

/// There is one file to take from next at most.
pub proof fn law_the_pick_is_unique(heads: Seq<Option<Seq<u8>>>, i: int, j: int)
    requires
        is_pick(heads, i),
        is_pick(heads, j),
    ensures
        i == j,
{
    assert(is_control(heads, i) || !is_control(heads, i));
    assert(is_control(heads, j) || !is_control(heads, j));
}

/// Control frames go before all others.
pub proof fn law_control_frames_go_first(heads: Seq<Option<Seq<u8>>>, i: int, j: int)
    requires
        is_pick(heads, i),
        0 <= j < heads.len(),
        is_control(heads, j),
    ensures
        is_control(heads, i),
        i <= j,
{
}

/// Where each file is in the order of its events, so is what is sent: once a frame of an event is
/// taken and its file has come to its next frame, no head belongs to an earlier event.
pub proof fn law_events_ascend(heads: Seq<Option<Seq<u8>>>, i: int, next: Option<Seq<u8>>, j: int)
    requires
        is_pick(heads, i),
        event_of(heads[i]->0) is Some,
        next matches Some(f) ==> (event_of(f) matches Some(e) ==> e >= event_of(heads[i]->0)->0),
        0 <= j < heads.len(),
    ensures
        heads.update(i, next)[j] matches Some(f) ==> (event_of(f) matches Some(e) ==> e >= event_of(
            heads[i]->0,
        )->0),
{
    if j != i && heads[j] is Some {
        assert(!is_control(heads, i));
        assert(!is_control(heads, j));
    }
}

spec fn head_views(heads: Seq<Option<Vec<u8>>>) -> Seq<Option<Seq<u8>>> {
    heads.map_values(
        |h: Option<Vec<u8>>|
            match h {
                Some(f) => Some(f@),
                None => None,
            },
    )
}

fn pick(heads: &Vec<Option<Vec<u8>>>) -> (i: Option<usize>)
    ensures
        match i {
            Some(i) => is_pick(head_views(heads@), i as int),
            None => forall|j: int|
                0 <= j < heads@.len() ==> (#[trigger] head_views(heads@)[j]) is None,
        },
{
    let ghost views = head_views(heads@);
    let mut best: Option<(u32, usize)> = None;
    let mut i: usize = 0;
    while i < heads.len()
        invariant
            i <= heads@.len(),
            views == head_views(heads@),
            forall|j: int| 0 <= j < i ==> !#[trigger] is_control(views, j),
            match best {
                None => forall|j: int| 0 <= j < i ==> (#[trigger] views[j]) is None,
                Some((event, b)) => {
                    &&& b < i
                    &&& views[b as int] is Some
                    &&& event_of(views[b as int]->0) == Some(event as nat)
                    &&& forall|j: int|
                        0 <= j < i && (#[trigger] views[j]) is Some ==> event < event_of(
                            views[j]->0,
                        )->0 || (event == event_of(views[j]->0)->0 && b <= j)
                },
            },
        decreases heads@.len() - i,
    {
        assert(views[i as int] == match heads@[i as int] {
            Some(f) => Some(f@),
            None => None,
        });
        if let Some(frame) = &heads[i] {
            match peek_event_idx(frame.as_slice()) {
                None => {
                    assert(is_control(views, i as int));
                    return Some(i);
                },
                Some(event) => {
                    assert(!is_control(views, i as int));
                    match best {
                        None => {
                            best = Some((event, i));
                        },
                        Some((lowest, _)) => {
                            if event < lowest {
                                best = Some((event, i));
                            }
                        },
                    }
                },
            }
        } else {
            assert(!is_control(views, i as int));
        }
        i = i + 1;
    }
    match best {
        None => None,
        Some((_, b)) => Some(b),
    }
}

/// What a merge does next.
#[derive(Debug, Clone, Copy, PartialEq, Eq, Structural)]
pub enum MergeStep {
    /// Read more of this file.
    Read(usize),
    /// Send the frame at the head of this file.
    Emit(usize),
    /// Nothing: all files are sent.
    Finish,
}

/// The state of a [`Merge`].
pub struct MergeView {
    pub sources: Seq<SourceView>,
    /// The frame at the head of each file.
    pub heads: Seq<Option<Seq<u8>>>,
    /// How many files have been looked into.
    pub primed: int,
    /// The file that a frame was taken from and that has no other at hand.
    pub refill: Option<int>,
    /// How many bytes at the end of each file are no complete frame, as far as that is known.
    pub leftovers: Seq<nat>,
}

impl MergeView {
    /// A merge of so many files of which nothing is read.
    pub open spec fn fresh(files: nat) -> MergeView {
        MergeView {
            sources: Seq::new(
                files,
                |i: int| SourceView { pending: Seq::empty(), eof: false, resets: 0 },
            ),
            heads: Seq::new(files, |i: int| None),
            primed: 0,
            refill: None,
            leftovers: Seq::new(files, |i: int| 0),
        }
    }

    /// The file that is to be read.
    pub open spec fn wanting(self) -> Option<int> {
        if self.primed < self.sources.len() {
            Some(self.primed)
        } else {
            self.refill
        }
    }

    /// The merge once file `i` was asked for its next frame.
    pub open spec fn filled(self, i: int) -> MergeView {
        let next = self.sources[i].next();
        MergeView {
            sources: self.sources.update(i, self.sources[i].polled()),
            heads: self.heads.update(
                i,
                match next {
                    Next::Frame(f) => Some(f),
                    _ => None,
                },
            ),
            primed: if self.primed < self.sources.len() && !(next is Read) {
                self.primed + 1
            } else {
                self.primed
            },
            refill: if self.primed >= self.sources.len() && next is Read {
                Some(i)
            } else {
                None
            },
            leftovers: match next {
                Next::End(n) => self.leftovers.update(i, n),
                _ => self.leftovers,
            },
        }
    }

    /// The merge once more of the file that is to be read is read.
    pub open spec fn fed(self, data: Seq<u8>) -> MergeView {
        let i = self.wanting()->0;
        (MergeView { sources: self.sources.update(i, self.sources[i].fed(data)), ..self }).filled(i)
    }

    /// Whether `step` is what the merge does next.
    pub open spec fn is_next(self, step: MergeStep) -> bool {
        match self.wanting() {
            Some(i) => step matches MergeStep::Read(k) && k == i,
            None => match step {
                MergeStep::Read(_) => false,
                MergeStep::Emit(k) => is_pick(self.heads, k as int),
                MergeStep::Finish => forall|j: int|
                    0 <= j < self.heads.len() ==> (#[trigger] self.heads[j]) is None,
            },
        }
    }
}

/// What happens to a merge.
pub enum MergeEvent {
    /// More of the file that is to be read was read.
    Read(Seq<u8>),
    /// The frame at the head of this file was sent.
    Emit(int),
}

impl MergeView {
    /// The merge once `event` has happened.
    pub open spec fn after(self, event: MergeEvent) -> MergeView {
        match event {
            MergeEvent::Read(data) => self.fed(data),
            MergeEvent::Emit(i) => self.filled(i),
        }
    }

    /// Whether `event` is what the merge does next.
    pub open spec fn meets(self, event: MergeEvent) -> bool {
        match event {
            MergeEvent::Read(_) => self.wanting() is Some,
            MergeEvent::Emit(i) => self.wanting() is None && is_pick(self.heads, i),
        }
    }

    /// The merge once all events have happened.
    pub open spec fn after_all(self, events: Seq<MergeEvent>) -> MergeView
        decreases events.len(),
    {
        if events.len() == 0 {
            self
        } else {
            self.after_all(events.drop_last()).after(events.last())
        }
    }

    /// Whether the events can happen one after the other.
    pub open spec fn meets_all(self, events: Seq<MergeEvent>) -> bool
        decreases events.len(),
    {
        events.len() > 0 ==> self.meets_all(events.drop_last()) && self.after_all(
            events.drop_last(),
        ).meets(events.last())
    }

    /// All that was read of file `j`.
    pub open spec fn read_of(self, events: Seq<MergeEvent>, j: int) -> Seq<u8>
        decreases events.len(),
    {
        if events.len() == 0 {
            Seq::empty()
        } else {
            let before = events.drop_last();
            match events.last() {
                MergeEvent::Read(data) if self.after_all(before).wanting() == Some(j) =>
                    self.read_of(before, j) + data,
                _ => self.read_of(before, j),
            }
        }
    }

    /// The frames of file `j` that were sent.
    pub open spec fn sent_of(self, events: Seq<MergeEvent>, j: int) -> Seq<Seq<u8>>
        decreases events.len(),
    {
        if events.len() == 0 {
            Seq::empty()
        } else {
            let before = events.drop_last();
            if events.last() == MergeEvent::Emit(j) {
                self.sent_of(before, j).push(self.after_all(before).heads[j]->0)
            } else {
                self.sent_of(before, j)
            }
        }
    }

    /// The frame at the head of file `j`, if there is one.
    pub open spec fn at_head(self, j: int) -> Seq<Seq<u8>> {
        match self.heads[j] {
            Some(f) => seq![f],
            None => Seq::empty(),
        }
    }

    /// Whether file `j` is where it should be: a file without a frame at its head has none at
    /// hand, and one that is to be read has none at its head.
    pub open spec fn settled(self, j: int) -> bool {
        let front = framer::front(
            self.sources[j].pending,
            framer::DEFAULT_MAX_FRAME_BYTES as nat,
        );
        &&& self.heads[j] is None ==> front is Incomplete
        &&& self.wanting() == Some(j) ==> self.heads[j] is None
        &&& j >= self.primed ==> self.heads[j] is None
    }
}

/// Whether no header in `data` announces an impossible length.
pub open spec fn is_sound(data: Seq<u8>) -> bool {
    forall|n: int|
        0 <= n <= data.len() ==> framer::front(
            framer::remainder(#[trigger] data.take(n), framer::DEFAULT_MAX_FRAME_BYTES as nat),
            framer::DEFAULT_MAX_FRAME_BYTES as nat,
        ) !is Corrupt
}

proof fn lemma_sound_front(data: Seq<u8>, more: Seq<u8>)
    requires
        is_sound(data + more),
    ensures
        is_sound(data),
{
    assert forall|n: int| 0 <= n <= data.len() implies framer::front(
        framer::remainder(#[trigger] data.take(n), framer::DEFAULT_MAX_FRAME_BYTES as nat),
        framer::DEFAULT_MAX_FRAME_BYTES as nat,
    ) !is Corrupt by {
        assert((data + more).take(n) =~= data.take(n));
    }
}

proof fn lemma_incomplete_is_not_cut(pending: Seq<u8>)
    requires
        framer::front(pending, framer::DEFAULT_MAX_FRAME_BYTES as nat) !is Frame,
    ensures
        framer::cut(pending, framer::DEFAULT_MAX_FRAME_BYTES as nat) == Seq::<Seq<u8>>::empty(),
        framer::remainder(pending, framer::DEFAULT_MAX_FRAME_BYTES as nat) == pending,
{
}

proof fn lemma_the_merge_keeps_its_files(files: nat, events: Seq<MergeEvent>)
    requires
        MergeView::fresh(files).meets_all(events),
    ensures
        ({
            let v = MergeView::fresh(files).after_all(events);
            &&& v.sources.len() == files
            &&& v.heads.len() == files
            &&& 0 <= v.primed <= files
            &&& v.refill matches Some(i) ==> 0 <= i < files
        }),
    decreases events.len(),
{
    if events.len() > 0 {
        lemma_the_merge_keeps_its_files(files, events.drop_last());
    }
}

/// Merging loses, repeats and reorders no frame of a file: at every moment, the frames of a file
/// that were sent, the one at its head and those in what is read and not handed out are the
/// frames of what was read of it, in this order. Once the merge has nothing left to do, all of
/// them are sent. Files with a header of an impossible length are left out: what stands behind
/// such a header is discarded.
pub proof fn law_merging_sends_every_frame_once(files: nat, events: Seq<MergeEvent>, j: int)
    requires
        MergeView::fresh(files).meets_all(events),
        0 <= j < files,
        is_sound(MergeView::fresh(files).read_of(events, j)),
    ensures
        ({
            let max = framer::DEFAULT_MAX_FRAME_BYTES as nat;
            let fresh = MergeView::fresh(files);
            let v = fresh.after_all(events);
            let all = fresh.read_of(events, j);
            &&& v.sources.len() == files && v.heads.len() == files
            &&& v.settled(j)
            &&& fresh.sent_of(events, j) + v.at_head(j) + framer::cut(v.sources[j].pending, max)
                == framer::cut(all, max)
            &&& framer::remainder(v.sources[j].pending, max) == framer::remainder(all, max)
            &&& v.is_next(MergeStep::Finish) ==> fresh.sent_of(events, j) == framer::cut(all, max)
        }),
    decreases events.len(),
{
    let max = framer::DEFAULT_MAX_FRAME_BYTES as nat;
    let fresh = MergeView::fresh(files);
    let v = fresh.after_all(events);
    let all = fresh.read_of(events, j);
    if events.len() == 0 {
        assert(fresh.sent_of(events, j) + v.at_head(j) + framer::cut(v.sources[j].pending, max)
            =~= framer::cut(all, max));
    } else {
        let before = events.drop_last();
        let u = fresh.after_all(before);
        let had = fresh.read_of(before, j);
        let sent = fresh.sent_of(before, j);
        lemma_the_merge_keeps_its_files(files, before);
        match events.last() {
            MergeEvent::Read(data) => {
                let i = u.wanting()->0;
                if i == j {
                    lemma_sound_front(had, data);
                    law_merging_sends_every_frame_once(files, before, j);
                    let pending = u.sources[j].pending;
                    assert(had.take(had.len() as int) =~= had);
                    framer::law_chunk_boundaries_do_not_matter(had, data, max);
                    framer::law_chunk_boundaries_do_not_matter(pending, data, max);
                    assert(all.take(all.len() as int) =~= all);
                    assert(pending + Seq::<u8>::empty() =~= pending);
                    assert(had + Seq::<u8>::empty() =~= had);
                    let now = u.sources[j].fed(data);
                    assert(now.pending =~= pending + data);
                    assert(u.at_head(j) =~= Seq::<Seq<u8>>::empty());
                    assert(sent + framer::cut(now.pending, max) =~= framer::cut(all, max));
                    assert(framer::remainder(now.pending, max) == framer::remainder(all, max));
                    if framer::front(now.pending, max) !is Frame {
                        lemma_incomplete_is_not_cut(now.pending);
                    }
                    assert(v.sources[j] == now.polled());
                } else {
                    law_merging_sends_every_frame_once(files, before, j);
                    assert(v.sources[j] == u.sources[j]);
                    assert(v.heads[j] == u.heads[j]);
                }
            },
            MergeEvent::Emit(i) => {
                law_merging_sends_every_frame_once(files, before, j);
                if i == j {
                    let pending = u.sources[j].pending;
                    assert(had.take(had.len() as int) =~= had);
                    if framer::front(pending, max) !is Frame {
                        lemma_incomplete_is_not_cut(pending);
                    }
                    assert(v.sources[j] == u.sources[j].polled());
                } else {
                    assert(v.sources[j] == u.sources[j]);
                    assert(v.heads[j] == u.heads[j]);
                }
            },
        }
        assert(fresh.sent_of(events, j) + v.at_head(j) + framer::cut(v.sources[j].pending, max)
            =~= framer::cut(all, max));
    }
    if v.is_next(MergeStep::Finish) {
        lemma_incomplete_is_not_cut(v.sources[j].pending);
        assert(fresh.sent_of(events, j) =~= framer::cut(all, max));
    }
}

/// Whether the data frames among `frames` come in the order of their events.
pub open spec fn in_event_order(frames: Seq<Seq<u8>>) -> bool {
    forall|a: int, b: int|
        0 <= a < b < frames.len() && event_of(#[trigger] frames[a]) is Some && event_of(
            #[trigger] frames[b],
        ) is Some ==> event_of(frames[a])->0 <= event_of(frames[b])->0
}

/// Whether a data frame may go before another: by event, and then by the position of the file.
pub open spec fn may_precede(a: (nat, int), b: (nat, int)) -> bool {
    a.0 < b.0 || (a.0 == b.0 && a.1 <= b.1)
}

impl MergeView {
    /// The frames that were taken out of file `j`: those that were sent, and the one at its head.
    pub open spec fn taken_of(self, events: Seq<MergeEvent>, j: int) -> Seq<Seq<u8>> {
        self.sent_of(events, j) + self.after_all(events).at_head(j)
    }

    /// The data frames that were sent, of all files: the event and the position of the file of each.
    pub open spec fn order_of(self, events: Seq<MergeEvent>) -> Seq<(nat, int)>
        decreases events.len(),
    {
        if events.len() == 0 {
            Seq::empty()
        } else {
            let before = events.drop_last();
            match events.last() {
                MergeEvent::Emit(i) => match event_of(self.after_all(before).heads[i]->0) {
                    Some(e) => self.order_of(before).push((e, i)),
                    None => self.order_of(before),
                },
                _ => self.order_of(before),
            }
        }
    }

    spec fn is_past(self, events: Seq<MergeEvent>) -> bool {
        let v = self.after_all(events);
        let order = self.order_of(events);
        order.len() > 0 ==> {
            let last = order.last();
            &&& 0 <= last.1 < v.heads.len()
            &&& v.primed == v.sources.len()
            &&& v.refill is Some ==> v.refill == Some(last.1)
            &&& exists|a: int|
                0 <= a < self.sent_of(events, last.1).len() && event_of(
                    #[trigger] self.sent_of(events, last.1)[a],
                ) == Some(last.0)
            &&& forall|j: int|
                0 <= j < v.heads.len() && j != last.1 && (#[trigger] v.heads[j]) is Some
                    ==> event_of(v.heads[j]->0) is Some && may_precede(
                    last,
                    (event_of(v.heads[j]->0)->0, j),
                )
        }
    }
}

proof fn lemma_a_file_to_read_has_no_head(files: nat, events: Seq<MergeEvent>)
    requires
        MergeView::fresh(files).meets_all(events),
    ensures
        ({
            let v = MergeView::fresh(files).after_all(events);
            &&& v.refill matches Some(i) ==> v.heads[i] is None
            &&& forall|j: int| v.primed <= j < files ==> (#[trigger] v.heads[j]) is None
        }),
    decreases events.len(),
{
    if events.len() > 0 {
        lemma_the_merge_keeps_its_files(files, events.drop_last());
        lemma_a_file_to_read_has_no_head(files, events.drop_last());
    }
}

proof fn lemma_taken_before(files: nat, events: Seq<MergeEvent>, j: int)
    requires
        events.len() > 0,
        MergeView::fresh(files).meets_all(events),
        0 <= j < files,
        in_event_order(MergeView::fresh(files).taken_of(events, j)),
    ensures
        in_event_order(MergeView::fresh(files).taken_of(events.drop_last(), j)),
{
    let fresh = MergeView::fresh(files);
    let before = events.drop_last();
    let u = fresh.after_all(before);
    let now = fresh.taken_of(events, j);
    let had = fresh.taken_of(before, j);
    lemma_the_merge_keeps_its_files(files, before);
    lemma_a_file_to_read_has_no_head(files, before);
    assert forall|a: int| 0 <= a < had.len() implies a < now.len() && had[a] == now[a] by {
        match events.last() {
            MergeEvent::Read(_) => {
                if u.wanting() != Some(j) {
                    assert(fresh.after_all(events).heads[j] == u.heads[j]);
                }
            },
            MergeEvent::Emit(i) => {
                if i != j {
                    assert(fresh.after_all(events).heads[j] == u.heads[j]);
                }
            },
        }
    }
}

proof fn lemma_what_is_sent_is_past(files: nat, events: Seq<MergeEvent>)
    requires
        MergeView::fresh(files).meets_all(events),
        forall|j: int|
            0 <= j < files ==> in_event_order(#[trigger] MergeView::fresh(files).taken_of(events, j)),
    ensures
        MergeView::fresh(files).is_past(events),
        forall|a: int, b: int|
            0 <= a < b < MergeView::fresh(files).order_of(events).len() ==> may_precede(
                #[trigger] MergeView::fresh(files).order_of(events)[a],
                #[trigger] MergeView::fresh(files).order_of(events)[b],
            ),
    decreases events.len(),
{
    if events.len() > 0 {
        let fresh = MergeView::fresh(files);
        let before = events.drop_last();
        let u = fresh.after_all(before);
        let v = fresh.after_all(events);
        let had = fresh.order_of(before);
        let now = fresh.order_of(events);
        assert forall|j: int| 0 <= j < files implies in_event_order(
            #[trigger] fresh.taken_of(before, j),
        ) by {
            lemma_taken_before(files, events, j);
        }
        lemma_what_is_sent_is_past(files, before);
        lemma_the_merge_keeps_its_files(files, before);
        match events.last() {
            MergeEvent::Read(_) => {
                if had.len() > 0 {
                    let i = had.last().1;
                    assert(u.wanting() == Some(i));
                    assert(fresh.sent_of(events, i) == fresh.sent_of(before, i));
                    assert forall|j: int| 0 <= j < v.heads.len() && j != i && (
                    #[trigger] v.heads[j]) is Some implies event_of(v.heads[j]->0) is Some
                        && may_precede(had.last(), (event_of(v.heads[j]->0)->0, j)) by {
                        assert(v.heads[j] == u.heads[j]);
                    }
                }
            },
            MergeEvent::Emit(k) => {
                let frame = u.heads[k]->0;
                if had.len() > 0 {
                    let last = had.last();
                    let sent = fresh.sent_of(before, last.1);
                    let a = choose|a: int|
                        0 <= a < sent.len() && event_of(#[trigger] sent[a]) == Some(last.0);
                    if k == last.1 && event_of(frame) is Some {
                        let taken = fresh.taken_of(before, k);
                        assert(taken[a] == sent[a]);
                        assert(taken[sent.len() as int] == frame);
                        assert(may_precede(last, (event_of(frame)->0, k)));
                    }
                    if event_of(frame) is None {
                        assert(is_control(u.heads, k));
                        assert(u.heads[k] is Some);
                        assert(k == last.1);
                        assert(fresh.sent_of(events, k)[a] == sent[a]);
                        assert forall|j: int| 0 <= j < v.heads.len() && j != k && (
                        #[trigger] v.heads[j]) is Some implies event_of(v.heads[j]->0) is Some
                            && may_precede(last, (event_of(v.heads[j]->0)->0, j)) by {
                            assert(v.heads[j] == u.heads[j]);
                        }
                    }
                }
                if event_of(frame) is Some {
                    let e = event_of(frame)->0;
                    assert(!is_control(u.heads, k));
                    assert(now == had.push((e, k)));
                    let sent = fresh.sent_of(events, k);
                    assert(event_of(sent[sent.len() - 1]) == Some(e));
                    assert forall|j: int| 0 <= j < v.heads.len() && j != k && (
                    #[trigger] v.heads[j]) is Some implies event_of(v.heads[j]->0) is Some
                        && may_precede((e, k), (event_of(v.heads[j]->0)->0, j)) by {
                        assert(v.heads[j] == u.heads[j]);
                        assert(!is_control(u.heads, j));
                    }
                    if had.len() > 0 {
                        assert(u.heads[k] is Some);
                        assert(may_precede(had.last(), (e, k)));
                    }
                    assert forall|a: int, b: int| 0 <= a < b < now.len() implies may_precede(
                        #[trigger] now[a],
                        #[trigger] now[b],
                    ) by {
                        assert(now[a] == had[a]);
                        if b < had.len() {
                            assert(now[b] == had[b]);
                        } else if a < had.len() - 1 {
                            assert(may_precede(had[a], had[had.len() - 1]));
                        }
                    }
                }
            },
        }
    }
}

/// Where the frames of each file come in the order of their events, so do all that are sent: the
/// data frames of all files are sent by event, and those of one event by the position of their
/// file.
pub proof fn law_a_merge_is_in_order(files: nat, events: Seq<MergeEvent>)
    requires
        MergeView::fresh(files).meets_all(events),
        forall|j: int|
            0 <= j < files ==> in_event_order(#[trigger] MergeView::fresh(files).taken_of(events, j)),
    ensures
        forall|a: int, b: int|
            0 <= a < b < MergeView::fresh(files).order_of(events).len() ==> may_precede(
                #[trigger] MergeView::fresh(files).order_of(events)[a],
                #[trigger] MergeView::fresh(files).order_of(events)[b],
            ),
{
    lemma_what_is_sent_is_past(files, events);
}

/// Sends the frames of several files in the order of their events.
pub struct Merge {
    sources: Vec<FrameSource>,
    heads: Vec<Option<Vec<u8>>>,
    primed: usize,
    refill: Option<usize>,
    leftovers: Vec<usize>,
}

impl View for Merge {
    type V = MergeView;

    closed spec fn view(&self) -> MergeView {
        MergeView {
            sources: self.sources@.map_values(|s: FrameSource| s@),
            heads: head_views(self.heads@),
            primed: self.primed as int,
            refill: match self.refill {
                Some(i) => Some(i as int),
                None => None,
            },
            leftovers: self.leftovers@.map_values(|n: usize| n as nat),
        }
    }
}

impl Merge {
    /// Whether the parts of this value fit together.
    pub closed spec fn wf(&self) -> bool {
        &&& self.heads@.len() == self.sources@.len()
        &&& self.leftovers@.len() == self.sources@.len()
        &&& self.primed <= self.sources@.len()
        &&& self.refill matches Some(i) ==> i < self.sources@.len()
        &&& forall|i: int| 0 <= i < self.sources@.len() ==> (#[trigger] self.sources@[i]).wf()
    }

    /// A merge of so many files of which nothing is read.
    pub fn new(files: usize) -> (merge: Self)
        ensures
            merge.wf(),
            merge@ == MergeView::fresh(files as nat),
    {
        let mut sources: Vec<FrameSource> = Vec::new();
        let mut heads: Vec<Option<Vec<u8>>> = Vec::new();
        let mut leftovers: Vec<usize> = Vec::new();
        while sources.len() < files
            invariant
                sources@.len() <= files,
                heads@.len() == sources@.len(),
                leftovers@.len() == sources@.len(),
                forall|i: int|
                    0 <= i < sources@.len() ==> (#[trigger] sources@[i]).wf() && sources@[i]@ == (
                    SourceView { pending: Seq::empty(), eof: false, resets: 0 }),
                forall|i: int| 0 <= i < heads@.len() ==> (#[trigger] heads@[i]) is None,
                forall|i: int| 0 <= i < leftovers@.len() ==> #[trigger] leftovers@[i] == 0,
            decreases files - sources@.len(),
        {
            sources.push(FrameSource::new());
            heads.push(None);
            leftovers.push(0);
        }
        let merge = Merge { sources, heads, primed: 0, refill: None, leftovers };
        let ghost fresh = MergeView::fresh(files as nat);
        assert(merge@.sources =~= fresh.sources);
        assert(merge@.heads =~= fresh.heads);
        assert(merge@.leftovers =~= fresh.leftovers);
        merge
    }

    /// What the merge does next.
    pub fn step(&self) -> (step: MergeStep)
        requires
            self.wf(),
        ensures
            self@.is_next(step),
    {
        if self.primed < self.sources.len() {
            return MergeStep::Read(self.primed);
        }
        if let Some(i) = self.refill {
            return MergeStep::Read(i);
        }
        match pick(&self.heads) {
            Some(i) => MergeStep::Emit(i),
            None => MergeStep::Finish,
        }
    }

    fn fill(&mut self, i: usize)
        requires
            old(self).wf(),
            i < old(self)@.sources.len(),
            old(self)@.sources[i as int].resets < u64::MAX,
            old(self)@.primed < old(self)@.sources.len() ==> i == old(self)@.primed,
        ensures
            final(self).wf(),
            final(self)@ == old(self)@.filled(i as int),
    {
        let ghost before = self@;
        let mut source: FrameSource = self.sources.remove(i);
        assert(before.sources[i as int] == source@);
        let step: SourceStep = source.next_frame();
        self.sources.insert(i, source);
        assert(self@.sources =~= before.filled(i as int).sources);
        let priming: bool = self.primed < self.sources.len();
        match step {
            SourceStep::Frame(frame) => {
                self.heads.set(i, Some(frame));
                if priming {
                    self.primed = self.primed + 1;
                }
                self.refill = None;
            },
            SourceStep::Read => {
                self.heads.set(i, None);
                self.refill = if priming {
                    None
                } else {
                    Some(i)
                };
            },
            SourceStep::End(n) => {
                self.heads.set(i, None);
                self.leftovers.set(i, n);
                if priming {
                    self.primed = self.primed + 1;
                }
                self.refill = None;
            },
        }
        assert(self@.heads =~= before.filled(i as int).heads);
        assert(self@.leftovers =~= before.filled(i as int).leftovers);
    }

    /// Takes more of the file that is to be read. That nothing came means that it is at its end.
    pub fn feed(&mut self, data: &[u8])
        requires
            old(self).wf(),
            old(self)@.wanting() is Some,
            old(self)@.sources[old(self)@.wanting()->0].resets < u64::MAX,
        ensures
            final(self).wf(),
            final(self)@ == old(self)@.fed(data@),
    {
        let i: usize = if self.primed < self.sources.len() {
            self.primed
        } else {
            match self.refill {
                Some(i) => i,
                None => 0,
            }
        };
        let ghost before = self@;
        let mut source: FrameSource = self.sources.remove(i);
        assert(before.sources[i as int] == source@);
        source.feed(data);
        self.sources.insert(i, source);
        assert(self@.sources =~= before.sources.update(i as int, source@));
        self.fill(i);
    }

    /// Takes the frame at the head of a file, which is then asked for its next.
    pub fn emit(&mut self, i: usize) -> (frame: Vec<u8>)
        requires
            old(self).wf(),
            old(self)@.wanting() is None,
            is_pick(old(self)@.heads, i as int),
            old(self)@.sources[i as int].resets < u64::MAX,
        ensures
            final(self).wf(),
            Some(frame@) == old(self)@.heads[i as int],
            final(self)@ == old(self)@.filled(i as int),
    {
        assert(self@.heads[i as int] == match self.heads@[i as int] {
            Some(f) => Some(f@),
            None => None,
        });
        let frame: Vec<u8> = match &self.heads[i] {
            Some(f) => copy_bytes(f.as_slice()),
            None => Vec::new(),
        };
        self.fill(i);
        frame
    }

    /// Whether a file may be asked for frames: corrupt headers can still be counted.
    pub fn can_fill(&self, i: usize) -> (r: bool)
        requires
            self.wf(),
            i < self@.sources.len(),
        ensures
            r == (self@.sources[i as int].resets < u64::MAX),
    {
        self.sources[i].resets() < u64::MAX
    }

    /// How many bytes at the end of a file are no complete frame.
    pub fn leftover(&self, i: usize) -> (n: usize)
        requires
            self.wf(),
            i < self@.sources.len(),
        ensures
            n == self@.leftovers[i as int],
    {
        self.leftovers[i]
    }
}

} // verus!
