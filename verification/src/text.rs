//! Text as sequences of characters: decimal and hexadecimal numbers, lines and words.

use vstd::prelude::*;

verus! {

/// `String::push` of the standard library: appends one character to the end of the string.
pub assume_specification[ String::push ](s: &mut String, c: char)
    ensures
        final(s)@ == old(s)@.push(c),
;

/// The characters of `s`.
pub fn chars_of(s: &str) -> (out: Vec<char>)
    ensures
        out@ == s@,
{
    let mut out: Vec<char> = Vec::new();
    let mut rest = s.chars();
    loop
        invariant_except_break
            out@ + vstd::std_specs::iter::IteratorSpec::remaining(&rest) == s@,
            vstd::std_specs::iter::IteratorSpec::decrease(&rest) is Some,
        ensures
            out@ == s@,
        decreases vstd::std_specs::iter::IteratorSpec::decrease(&rest)->0,
    {
        match rest.next() {
            Some(c) => {
                out.push(c);
            },
            None => {
                assert(vstd::std_specs::iter::IteratorSpec::remaining(&rest) =~= Seq::empty());
                break;
            },
        }
    }
    out
}

/// The string of `chars`.
pub fn string_of(chars: &[char]) -> (s: String)
    ensures
        s@ == chars@,
{
    let mut s: String = String::new();
    let mut i: usize = 0;
    while i < chars.len()
        invariant
            i <= chars@.len(),
            s@ == chars@.take(i as int),
        decreases chars@.len() - i,
    {
        s.push(chars[i]);
        i = i + 1;
    }
    assert(chars@.take(i as int) =~= chars@);
    s
}

/// Whether two strings hold the same characters.
pub fn same(a: &str, b: &str) -> (r: bool)
    ensures
        r == (a@ == b@),
{
    let x: Vec<char> = chars_of(a);
    let y: Vec<char> = chars_of(b);
    if x.len() != y.len() {
        return false;
    }
    let mut i: usize = 0;
    while i < x.len()
        invariant
            x@ == a@,
            y@ == b@,
            x@.len() == y@.len(),
            i <= x@.len(),
            x@.take(i as int) == y@.take(i as int),
        decreases x@.len() - i,
    {
        if x[i] != y[i] {
            return false;
        }
        assert(x@.take(i + 1) =~= x@.take(i as int).push(x@[i as int]));
        assert(y@.take(i + 1) =~= y@.take(i as int).push(y@[i as int]));
        i = i + 1;
    }
    assert(x@.take(i as int) =~= x@);
    assert(y@.take(i as int) =~= y@);
    true
}

// ---------------------------------------------------------------------
// Numbers
// ---------------------------------------------------------------------

/// The character of a decimal digit.
pub open spec fn digit_char(d: nat) -> char {
    (48 + d) as char
}

/// Whether `c` is a decimal digit.
pub open spec fn is_digit(c: char) -> bool {
    '0' <= c <= '9'
}

/// `n` in decimal, without leading zeros.
pub open spec fn decimal(n: nat) -> Seq<char>
    decreases n,
{
    if n < 10 {
        seq![digit_char(n)]
    } else {
        decimal(n / 10).push(digit_char(n % 10))
    }
}

/// `n` in decimal, with leading zeros up to `width` characters.
pub open spec fn padded(n: nat, width: nat) -> Seq<char> {
    let d = decimal(n);
    if d.len() >= width {
        d
    } else {
        Seq::new((width - d.len()) as nat, |i: int| '0') + d
    }
}

/// The number that a sequence of digits stands for.
pub open spec fn digits_value(s: Seq<char>) -> nat
    decreases s.len(),
{
    if s.len() == 0 {
        0
    } else {
        (digits_value(s.drop_last()) * 10 + (s.last() as int - 48)) as nat
    }
}

/// The digits of a number as it is written: without the plus sign that may precede them.
pub open spec fn unsigned_digits(s: Seq<char>) -> Seq<char> {
    if s.len() > 0 && s[0] == '+' {
        s.drop_first()
    } else {
        s
    }
}

/// The number that `s` stands for, if it is at least one decimal digit, with or without a plus
/// sign before it.
pub open spec fn unsigned(s: Seq<char>) -> Option<nat> {
    let d = unsigned_digits(s);
    if d.len() > 0 && forall|i: int| 0 <= i < d.len() ==> is_digit(#[trigger] d[i]) {
        Some(digits_value(d))
    } else {
        None
    }
}

/// The number that `s` stands for, if it is one and is at most `max`.
pub open spec fn unsigned_upto(s: Seq<char>, max: nat) -> Option<nat> {
    match unsigned(s) {
        Some(n) if n <= max => Some(n),
        _ => None,
    }
}

/// Reading back a number that was written in decimal gives the number.
pub proof fn law_decimal_round_trip(n: nat)
    ensures
        unsigned(decimal(n)) == Some(n),
{
    lemma_decimal(n);
    let d = decimal(n);
    assert(is_digit(d[0]));
    assert(unsigned_digits(d) == d);
}

proof fn lemma_decimal(n: nat)
    ensures
        decimal(n).len() > 0,
        forall|i: int| 0 <= i < decimal(n).len() ==> is_digit(#[trigger] decimal(n)[i]),
        digits_value(decimal(n)) == n,
    decreases n,
{
    reveal_with_fuel(digits_value, 2);
    if n < 10 {
        assert(decimal(n).drop_last() =~= Seq::empty());
    } else {
        lemma_decimal(n / 10);
        assert(decimal(n).drop_last() =~= decimal(n / 10));
        assert(decimal(n).last() == digit_char(n % 10));
    }
}

/// Two numbers that are written alike are the same number.
pub proof fn law_decimal_is_injective(a: nat, b: nat)
    requires
        decimal(a) == decimal(b),
    ensures
        a == b,
{
    law_decimal_round_trip(a);
    law_decimal_round_trip(b);
}

/// Appends `n` in decimal.
pub fn push_decimal(out: &mut String, n: u64)
    ensures
        final(out)@ == old(out)@ + decimal(n as nat),
    decreases n,
{
    if n >= 10 {
        push_decimal(out, n / 10);
    }
    out.push((48u8 + (n % 10) as u8) as char);
    assert(out@ =~= old(out)@ + decimal(n as nat));
}

/// Appends `n`, which may be longer than a word of the machine, in decimal.
pub fn push_wide_decimal(out: &mut String, n: u128)
    ensures
        final(out)@ == old(out)@ + decimal(n as nat),
    decreases n,
{
    if n >= 10 {
        push_wide_decimal(out, n / 10);
    }
    out.push((48u8 + (n % 10) as u8) as char);
    assert(out@ =~= old(out)@ + decimal(n as nat));
}

/// `n` in decimal.
pub fn decimal_string(n: u64) -> (s: String)
    ensures
        s@ == decimal(n as nat),
{
    let mut s: String = String::new();
    push_decimal(&mut s, n);
    assert(s@ =~= decimal(n as nat));
    s
}

/// `n` in decimal, with a minus sign where it is negative.
pub open spec fn signed_decimal(n: int) -> Seq<char> {
    if n < 0 {
        seq!['-'] + decimal((-n) as nat)
    } else {
        decimal(n as nat)
    }
}

/// Appends `n` in decimal, with a minus sign where it is negative.
pub fn push_signed(out: &mut String, n: i32)
    ensures
        final(out)@ == old(out)@ + signed_decimal(n as int),
{
    if n < 0 {
        out.push('-');
        push_decimal(out, (-(n as i64)) as u64);
        assert(out@ =~= old(out)@ + signed_decimal(n as int));
    } else {
        push_decimal(out, n as u64);
    }
}

/// Appends `n` in decimal, with leading zeros up to `width` characters.
pub fn push_padded(out: &mut String, n: u64, width: usize)
    ensures
        final(out)@ == old(out)@ + padded(n as nat, width as nat),
{
    let digits: String = decimal_string(n);
    let d: Vec<char> = chars_of(digits.as_str());
    let mut have: usize = d.len();
    let ghost before = out@;
    while have < width
        invariant
            d@ == decimal(n as nat),
            d@.len() <= have,
            d@.len() <= width ==> have <= width,
            d@.len() >= width ==> have == d@.len(),
            out@ == before + Seq::new((have - d@.len()) as nat, |i: int| '0'),
        decreases width - have,
    {
        out.push('0');
        have = have + 1;
        assert(out@ =~= before + Seq::new((have - d@.len()) as nat, |i: int| '0'));
    }
    out.append(digits.as_str());
    assert(out@ =~= before + padded(n as nat, width as nat));
}

/// The number that `s` stands for, if it is one and is at most `max`.
pub fn parse_unsigned(s: &[char], max: u64) -> (n: Option<u64>)
    ensures
        n == match unsigned_upto(s@, max as nat) {
            Some(v) => Some(v as u64),
            None => None::<u64>,
        },
{
    let start: usize = if s.len() > 0 && s[0] == '+' {
        1
    } else {
        0
    };
    let ghost d = unsigned_digits(s@);
    assert(d =~= s@.skip(start as int));
    if start == s.len() {
        return None;
    }
    let mut value: u64 = 0;
    let mut over: bool = false;
    let mut i: usize = start;
    assert(d.take(0) =~= Seq::empty());
    while i < s.len()
        invariant
            d == unsigned_digits(s@),
            d == s@.skip(start as int),
            start <= i <= s@.len(),
            forall|k: int| 0 <= k < i - start ==> is_digit(#[trigger] d[k]),
            !over ==> value == digits_value(d.take(i - start)) && value <= max,
            over ==> digits_value(d.take(i - start)) > max,
        decreases s@.len() - i,
    {
        let c: char = s[i];
        assert(c == d[i - start]);
        if !('0' <= c && c <= '9') {
            assert(!is_digit(d[i - start]));
            return None;
        }
        proof {
            assert(d.take(i - start + 1).drop_last() =~= d.take(i - start));
            assert(d.take(i - start + 1).last() == c);
        }
        let digit: u64 = (c as u32 - 48) as u64;
        if !over {
            if digit > max || value > (max - digit) / 10 {
                over = true;
                assert(value * 10 + digit > max);
            } else {
                value = value * 10 + digit;
            }
        }
        i = i + 1;
    }
    assert(d.take(i - start) =~= d);
    if over {
        None
    } else {
        Some(value)
    }
}

/// The lower-case hexadecimal digit of `d`.
pub open spec fn hex_char(d: nat) -> char {
    if d < 10 {
        digit_char(d)
    } else {
        (87 + d) as char
    }
}

/// `n` in lower-case hexadecimal digits, without leading zeros.
pub open spec fn hexadecimal(n: nat) -> Seq<char>
    decreases n,
{
    if n < 16 {
        seq![hex_char(n)]
    } else {
        hexadecimal(n / 16).push(hex_char(n % 16))
    }
}

/// The digit that a hexadecimal character stands for.
pub open spec fn hex_value(c: char) -> nat {
    if is_digit(c) {
        (c as int - 48) as nat
    } else {
        (c as int - 87) as nat
    }
}

/// Numbers that are written alike in hexadecimal digits are the same.
pub proof fn law_hexadecimal_is_injective(a: nat, b: nat)
    requires
        hexadecimal(a) == hexadecimal(b),
    ensures
        a == b,
    decreases a + b,
{
    lemma_hexadecimal(a);
    lemma_hexadecimal(b);
    let x = hexadecimal(a);
    let y = hexadecimal(b);
    assert(hex_value(x.last()) == a % 16);
    assert(hex_value(y.last()) == b % 16);
    if a >= 16 && b >= 16 {
        assert(x.drop_last() =~= hexadecimal(a / 16));
        assert(y.drop_last() =~= hexadecimal(b / 16));
        law_hexadecimal_is_injective(a / 16, b / 16);
    } else if a >= 16 {
        lemma_hexadecimal(a / 16);
        assert(x.len() > 1);
    } else if b >= 16 {
        lemma_hexadecimal(b / 16);
        assert(y.len() > 1);
    }
}

proof fn lemma_hexadecimal(n: nat)
    ensures
        hexadecimal(n).len() > 0,
        !hexadecimal(n).contains('-'),
        hex_value(hexadecimal(n).last()) == n % 16,
    decreases n,
{
    if n >= 16 {
        lemma_hexadecimal(n / 16);
        let front = hexadecimal(n / 16);
        assert forall|i: int| 0 <= i < hexadecimal(n).len() implies hexadecimal(n)[i] != '-' by {
            if i < front.len() {
                assert(front.contains(front[i]));
            }
        }
    }
}

/// Numbers written in hexadecimal digits hold no hyphen.
pub proof fn law_hexadecimal_holds_no_hyphen(n: nat)
    ensures
        !hexadecimal(n).contains('-'),
{
    lemma_hexadecimal(n);
}

/// Appends `n` in lower-case hexadecimal digits.
pub fn push_hexadecimal(out: &mut String, n: u128)
    ensures
        final(out)@ == old(out)@ + hexadecimal(n as nat),
    decreases n,
{
    if n >= 16 {
        push_hexadecimal(out, n / 16);
    }
    out.push(hex_digit((n % 16) as u8));
    assert(out@ =~= old(out)@ + hexadecimal(n as nat));
}

/// Two lower-case hexadecimal digits for each byte.
pub open spec fn hex(s: Seq<u8>) -> Seq<char>
    decreases s.len(),
{
    if s.len() == 0 {
        Seq::empty()
    } else {
        hex(s.drop_last()).push(hex_char((s.last() / 16) as nat)).push(
            hex_char((s.last() % 16) as nat),
        )
    }
}

/// The character of a hexadecimal digit.
fn hex_digit(d: u8) -> (c: char)
    requires
        d < 16,
    ensures
        c == hex_char(d as nat),
{
    if d < 10 {
        (48u8 + d) as char
    } else {
        (87u8 + d) as char
    }
}

/// Two lower-case hexadecimal digits for each byte.
pub fn hex_string(data: &[u8]) -> (s: String)
    ensures
        s@ == hex(data@),
        s@.len() == 2 * data@.len(),
{
    let mut s: String = String::new();
    let mut i: usize = 0;
    assert(data@.take(0) =~= Seq::empty());
    while i < data.len()
        invariant
            i <= data@.len(),
            s@ == hex(data@.take(i as int)),
            s@.len() == 2 * i,
        decreases data@.len() - i,
    {
        assert(data@.take(i + 1).drop_last() =~= data@.take(i as int));
        s.push(hex_digit(data[i] / 16));
        s.push(hex_digit(data[i] % 16));
        i = i + 1;
    }
    assert(data@.take(i as int) =~= data@);
    s
}

// ---------------------------------------------------------------------
// Lines and words
// ---------------------------------------------------------------------

/// Whether `c` is white space: a character with Unicode's White_Space property.
pub open spec fn is_space(c: char) -> bool {
    ||| 0x9 <= c as int <= 0xD
    ||| c as int == 0x20
    ||| c as int == 0x85
    ||| c as int == 0xA0
    ||| c as int == 0x1680
    ||| 0x2000 <= c as int <= 0x200A
    ||| c as int == 0x2028
    ||| c as int == 0x2029
    ||| c as int == 0x202F
    ||| c as int == 0x205F
    ||| c as int == 0x3000
}

/// Whether `c` is white space.
pub fn is_white_space(c: char) -> (r: bool)
    ensures
        r == is_space(c),
{
    let n: u32 = c as u32;
    (0x9 <= n && n <= 0xD) || n == 0x20 || n == 0x85 || n == 0xA0 || n == 0x1680 || (0x2000 <= n
        && n <= 0x200A) || n == 0x2028 || n == 0x2029 || n == 0x202F || n == 0x205F || n == 0x3000
}

/// The words of `s`: the longest pieces without white space, in order.
pub open spec fn words(s: Seq<char>) -> Seq<Seq<char>>
    decreases s.len(),
{
    if s.len() == 0 {
        Seq::empty()
    } else if is_space(s.last()) {
        words(s.drop_last())
    } else {
        let start = last_word_start(s);
        if 0 <= start < s.len() {
            words(s.take(start)).push(s.skip(start))
        } else {
            Seq::empty()
        }
    }
}

/// Where the run of characters without white space at the end of `s` begins.
pub open spec fn last_word_start(s: Seq<char>) -> int
    decreases s.len(),
{
    if s.len() == 0 || is_space(s.last()) {
        s.len() as int
    } else {
        last_word_start(s.drop_last())
    }
}

proof fn lemma_last_word_start(s: Seq<char>)
    ensures
        0 <= last_word_start(s) <= s.len(),
        forall|i: int| last_word_start(s) <= i < s.len() ==> !is_space(#[trigger] s[i]),
        last_word_start(s) > 0 ==> is_space(s[last_word_start(s) - 1]),
        s.len() > 0 && !is_space(s.last()) ==> last_word_start(s) < s.len(),
    decreases s.len(),
{
    if s.len() > 0 && !is_space(s.last()) {
        let front = s.drop_last();
        lemma_last_word_start(front);
        assert forall|i: int| last_word_start(s) <= i < s.len() implies !is_space(
            #[trigger] s[i],
        ) by {
            if i < front.len() {
                assert(front[i] == s[i]);
            }
        }
    }
}

/// No word is empty and none holds white space.
pub proof fn law_words_hold_no_space(s: Seq<char>, w: int)
    requires
        0 <= w < words(s).len(),
    ensures
        words(s)[w].len() > 0,
        forall|i: int| 0 <= i < words(s)[w].len() ==> !is_space(#[trigger] words(s)[w][i]),
    decreases s.len(),
{
    if s.len() > 0 {
        if is_space(s.last()) {
            law_words_hold_no_space(s.drop_last(), w);
        } else {
            lemma_last_word_start(s);
            let start = last_word_start(s);
            if w < words(s).len() - 1 {
                law_words_hold_no_space(s.take(start), w);
            }
        }
    }
}

/// The words of `s`.
pub fn split_words(s: &[char]) -> (out: Vec<Vec<char>>)
    ensures
        out@.len() == words(s@).len(),
        forall|i: int| 0 <= i < out@.len() ==> (#[trigger] out@[i])@ == words(s@)[i],
{
    let mut out: Vec<Vec<char>> = Vec::new();
    let mut word: Vec<char> = Vec::new();
    let mut i: usize = 0;
    let ghost mut start: int = 0;
    assert(s@.take(0) =~= Seq::empty());
    while i < s.len()
        invariant
            0 <= start <= i <= s@.len(),
            start == last_word_start(s@.take(i as int)),
            word@ == s@.subrange(start, i as int),
            out@.len() == words(s@.take(start)).len(),
            forall|k: int|
                0 <= k < out@.len() ==> (#[trigger] out@[k])@ == words(s@.take(start))[k],
        decreases s@.len() - i,
    {
        let c: char = s[i];
        let ghost now = s@.take(i as int);
        let ghost next = s@.take(i + 1);
        assert(next.drop_last() =~= now);
        assert(next.last() == c);
        proof {
            lemma_last_word_start(now);
        }
        if is_white_space(c) {
            if word.len() > 0 {
                proof {
                    assert(now.len() > 0 && !is_space(now.last()));
                    assert(now.skip(start) =~= word@);
                    assert(now.take(start) =~= s@.take(start));
                    assert(words(now) == words(s@.take(start)).push(word@));
                }
                out.push(word);
                word = Vec::new();
            } else {
                assert(start == i);
                assert(s@.take(start) =~= now);
            }
            proof {
                start = i + 1;
                assert(words(next) == words(now));
                assert(s@.take(start) =~= next);
            }
            assert(word@ =~= s@.subrange(start, i + 1));
        } else {
            word.push(c);
            assert(word@ =~= s@.subrange(start, i + 1));
        }
        i = i + 1;
    }
    assert(s@.take(i as int) =~= s@);
    proof {
        lemma_last_word_start(s@);
    }
    if word.len() > 0 {
        assert(s@.skip(start) =~= word@);
        out.push(word);
    } else {
        assert(s@.take(start) =~= s@);
    }
    out
}

/// `s` without the white space at its ends.
pub open spec fn trimmed(s: Seq<char>) -> Seq<char>
    decreases s.len(),
{
    if s.len() == 0 {
        s
    } else if is_space(s.first()) {
        trimmed(s.drop_first())
    } else if is_space(s.last()) {
        trimmed(s.drop_last())
    } else {
        s
    }
}

/// `s` without the white space at its ends.
pub fn trim(s: &[char]) -> (out: &[char])
    ensures
        out@ == trimmed(s@),
{
    let mut from: usize = 0;
    let mut to: usize = s.len();
    assert(s@.subrange(0, to as int) =~= s@);
    while from < to && is_white_space(s[from])
        invariant
            from <= to == s@.len(),
            trimmed(s@.subrange(from as int, to as int)) == trimmed(s@),
        decreases to - from,
    {
        assert(s@.subrange(from as int, to as int).drop_first() =~= s@.subrange(
            from + 1,
            to as int,
        ));
        from = from + 1;
    }
    while from < to && is_white_space(s[to - 1])
        invariant
            from <= to <= s@.len(),
            from < to ==> !is_space(s@[from as int]),
            trimmed(s@.subrange(from as int, to as int)) == trimmed(s@),
        decreases to - from,
    {
        assert(s@.subrange(from as int, to as int).drop_last() =~= s@.subrange(
            from as int,
            to - 1,
        ));
        to = to - 1;
    }
    &s[from..to]
}

/// The first position at which `c` stands in `s`, or the length of `s`.
pub open spec fn first_at(s: Seq<char>, c: char) -> int
    decreases s.len(),
{
    if s.len() == 0 || s.first() == c {
        0
    } else {
        1 + first_at(s.drop_first(), c)
    }
}

/// A line without the carriage return that may end it.
pub open spec fn without_cr(s: Seq<char>) -> Seq<char> {
    if s.len() > 0 && s.last() == '\r' {
        s.drop_last()
    } else {
        s
    }
}

/// The lines of `s`. A line ends at a line feed, or at a carriage return and a line feed; the
/// last line need not end.
pub open spec fn lines(s: Seq<char>) -> Seq<Seq<char>>
    decreases s.len(),
{
    if s.len() == 0 {
        Seq::empty()
    } else {
        let n = first_at(s, '\n');
        if 0 <= n < s.len() {
            seq![without_cr(s.take(n))] + lines(s.skip(n + 1))
        } else {
            seq![s]
        }
    }
}

proof fn lemma_first_at(s: Seq<char>, c: char, n: int)
    requires
        0 <= n <= s.len(),
        forall|i: int| 0 <= i < n ==> s[i] != c,
        n == s.len() || s[n] == c,
    ensures
        first_at(s, c) == n,
    decreases s.len(),
{
    if n > 0 {
        assert forall|i: int| 0 <= i < n - 1 implies s.drop_first()[i] != c by {
            assert(s[i + 1] != c);
        }
        lemma_first_at(s.drop_first(), c, n - 1);
    }
}

/// The lines of `s`.
pub fn split_lines(s: &[char]) -> (out: Vec<Vec<char>>)
    ensures
        out@.len() == lines(s@).len(),
        forall|i: int| 0 <= i < out@.len() ==> (#[trigger] out@[i])@ == lines(s@)[i],
{
    let mut out: Vec<Vec<char>> = Vec::new();
    let mut start: usize = 0;
    let mut i: usize = 0;
    let ghost mut done: Seq<Seq<char>> = Seq::empty();
    assert(s@.skip(0) =~= s@);
    assert(done + lines(s@) =~= lines(s@));
    while i < s.len()
        invariant
            start <= i <= s@.len(),
            forall|k: int| start <= k < i ==> s@[k] != '\n',
            done + lines(s@.skip(start as int)) == lines(s@),
            out@.len() == done.len(),
            forall|k: int| 0 <= k < out@.len() ==> (#[trigger] out@[k])@ == done[k],
        decreases s@.len() - i,
    {
        if s[i] == '\n' {
            let ghost rest = s@.skip(start as int);
            proof {
                lemma_first_at(rest, '\n', i - start);
                assert(rest.take(i - start) =~= s@.subrange(start as int, i as int));
                assert(rest.skip(i - start + 1) =~= s@.skip(i + 1));
            }
            let end: usize = if i > start && s[i - 1] == '\r' {
                i - 1
            } else {
                i
            };
            let line: Vec<char> = to_vec(&s[start..end]);
            proof {
                assert(line@ =~= without_cr(rest.take(i - start)));
                let more = lines(s@.skip(i + 1));
                assert(done.push(line@) + more =~= done + (seq![line@] + more));
                done = done.push(line@);
            }
            out.push(line);
            start = i + 1;
        }
        i = i + 1;
    }
    let ghost rest = s@.skip(start as int);
    if start < s.len() {
        proof {
            lemma_first_at(rest, '\n', rest.len() as int);
        }
        let line: Vec<char> = to_vec(&s[start..s.len()]);
        proof {
            assert(line@ =~= rest);
            assert(lines(s@) =~= done.push(line@));
        }
        out.push(line);
    } else {
        assert(rest =~= Seq::empty());
        assert(lines(s@) =~= done);
    }
    out
}

/// The lines with a line feed behind each.
pub open spec fn lined(parts: Seq<Seq<char>>) -> Seq<char>
    decreases parts.len(),
{
    if parts.len() == 0 {
        Seq::empty()
    } else {
        parts.first().push('\n') + lined(parts.drop_first())
    }
}

/// Lines that were written are read back, where none of them holds a line feed or ends in a
/// carriage return.
pub proof fn law_written_lines_are_read_back(parts: Seq<Seq<char>>)
    requires
        forall|i: int|
            0 <= i < parts.len() ==> !(#[trigger] parts[i]).contains('\n') && without_cr(parts[i])
                == parts[i],
    ensures
        lines(lined(parts)) == parts,
    decreases parts.len(),
{
    if parts.len() > 0 {
        let rest = parts.drop_first();
        assert forall|i: int| 0 <= i < rest.len() implies !(#[trigger] rest[i]).contains('\n')
            && without_cr(rest[i]) == rest[i] by {
            assert(rest[i] == parts[i + 1]);
        }
        law_written_lines_are_read_back(rest);
        let first = parts[0];
        let s = lined(parts);
        let n = first.len() as int;
        assert(s[n] == '\n');
        assert forall|i: int| 0 <= i < n implies s[i] != '\n' by {
            assert(s[i] == first[i]);
        }
        lemma_first_at(s, '\n', n);
        assert(s.take(n) =~= first);
        assert(s.skip(n + 1) =~= lined(rest));
        assert(lines(s) =~= seq![first] + rest);
        assert(seq![first] + rest =~= parts);
    }
}

/// A copy of `s`.
pub fn to_vec(s: &[char]) -> (out: Vec<char>)
    ensures
        out@ == s@,
{
    let mut out: Vec<char> = Vec::new();
    let mut i: usize = 0;
    while i < s.len()
        invariant
            i <= s@.len(),
            out@ == s@.take(i as int),
        decreases s@.len() - i,
    {
        out.push(s[i]);
        i = i + 1;
    }
    assert(s@.take(i as int) =~= s@);
    out
}

/// Whether `s` begins with `prefix`.
pub open spec fn begins(s: Seq<char>, prefix: Seq<char>) -> bool {
    s.len() >= prefix.len() && s.take(prefix.len() as int) == prefix
}

/// Whether `s` begins with `prefix`.
pub fn starts_with(s: &[char], prefix: &str) -> (r: bool)
    ensures
        r == begins(s@, prefix@),
{
    let p: Vec<char> = chars_of(prefix);
    if s.len() < p.len() {
        return false;
    }
    let mut i: usize = 0;
    while i < p.len()
        invariant
            p@ == prefix@,
            p@.len() <= s@.len(),
            i <= p@.len(),
            forall|k: int| 0 <= k < i ==> s@[k] == p@[k],
        decreases p@.len() - i,
    {
        if s[i] != p[i] {
            assert(s@.take(p@.len() as int)[i as int] != p@[i as int]);
            return false;
        }
        i = i + 1;
    }
    assert(s@.take(p@.len() as int) =~= p@);
    true
}

// ---------------------------------------------------------------------
// Decimal fractions
// ---------------------------------------------------------------------

/// How many digits follow one another in `s` from `from` on.
pub open spec fn digit_run(s: Seq<char>, from: int) -> int
    decreases s.len() - from,
{
    if 0 <= from < s.len() && is_digit(s[from]) {
        1 + digit_run(s, from + 1)
    } else {
        0
    }
}

/// `s` without the sign that may precede it.
pub open spec fn unsign(s: Seq<char>) -> Seq<char> {
    if s.len() > 0 && (s[0] == '+' || s[0] == '-') {
        s.drop_first()
    } else {
        s
    }
}

/// Whether `s` is an exponent: the letter e, then a sign or none, then digits.
pub open spec fn is_exponent(s: Seq<char>) -> bool {
    &&& s.len() > 0
    &&& s[0] == 'e' || s[0] == 'E'
    &&& unsign(s.drop_first()).len() > 0
    &&& digit_run(unsign(s.drop_first()), 0) == unsign(s.drop_first()).len()
}

/// Where the digits of `s`, with the point that may stand among them, end.
pub open spec fn fraction_end(s: Seq<char>) -> int {
    let whole = digit_run(s, 0);
    if whole < s.len() && s[whole] == '.' {
        whole + 1 + digit_run(s, whole + 1)
    } else {
        whole
    }
}

/// Whether `s` has digits before its exponent.
pub open spec fn has_digits(s: Seq<char>) -> bool {
    let whole = digit_run(s, 0);
    whole > 0 || (s.len() > 0 && s[0] == '.' && digit_run(s, 1) > 0)
}

/// The lower-case form of an ASCII letter.
pub open spec fn lower(c: char) -> char {
    if 'A' <= c <= 'Z' {
        (c as int + 32) as char
    } else {
        c
    }
}

/// Whether `s` is `word` in upper or lower case.
pub open spec fn is_word(s: Seq<char>, word: Seq<char>) -> bool {
    s.map_values(|c: char| lower(c)) == word
}

/// Whether `s` is a number as a decimal fraction is written: a sign or none; then digits, with a
/// point before, among or behind them or none, and an exponent or none; or one of the words inf,
/// infinity and nan in place of these.
pub open spec fn is_fraction(s: Seq<char>) -> bool {
    let body = unsign(s);
    ||| is_word(body, "inf"@)
    ||| is_word(body, "infinity"@)
    ||| is_word(body, "nan"@)
    ||| has_digits(body) && (fraction_end(body) == body.len() || is_exponent(
        body.skip(fraction_end(body)),
    ))
}

fn count_digits(s: &[char], from: usize) -> (n: usize)
    requires
        from <= s@.len(),
    ensures
        n == digit_run(s@, from as int),
        from + n <= s@.len(),
{
    let mut n: usize = 0;
    assert(s@.len() == s.len());
    while from + n < s.len() && '0' <= s[from + n] && s[from + n] <= '9'
        invariant
            from + n <= s@.len() <= usize::MAX,
            digit_run(s@, from as int) == n + digit_run(s@, from + n),
        decreases s@.len() - from - n,
    {
        n = n + 1;
    }
    n
}

fn to_lower(c: char) -> (r: char)
    ensures
        r == lower(c),
{
    if 'A' <= c && c <= 'Z' {
        (c as u8 + 32) as char
    } else {
        c
    }
}

fn equals_word(s: &[char], word: &str) -> (r: bool)
    ensures
        r == is_word(s@, word@),
{
    let w: Vec<char> = chars_of(word);
    let ghost small = s@.map_values(|c: char| lower(c));
    if s.len() != w.len() {
        assert(small.len() != word@.len());
        return false;
    }
    let mut i: usize = 0;
    while i < w.len()
        invariant
            w@ == word@,
            s@.len() == w@.len(),
            small == s@.map_values(|c: char| lower(c)),
            i <= w@.len(),
            forall|k: int| 0 <= k < i ==> small[k] == w@[k],
        decreases w@.len() - i,
    {
        if to_lower(s[i]) != w[i] {
            assert(small[i as int] != w@[i as int]);
            return false;
        }
        i = i + 1;
    }
    assert(small =~= w@);
    true
}

fn strip_sign(s: &[char]) -> (out: &[char])
    ensures
        out@ == unsign(s@),
{
    if s.len() > 0 && (s[0] == '+' || s[0] == '-') {
        let out = &s[1..s.len()];
        assert(out@ =~= s@.drop_first());
        out
    } else {
        s
    }
}

/// Whether `s` is a number as a decimal fraction is written.
pub fn is_decimal_fraction(s: &[char]) -> (r: bool)
    ensures
        r == is_fraction(s@),
{
    let body: &[char] = strip_sign(s);
    if equals_word(body, "inf") || equals_word(body, "infinity") || equals_word(body, "nan") {
        return true;
    }
    let whole: usize = count_digits(body, 0);
    let mut end: usize = whole;
    let mut digits: bool = whole > 0;
    if whole < body.len() && body[whole] == '.' {
        let part: usize = count_digits(body, whole + 1);
        digits = digits || part > 0;
        end = whole + 1 + part;
    }
    assert(end == fraction_end(body@));
    assert(digits == has_digits(body@));
    if !digits {
        return false;
    }
    if end == body.len() {
        return true;
    }
    let e: &[char] = &body[end..body.len()];
    assert(e@ =~= body@.skip(end as int));
    if !(e[0] == 'e' || e[0] == 'E') {
        return false;
    }
    let tail: &[char] = &e[1..e.len()];
    assert(tail@ =~= e@.drop_first());
    let power: &[char] = strip_sign(tail);
    power.len() > 0 && count_digits(power, 0) == power.len()
}

/// 10 to the power of `k`.
pub open spec fn pow10(k: nat) -> nat
    decreases k,
{
    if k == 0 {
        1
    } else {
        10 * pow10((k - 1) as nat)
    }
}

/// The digits of `s` before its exponent, without the point that may stand among them.
pub open spec fn mantissa(s: Seq<char>) -> Seq<char> {
    let whole = digit_run(s, 0);
    if whole < s.len() && s[whole] == '.' {
        s.take(whole) + s.subrange(whole + 1, fraction_end(s))
    } else {
        s.take(whole)
    }
}

/// The number of an exponent, and 0 where there is none.
pub open spec fn exponent(s: Seq<char>) -> int {
    if s.len() < 2 {
        0
    } else if s[1] == '-' {
        -digits_value(unsign(s.drop_first()))
    } else {
        digits_value(unsign(s.drop_first())) as int
    }
}

/// What stands before the point where it follows digit `point` of `digits`; zeros stand in for
/// digits that there are not.
pub open spec fn before_point(digits: Seq<char>, point: int) -> nat {
    if point <= 0 {
        0
    } else if point <= digits.len() {
        digits_value(digits.take(point))
    } else {
        digits_value(digits) * pow10((point - digits.len()) as nat)
    }
}

/// The whole part of a decimal fraction. A negative one counts as 0, and what is infinite or no
/// number has none.
pub open spec fn whole_part(s: Seq<char>) -> Option<nat> {
    let body = unsign(s);
    if !is_fraction(s) || is_word(body, "inf"@) || is_word(body, "infinity"@) || is_word(
        body,
        "nan"@,
    ) {
        None
    } else if s[0] == '-' {
        Some(0)
    } else {
        Some(
            before_point(
                mantissa(body),
                digit_run(body, 0) + exponent(body.skip(fraction_end(body))),
            ),
        )
    }
}

/// `n`, or `max` where it is larger.
pub open spec fn at_most(n: nat, max: nat) -> nat {
    if n < max {
        n
    } else {
        max
    }
}

spec fn all_digits(s: Seq<char>) -> bool {
    forall|i: int| 0 <= i < s.len() ==> is_digit(#[trigger] s[i])
}

proof fn lemma_digit_run(s: Seq<char>, from: int)
    requires
        0 <= from <= s.len(),
    ensures
        0 <= digit_run(s, from) <= s.len() - from,
        forall|i: int| from <= i < from + digit_run(s, from) ==> is_digit(#[trigger] s[i]),
    decreases s.len() - from,
{
    if from < s.len() && is_digit(s[from]) {
        lemma_digit_run(s, from + 1);
    }
}

proof fn lemma_digits_value_grows(d: Seq<char>, n: int)
    requires
        all_digits(d),
        0 <= n <= d.len(),
    ensures
        digits_value(d.take(n)) <= digits_value(d),
    decreases d.len(),
{
    if n < d.len() {
        assert(is_digit(d[d.len() - 1]));
        assert forall|i: int| 0 <= i < d.drop_last().len() implies is_digit(
            #[trigger] d.drop_last()[i],
        ) by {
            assert(d.drop_last()[i] == d[i]);
        }
        lemma_digits_value_grows(d.drop_last(), n);
        assert(d.drop_last().take(n) =~= d.take(n));
    } else {
        assert(d.take(n) =~= d);
    }
}

fn bounded_value(d: &[char], max: u128) -> (n: u128)
    requires
        all_digits(d@),
        max <= 0x2_0000_0000_0000_0000,
    ensures
        n == at_most(digits_value(d@), max as nat),
{
    let mut n: u128 = 0;
    let mut i: usize = 0;
    assert(d@.take(0) =~= Seq::empty());
    while i < d.len() && n < max
        invariant
            all_digits(d@),
            max <= 0x2_0000_0000_0000_0000,
            i <= d@.len(),
            n == at_most(digits_value(d@.take(i as int)), max as nat),
        decreases d@.len() - i,
    {
        assert(d@.take(i + 1).drop_last() =~= d@.take(i as int));
        assert(is_digit(d@[i as int]));
        let digit: u128 = (d[i] as u32 - 48) as u128;
        n = n * 10 + digit;
        if n > max {
            n = max;
        }
        i = i + 1;
    }
    proof {
        lemma_digits_value_grows(d@, i as int);
        if i == d@.len() {
            assert(d@.take(i as int) =~= d@);
        }
    }
    n
}

proof fn lemma_pow10(k: nat)
    ensures
        pow10(k) > k,
    decreases k,
{
    if k > 0 {
        lemma_pow10((k - 1) as nat);
    }
}

proof fn lemma_pow10_grows(v: nat, k: nat, more: nat)
    requires
        k <= more,
    ensures
        v * pow10(k) <= v * pow10(more),
    decreases more,
{
    if k < more {
        lemma_pow10_grows(v, k, (more - 1) as nat);
        let p = pow10((more - 1) as nat);
        assert(v * (10 * p) == 10 * (v * p)) by (nonlinear_arith);
    }
}

proof fn lemma_at_most_times(a: nat, p: nat, max: nat)
    requires
        p >= 1,
    ensures
        at_most(at_most(a, max) * p, max) == at_most(a * p, max),
{
    if a >= max {
        assert(a * p >= a) by (nonlinear_arith)
            requires
                p >= 1,
        ;
        assert(max * p >= max) by (nonlinear_arith)
            requires
                p >= 1,
        ;
    }
}

/// So many zeros that a power of ten with them is too large: their number does not matter.
proof fn lemma_many_zeros(a: nat, k: nat)
    requires
        k >= u64::MAX,
    ensures
        at_most(a * pow10(k), u64::MAX as nat) == at_most(
            a * pow10(u64::MAX as nat),
            u64::MAX as nat,
        ),
{
    let p = pow10(k);
    let q = pow10(u64::MAX as nat);
    lemma_pow10(k);
    lemma_pow10(u64::MAX as nat);
    if a == 0 {
        assert(a * p == 0 && a * q == 0) by (nonlinear_arith)
            requires
                a == 0,
        ;
    } else {
        assert(a * p >= p && a * q >= q) by (nonlinear_arith)
            requires
                a >= 1,
        ;
    }
}

/// `v` with so many zeros appended, or the largest number where that is larger.
fn with_zeros(v: u64, zeros: u64) -> (n: u64)
    ensures
        n == at_most(v as nat * pow10(zeros as nat), u64::MAX as nat),
{
    let mut n: u64 = v;
    let mut k: u64 = 0;
    proof {
        let one = pow10(0);
        assert(v as nat * one == v) by (nonlinear_arith)
            requires
                one == 1,
        ;
    }
    while k < zeros && n != 0 && n != u64::MAX
        invariant
            k <= zeros,
            n == at_most(v as nat * pow10(k as nat), u64::MAX as nat),
        decreases zeros - k,
    {
        proof {
            let p = pow10(k as nat);
            assert(v as nat * (10 * p) == 10 * (v as nat * p)) by (nonlinear_arith);
        }
        match n.checked_mul(10) {
            Some(m) => {
                n = m;
            },
            None => {
                n = u64::MAX;
            },
        }
        k = k + 1;
    }
    proof {
        lemma_pow10_grows(v as nat, k as nat, zeros as nat);
        if n == 0 {
            let p = pow10(k as nat);
            lemma_pow10(k as nat);
            assert(v == 0) by (nonlinear_arith)
                requires
                    v as nat * p == 0,
                    p > 0,
            ;
            let q = pow10(zeros as nat);
            assert(v as nat * q == 0) by (nonlinear_arith)
                requires
                    v == 0,
            ;
        }
    }
    n
}

fn push_chars(out: &mut Vec<char>, s: &[char])
    ensures
        final(out)@ == old(out)@ + s@,
{
    let mut i: usize = 0;
    assert(s@.take(0) =~= Seq::empty());
    assert(out@ =~= old(out)@ + s@.take(0));
    while i < s.len()
        invariant
            i <= s@.len(),
            out@ == old(out)@ + s@.take(i as int),
        decreases s@.len() - i,
    {
        out.push(s[i]);
        i = i + 1;
        assert(out@ =~= old(out)@ + s@.take(i as int));
    }
    assert(s@.take(i as int) =~= s@);
}

fn value_before_point(digits: &[char], whole: usize, back: bool, power: &[char]) -> (n: u64)
    requires
        all_digits(digits@),
        all_digits(power@),
        whole <= digits@.len(),
    ensures
        n == at_most(
            before_point(
                digits@,
                whole + if back {
                    -digits_value(power@)
                } else {
                    digits_value(power@) as int
                },
            ),
            u64::MAX as nat,
        ),
{
    let ghost e = digits_value(power@);
    let shift: u128 = bounded_value(power, 0x2_0000_0000_0000_0000);
    if back {
        if shift >= whole as u128 {
            return 0;
        }
        let point: usize = whole - shift as usize;
        let front: &[char] = &digits[0..point];
        assert(front@ =~= digits@.take(point as int));
        return bounded_value(front, 0xFFFF_FFFF_FFFF_FFFF) as u64;
    }
    let rest: usize = digits.len() - whole;
    if shift <= rest as u128 {
        let point: usize = whole + shift as usize;
        let front: &[char] = &digits[0..point];
        assert(front@ =~= digits@.take(point as int));
        return bounded_value(front, 0xFFFF_FFFF_FFFF_FFFF) as u64;
    }
    let v: u64 = bounded_value(digits, 0xFFFF_FFFF_FFFF_FFFF) as u64;
    let ghost zeros = (e - rest) as nat;
    proof {
        lemma_pow10(zeros);
        lemma_at_most_times(digits_value(digits@), pow10(zeros), u64::MAX as nat);
    }
    let wanted: u128 = shift - rest as u128;
    if wanted < 0xFFFF_FFFF_FFFF_FFFF {
        with_zeros(v, wanted as u64)
    } else {
        proof {
            lemma_many_zeros(v as nat, zeros);
        }
        with_zeros(v, u64::MAX)
    }
}

/// The whole part of a decimal fraction, or the largest number where it is larger.
pub fn parse_whole_part(s: &[char]) -> (n: Option<u64>)
    ensures
        n == match whole_part(s@) {
            Some(v) => Some(at_most(v, u64::MAX as nat) as u64),
            None => None::<u64>,
        },
{
    if !is_decimal_fraction(s) {
        return None;
    }
    let body: &[char] = strip_sign(s);
    if equals_word(body, "inf") || equals_word(body, "infinity") || equals_word(body, "nan") {
        return None;
    }
    if s[0] == '-' {
        return Some(0);
    }
    let whole: usize = count_digits(body, 0);
    let mut digits: Vec<char> = Vec::new();
    push_chars(&mut digits, &body[0..whole]);
    let mut end: usize = whole;
    if whole < body.len() && body[whole] == '.' {
        end = whole + 1 + count_digits(body, whole + 1);
        push_chars(&mut digits, &body[whole + 1..end]);
    }
    proof {
        lemma_digit_run(body@, 0);
        if whole < body@.len() {
            lemma_digit_run(body@, whole + 1);
        }
        assert(digits@ =~= mantissa(body@));
    }
    let tail: &[char] = &body[end..body.len()];
    assert(tail@ =~= body@.skip(fraction_end(body@)));
    if tail.len() == 0 {
        let none: Vec<char> = Vec::new();
        return Some(value_before_point(digits.as_slice(), whole, false, none.as_slice()));
    }
    let rest: &[char] = &tail[1..tail.len()];
    assert(rest@ =~= tail@.drop_first());
    let power: &[char] = strip_sign(rest);
    proof {
        lemma_digit_run(power@, 0);
    }
    Some(value_before_point(digits.as_slice(), whole, rest[0] == '-', power))
}

// ---------------------------------------------------------------------
// Lists
// ---------------------------------------------------------------------

/// The parts with `separator` between them.
pub open spec fn join(parts: Seq<Seq<char>>, separator: Seq<char>) -> Seq<char>
    decreases parts.len(),
{
    if parts.len() == 0 {
        Seq::empty()
    } else if parts.len() == 1 {
        parts[0]
    } else {
        join(parts.drop_last(), separator) + separator + parts.last()
    }
}

/// The values of texts.
pub open spec fn values(parts: Seq<String>) -> Seq<Seq<char>> {
    parts.map_values(|s: String| s@)
}

/// The parts with `separator` between them.
pub fn join_texts(parts: &Vec<String>, separator: &str) -> (s: String)
    ensures
        s@ == join(values(parts@), separator@),
{
    let ghost all = values(parts@);
    let mut s: String = String::new();
    let mut i: usize = 0;
    assert(all.take(0) =~= Seq::empty());
    assert(s@ =~= Seq::empty());
    while i < parts.len()
        invariant
            i <= parts@.len(),
            all == values(parts@),
            s@ == join(all.take(i as int), separator@),
        decreases parts@.len() - i,
    {
        proof {
            assert(all.take(i + 1).drop_last() =~= all.take(i as int));
            assert(all.take(i + 1).last() == parts@[i as int]@);
        }
        if i > 0 {
            s.append(separator);
        }
        s.append(parts[i].as_str());
        i = i + 1;
        assert(s@ =~= join(all.take(i as int), separator@));
    }
    assert(all.take(i as int) =~= all);
    s
}

/// The pieces of `s` between the characters `c`. A text without any is one piece.
pub open spec fn split(s: Seq<char>, c: char) -> Seq<Seq<char>>
    decreases s.len(),
{
    let n = first_at(s, c);
    if 0 <= n < s.len() {
        seq![s.take(n)] + split(s.skip(n + 1), c)
    } else {
        seq![s]
    }
}

/// The pieces of `s` between the characters `c`. A text without any is one piece.
pub fn split_at_each(s: &[char], c: char) -> (out: Vec<String>)
    ensures
        values(out@) == split(s@, c),
{
    let mut out: Vec<String> = Vec::new();
    let mut start: usize = 0;
    let mut i: usize = 0;
    assert(s@.skip(0) =~= s@);
    assert(values(out@) + split(s@, c) =~= split(s@, c));
    while i < s.len()
        invariant
            start <= i <= s@.len(),
            forall|k: int| start <= k < i ==> s@[k] != c,
            values(out@) + split(s@.skip(start as int), c) == split(s@, c),
        decreases s@.len() - i,
    {
        if s[i] == c {
            let ghost rest = s@.skip(start as int);
            let ghost done = values(out@);
            let piece: String = string_of(&s[start..i]);
            proof {
                lemma_first_at(rest, c, i - start);
                assert(rest.take(i - start) =~= piece@);
                assert(rest.skip(i - start + 1) =~= s@.skip(i + 1));
                let more = split(s@.skip(i + 1), c);
                assert(done.push(piece@) + more =~= done + (seq![piece@] + more));
            }
            push_text(&mut out, piece);
            start = i + 1;
        }
        i = i + 1;
    }
    let ghost rest = s@.skip(start as int);
    let ghost done = values(out@);
    let piece: String = string_of(&s[start..s.len()]);
    proof {
        lemma_first_at(rest, c, rest.len() as int);
        assert(piece@ =~= rest);
        assert(done.push(piece@) =~= done + seq![piece@]);
    }
    push_text(&mut out, piece);
    out
}

proof fn lemma_split_last(front: Seq<char>, last: Seq<char>, c: char)
    requires
        !last.contains(c),
    ensures
        split(front.push(c) + last, c) == split(front, c).push(last),
    decreases front.len(),
{
    let s = front.push(c) + last;
    if front.contains(c) {
        let n = front.index_of_first(c)->0;
        front.index_of_first_ensures(c);
        lemma_first_at(front, c, n);
        lemma_first_at(s, c, n);
        assert(s.take(n) =~= front.take(n));
        assert(s.skip(n + 1) =~= front.skip(n + 1).push(c) + last);
        lemma_split_last(front.skip(n + 1), last, c);
        assert(split(s, c) =~= split(front, c).push(last));
    } else {
        lemma_first_at(front, c, front.len() as int);
        lemma_first_at(s, c, front.len() as int);
        lemma_first_at(last, c, last.len() as int);
        assert(s.take(front.len() as int) =~= front);
        assert(s.skip((front.len() + 1) as int) =~= last);
        assert(split(last, c) =~= seq![last]);
        assert(split(front, c) =~= seq![front]);
        assert(split(s, c) =~= split(front, c).push(last));
    }
}

/// Splitting joined parts gives them back, where none of them holds the separator.
pub proof fn law_joined_parts_are_split_again(parts: Seq<Seq<char>>, c: char)
    requires
        parts.len() > 0,
        forall|i: int| 0 <= i < parts.len() ==> !(#[trigger] parts[i]).contains(c),
    ensures
        split(join(parts, seq![c]), c) == parts,
    decreases parts.len(),
{
    if parts.len() == 1 {
        lemma_first_at(parts[0], c, parts[0].len() as int);
        assert(split(parts[0], c) =~= parts);
    } else {
        let front = parts.drop_last();
        assert forall|i: int| 0 <= i < front.len() implies !(#[trigger] front[i]).contains(c) by {
            assert(front[i] == parts[i]);
        }
        law_joined_parts_are_split_again(front, c);
        lemma_split_last(join(front, seq![c]), parts.last(), c);
        assert(join(parts, seq![c]) =~= join(front, seq![c]).push(c) + parts.last());
        assert(front.push(parts.last()) =~= parts);
    }
}

/// Whether `s` is among the parts.
pub fn contains_text(parts: &Vec<String>, s: &str) -> (r: bool)
    ensures
        r == values(parts@).contains(s@),
{
    let mut i: usize = 0;
    while i < parts.len()
        invariant
            i <= parts@.len(),
            forall|k: int| 0 <= k < i ==> #[trigger] values(parts@)[k] != s@,
        decreases parts@.len() - i,
    {
        if same(parts[i].as_str(), s) {
            assert(values(parts@)[i as int] == s@);
            return true;
        }
        i = i + 1;
    }
    false
}

/// Adds a text to a list of texts.
pub fn push_text(parts: &mut Vec<String>, s: String)
    ensures
        values(final(parts)@) == values(old(parts)@).push(s@),
{
    parts.push(s);
    assert(values(parts@) =~= values(old(parts)@).push(s@));
}

/// Whether `part` stands in `s` at `i`.
pub open spec fn stands_at(s: Seq<char>, part: Seq<char>, i: int) -> bool {
    0 <= i <= s.len() - part.len() && s.subrange(i, i + part.len()) == part
}

/// The first place from `from` on where `part` stands in `s`, if there is one.
pub open spec fn first_place(s: Seq<char>, part: Seq<char>, from: int) -> Option<int>
    decreases s.len() + 1 - from,
{
    if from > s.len() - part.len() {
        None
    } else if stands_at(s, part, from) {
        Some(from)
    } else {
        first_place(s, part, from + 1)
    }
}

/// The first place where `part` stands in `s`, if there is one.
pub fn find_text(s: &[char], part: &str) -> (at: Option<usize>)
    ensures
        match first_place(s@, part@, 0) {
            Some(i) => at matches Some(k) && k == i && k + part@.len() <= s@.len(),
            None => at is None,
        },
{
    let p: Vec<char> = chars_of(part);
    let mut from: usize = 0;
    while from <= s.len() && p.len() <= s.len() - from
        invariant
            from <= s@.len() + 1,
            p@ == part@,
            first_place(s@, part@, from as int) == first_place(s@, part@, 0),
        decreases s@.len() + 1 - from,
    {
        assert(s@.len() == s.len());
        let rest = &s[from..s.len()];
        assert(rest@ =~= s@.skip(from as int));
        if starts_with(rest, part) {
            assert(s@.subrange(from as int, from + part@.len()) =~= rest@.take(
                part@.len() as int,
            ));
            return Some(from);
        }
        proof {
            if stands_at(s@, part@, from as int) {
                assert(rest@.take(part@.len() as int) =~= part@);
            }
        }
        if from == s.len() {
            assert(first_place(s@, part@, from + 1) is None);
            return None;
        }
        from = from + 1;
    }
    None
}

} // verus!
