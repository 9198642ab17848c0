//! What is written down, and how it is read.

use vstd::prelude::*;

use crate::cli;
use crate::controller;
use crate::controller::{ControlView, EccRequestView, EccView, RefusalView};
use crate::harness;
use crate::harness::ResultView;
use crate::logbook;
use crate::logbook::{AuditView, StartStep};
use crate::report;
use crate::report::{Drops, Findings, Trend, Verdict};
use crate::requests;
use crate::samples;
use crate::samples::Sample;
use crate::soak;
use crate::soak::Mode;
use crate::text;

verus! {

// ---------------------------------------------------------------------
// Texts
// ---------------------------------------------------------------------

/// A digest is written with two lower-case hexadecimal digits for each byte, the higher half first.
pub proof fn law_digests_are_read_back(s: Seq<u8>, k: int)
    requires
        0 <= k < s.len(),
    ensures
        text::hex(s).len() == 2 * s.len(),
        16 * text::hex_value(text::hex(s)[2 * k]) + text::hex_value(text::hex(s)[2 * k + 1]) == s[k],
        is_hex_digit(text::hex(s)[2 * k]),
        is_hex_digit(text::hex(s)[2 * k + 1]),
    decreases s.len(),
{
    let front = s.drop_last();
    lemma_hex_length(front);
    if k < front.len() {
        law_digests_are_read_back(front, k);
        assert(front[k] == s[k]);
        assert(text::hex(s)[2 * k] == text::hex(front)[2 * k]);
        assert(text::hex(s)[2 * k + 1] == text::hex(front)[2 * k + 1]);
    } else {
        lemma_hex_digit((s.last() / 16) as nat);
        lemma_hex_digit((s.last() % 16) as nat);
    }
}

/// Whether a character is a lower-case hexadecimal digit.
pub open spec fn is_hex_digit(c: char) -> bool {
    '0' <= c <= '9' || 'a' <= c <= 'f'
}

proof fn lemma_hex_length(s: Seq<u8>)
    ensures
        text::hex(s).len() == 2 * s.len(),
    decreases s.len(),
{
    if s.len() > 0 {
        lemma_hex_length(s.drop_last());
    }
}

proof fn lemma_hex_digit(d: nat)
    requires
        d < 16,
    ensures
        text::hex_value(text::hex_char(d)) == d,
        is_hex_digit(text::hex_char(d)),
{
}

/// Whether a text is white space throughout.
pub open spec fn is_blank(s: Seq<char>) -> bool {
    forall|i: int| 0 <= i < s.len() ==> text::is_space(#[trigger] s[i])
}

/// Trimming takes white space off both ends, all of it and nothing else.
pub proof fn law_trimming_takes_the_ends(s: Seq<char>) -> (r: (Seq<char>, Seq<char>))
    ensures
        s == r.0 + text::trimmed(s) + r.1,
        is_blank(r.0),
        is_blank(r.1),
        text::trimmed(s).len() > 0 ==> !text::is_space(text::trimmed(s).first()) && !text::is_space(
            text::trimmed(s).last(),
        ),
    decreases s.len(),
{
    let none = Seq::<char>::empty();
    if s.len() == 0 {
        assert(s =~= none + s + none);
        (none, none)
    } else if text::is_space(s.first()) {
        let (a, b) = law_trimming_takes_the_ends(s.drop_first());
        let c = seq![s.first()] + a;
        let t = text::trimmed(s);
        assert(s.drop_first() == a + t + b);
        assert(s =~= seq![s.first()] + s.drop_first());
        assert(seq![s.first()] + (a + t + b) =~= c + t + b);
        assert forall|i: int| 0 <= i < c.len() implies text::is_space(#[trigger] c[i]) by {
            if i > 0 {
                assert(c[i] == a[i - 1]);
            }
        }
        (c, b)
    } else if text::is_space(s.last()) {
        let (a, b) = law_trimming_takes_the_ends(s.drop_last());
        let c = b.push(s.last());
        let t = text::trimmed(s);
        assert(s.drop_last() == a + t + b);
        assert(s =~= s.drop_last().push(s.last()));
        assert((a + t + b).push(s.last()) =~= a + t + c);
        (a, c)
    } else {
        assert(s =~= none + s + none);
        (none, none)
    }
}

proof fn lemma_digit_run(d: Seq<char>, rest: Seq<char>, from: int)
    requires
        forall|i: int| 0 <= i < d.len() ==> text::is_digit(#[trigger] d[i]),
        rest.len() > 0 ==> !text::is_digit(rest[0]),
        0 <= from <= d.len(),
    ensures
        text::digit_run(d + rest, from) == d.len() - from,
    decreases d.len() - from,
{
    if from < d.len() {
        assert((d + rest)[from] == d[from]);
        lemma_digit_run(d, rest, from + 1);
    } else if rest.len() > 0 {
        assert((d + rest)[from] == rest[0]);
    }
}

proof fn lemma_digit_run_behind(front: Seq<char>, d: Seq<char>, k: int)
    requires
        forall|i: int| 0 <= i < d.len() ==> text::is_digit(#[trigger] d[i]),
        0 <= k <= d.len(),
    ensures
        text::digit_run(front + d, front.len() + k) == d.len() - k,
    decreases d.len() - k,
{
    if k < d.len() {
        assert((front + d)[front.len() + k] == d[k]);
        lemma_digit_run_behind(front, d, k + 1);
    }
}

proof fn lemma_no_word(body: Seq<char>)
    requires
        body.len() > 0,
        text::is_digit(body[0]),
    ensures
        !text::is_word(body, "inf"@),
        !text::is_word(body, "infinity"@),
        !text::is_word(body, "nan"@),
{
    reveal_strlit("inf");
    reveal_strlit("infinity");
    reveal_strlit("nan");
    assert(body.map_values(|c: char| text::lower(c))[0] == body[0]);
    assert("inf"@[0] == 'i' && "infinity"@[0] == 'i' && "nan"@[0] == 'n');
}

/// The whole part of a number is what stands before its point, whatever stands behind it; that of a
/// negative one counts as 0.
pub proof fn law_the_whole_part_stands_before_the_point(n: nat, fraction: Seq<char>)
    requires
        forall|i: int| 0 <= i < fraction.len() ==> text::is_digit(#[trigger] fraction[i]),
    ensures
        text::is_fraction(text::decimal(n)),
        text::whole_part(text::decimal(n)) == Some(n),
        text::is_fraction(text::decimal(n) + seq!['.'] + fraction),
        text::whole_part(text::decimal(n) + seq!['.'] + fraction) == Some(n),
        text::is_fraction(seq!['-'] + text::decimal(n)),
        text::whole_part(seq!['-'] + text::decimal(n)) == Some(0nat),
{
    let d = text::decimal(n);
    let none = Seq::<char>::empty();
    lemma_decimal(n);
    text::law_decimal_round_trip(n);
    assert(text::is_digit(d[0]));
    assert(text::unsigned_digits(d) == d);
    // Without a point.
    lemma_digit_run(d, none, 0);
    assert(d + none =~= d);
    lemma_no_word(d);
    assert(text::unsign(d) == d);
    assert(d.take(d.len() as int) =~= d);
    assert(d.skip(d.len() as int).len() == 0);
    assert(text::before_point(d, d.len() as int) == n);
    // With one.
    let tail = seq!['.'] + fraction;
    let s = d + seq!['.'] + fraction;
    assert(s =~= d + tail);
    lemma_digit_run(d, tail, 0);
    lemma_digit_run_behind(d + seq!['.'], fraction, 0);
    assert(s[0] == d[0]);
    assert(s[d.len() as int] == '.');
    lemma_no_word(s);
    assert(text::unsign(s) == s);
    assert(text::fraction_end(s) == s.len());
    assert(s.skip(s.len() as int).len() == 0);
    let m = text::mantissa(s);
    assert(m =~= d + fraction);
    assert(m.take(d.len() as int) =~= d);
    // Negative.
    let neg = seq!['-'] + d;
    assert(neg.drop_first() =~= d);
    assert(text::unsign(neg) == d);
}

proof fn lemma_pow10(k: nat)
    ensures
        text::pow10(k) == vstd::arithmetic::power::pow(10, k),
        vstd::arithmetic::power::pow(10, k) > 0,
    decreases k,
{
    reveal(vstd::arithmetic::power::pow);
    if k > 0 {
        lemma_pow10((k - 1) as nat);
    }
}

proof fn lemma_leading_digits(d: Seq<char>, k: nat)
    requires
        forall|i: int| 0 <= i < d.len() ==> text::is_digit(#[trigger] d[i]),
    ensures
        text::digits_value(
            d.take(
                if k <= d.len() {
                    d.len() - k
                } else {
                    0
                },
            ),
        ) == text::digits_value(d) as int / vstd::arithmetic::power::pow(10, k),
    decreases k,
{
    lemma_pow10(k);
    reveal(vstd::arithmetic::power::pow);
    if k == 0 {
        assert(d.take(d.len() as int) =~= d);
    } else {
        let before = (k - 1) as nat;
        lemma_leading_digits(d, before);
        lemma_pow10(before);
        let v = text::digits_value(d) as int;
        vstd::arithmetic::div_mod::lemma_div_denominator(v, vstd::arithmetic::power::pow(10, before), 10);
        assert(vstd::arithmetic::power::pow(10, before) * 10 == vstd::arithmetic::power::pow(10, k)) by (nonlinear_arith)
            requires
                vstd::arithmetic::power::pow(10, k) == 10 * vstd::arithmetic::power::pow(10, before),
        ;
        if k <= d.len() {
            let longer = d.take(d.len() - before);
            assert(longer.drop_last() =~= d.take(d.len() - k));
            assert(text::is_digit(d[d.len() - k]));
            assert(longer.last() == d[d.len() - k]);
        }
    }
}

/// An exponent moves the point: to the right without a sign or with a plus, where zeros stand in for
/// digits that there are not, and to the left with a minus.
pub proof fn law_an_exponent_moves_the_point(n: nat, e: char, k: nat)
    requires
        e == 'e' || e == 'E',
    ensures
        text::whole_part(text::decimal(n) + seq![e] + text::decimal(k)) == Some(
            (n * vstd::arithmetic::power::pow(10, k)) as nat,
        ),
        text::whole_part(text::decimal(n) + seq![e, '+'] + text::decimal(k)) == Some(
            (n * vstd::arithmetic::power::pow(10, k)) as nat,
        ),
        text::whole_part(text::decimal(n) + seq![e, '-'] + text::decimal(k)) == Some(
            (n as int / vstd::arithmetic::power::pow(10, k)) as nat,
        ),
{
    let p = text::decimal(k);
    lemma_decimal(k);
    lemma_decimal(n);
    lemma_pow10(k);
    assert(text::is_digit(p[0]));
    let plain = seq![e] + p;
    let plus = seq![e, '+'] + p;
    let minus = seq![e, '-'] + p;
    assert(plain.drop_first() =~= p);
    assert(plus.drop_first().drop_first() =~= p);
    assert(minus.drop_first().drop_first() =~= p);
    assert(text::unsign(plain.drop_first()) == p);
    assert(text::unsign(plus.drop_first()) == p);
    assert(text::unsign(minus.drop_first()) == p);
    lemma_exponent(n, plain, p);
    lemma_exponent(n, plus, p);
    lemma_exponent(n, minus, p);
    assert(text::decimal(n) + seq![e] + p =~= text::decimal(n) + plain);
    assert(text::decimal(n) + seq![e, '+'] + p =~= text::decimal(n) + plus);
    assert(text::decimal(n) + seq![e, '-'] + p =~= text::decimal(n) + minus);
    assert(plain[1] == p[0] && plus[1] == '+' && minus[1] == '-');
    let d = text::decimal(n);
    assert(d.take(d.len() as int) =~= d);
    assert(n * vstd::arithmetic::power::pow(10, 0) == n) by {
        reveal(vstd::arithmetic::power::pow);
    }
    lemma_leading_digits(d, k);
    if k == 0 {
        assert(text::before_point(d, d.len() as int) == n);
    } else {
        assert(text::before_point(d, (d.len() + k) as int) == n * text::pow10(k));
        if k >= d.len() {
            assert(d.take(0) =~= Seq::empty());
        }
    }
}

proof fn lemma_exponent(n: nat, tail: Seq<char>, p: Seq<char>)
    requires
        tail.len() > 1,
        tail[0] == 'e' || tail[0] == 'E',
        text::unsign(tail.drop_first()) == p,
        p.len() > 0,
        forall|i: int| 0 <= i < p.len() ==> text::is_digit(#[trigger] p[i]),
    ensures
        text::whole_part(text::decimal(n) + tail) == Some(
            text::before_point(text::decimal(n), text::decimal(n).len() + text::exponent(tail)),
        ),
{
    let d = text::decimal(n);
    let s = d + tail;
    lemma_decimal(n);
    assert(text::is_digit(d[0]));
    assert(s[0] == d[0]);
    lemma_no_word(s);
    lemma_digit_run(d, tail, 0);
    lemma_digit_run(p, Seq::empty(), 0);
    assert(p + Seq::empty() =~= p);
    assert(s[d.len() as int] == tail[0]);
    assert(s.skip(d.len() as int) =~= tail);
    assert(s.take(d.len() as int) =~= d);
    assert(text::unsign(s) == s);
}

proof fn lemma_decimal(n: nat)
    ensures
        text::decimal(n).len() > 0,
        forall|i: int| 0 <= i < text::decimal(n).len() ==> text::is_digit(#[trigger] text::decimal(n)[i]),
        text::digits_value(text::decimal(n)) == n,
    decreases n,
{
    reveal_with_fuel(text::digits_value, 2);
    if n < 10 {
        assert(text::decimal(n).drop_last() =~= Seq::empty());
    } else {
        lemma_decimal(n / 10);
        assert(text::decimal(n).drop_last() =~= text::decimal(n / 10));
    }
}

/// A negative number is written with a minus sign before its digits, and no other is.
pub proof fn law_signs_are_written(n: nat)
    requires
        n > 0,
    ensures
        text::signed_decimal(n as int) == text::decimal(n),
        text::signed_decimal(0) == text::decimal(0),
        text::signed_decimal(-n) == seq!['-'] + text::decimal(n),
{
}

// ---------------------------------------------------------------------
// Samples
// ---------------------------------------------------------------------

/// Every cell of a sample stands under its column: memory and open files of each process under its
/// name, the counters under theirs, and the free space behind them.
pub proof fn law_cells_stand_under_their_columns(
    sample: Sample<'_>,
    procs: Seq<Seq<char>>,
    i: int,
    j: int,
)
    requires
        procs.len() == sample.pids@.len(),
        0 <= i < procs.len(),
        0 <= j < soak::COUNTER_NAMES@.len(),
    ensures
        ({
            let n = procs.len() as int;
            let names = soak::columns(procs);
            let cells = sample.cells();
            let pid = sample.pids@[i];
            &&& names[0] == "ts_unix"@ && cells[0] == sample.time@
            &&& names[1] == "elapsed_s"@ && cells[1] == sample.elapsed@
            &&& names[2] == "run_index"@ && cells[2] == text::decimal(sample.run_index as nat)
            &&& names[3] == "run_number"@ && cells[3] == text::decimal(sample.run_number as nat)
            &&& names[4 + i] == "rss_kib_"@ + procs[i]
            &&& cells[4 + i] == if sample.rss@.contains_key(pid as u64) {
                text::decimal(sample.rss@[pid as u64] as nat)
            } else {
                Seq::empty()
            }
            &&& names[4 + n + i] == "fd_"@ + procs[i]
            &&& cells[4 + n + i] == if sample.fds@.contains_key(pid as u64) {
                text::decimal(sample.fds@[pid as u64] as nat)
            } else {
                Seq::empty()
            }
            &&& names[4 + 2 * n + j] == soak::COUNTER_NAMES@[j]@
            &&& cells[4 + 2 * n + j] == match soak::counter(
                soak::COUNTER_SOURCES@[j]@,
                sample.status@,
            ) {
                Some(c) => text::decimal(c as nat),
                None => Seq::empty(),
            }
            &&& names[4 + 2 * n + 26] == "free_gib"@
            &&& cells[4 + 2 * n + 26] == sample.free@
        }),
{
}

/// The number in the column of a name is that of its last column whose cell is a number.
pub proof fn law_the_last_number_of_a_column_counts(
    columns: Seq<Seq<char>>,
    cells: Seq<Seq<char>>,
    name: Seq<char>,
    k: int,
)
    requires
        columns.len() == cells.len(),
        -1 <= k < columns.len(),
        forall|j: int|
            k < j < columns.len() ==> !(#[trigger] columns[j] == name && text::is_fraction(cells[j])),
        k >= 0 ==> columns[k] == name && text::is_fraction(cells[k]),
    ensures
        samples::number_in(columns, cells, name) == if k >= 0 {
            Some(cells[k])
        } else {
            None
        },
    decreases columns.len(),
{
    if columns.len() > 0 && k < columns.len() - 1 {
        let last = columns.len() - 1;
        assert(!(columns[last] == name && text::is_fraction(cells[last])));
        let fewer = columns.drop_last();
        assert forall|j: int| k < j < fewer.len() implies !(#[trigger] fewer[j] == name
            && text::is_fraction(cells.drop_last()[j])) by {
            assert(fewer[j] == columns[j] && cells.drop_last()[j] == cells[j]);
        }
        law_the_last_number_of_a_column_counts(fewer, cells.drop_last(), name, k);
    }
}

/// One more sample adds its number to those of a column, where it has one.
pub proof fn law_a_sample_adds_its_number(
    columns: Seq<Seq<char>>,
    rows: Seq<Seq<Seq<char>>>,
    row: Seq<Seq<char>>,
    name: Seq<char>,
)
    ensures
        samples::numbers_in(columns, rows.push(row), name) == match samples::number_in(
            columns,
            row,
            name,
        ) {
            Some(n) => samples::numbers_in(columns, rows, name).push(n),
            None => samples::numbers_in(columns, rows, name),
        },
{
    assert(rows.push(row).drop_last() =~= rows);
}

// ---------------------------------------------------------------------
// Reports
// ---------------------------------------------------------------------

/// The course of every column is reported but for those of the time.
pub proof fn law_all_columns_but_the_time_are_reported(columns: Seq<Seq<char>>, name: Seq<char>)
    ensures
        report::reported_columns(columns).contains(name) <==> columns.contains(name) && name
            != "ts_unix"@ && name != "elapsed_s"@,
    decreases columns.len(),
{
    let all = report::reported_columns(columns);
    if columns.len() > 0 {
        let before = columns.drop_last();
        let old = report::reported_columns(before);
        law_all_columns_but_the_time_are_reported(before, name);
        if columns.contains(name) && name != "ts_unix"@ && name != "elapsed_s"@ {
            let i = choose|i: int| 0 <= i < columns.len() && columns[i] == name;
            if i < before.len() {
                assert(before[i] == name);
                let j = old.index_of(name);
                assert(all[j] == name);
            } else {
                assert(all[old.len() as int] == name);
            }
        }
        if all.contains(name) {
            let j = choose|j: int| 0 <= j < all.len() && all[j] == name;
            if j < old.len() {
                assert(old[j] == name);
                let i = before.index_of(name);
                assert(columns[i] == name);
            } else {
                assert(columns[columns.len() - 1] == name);
            }
        }
    }
}

/// The line of a run tells its number, its laps, its bytes, its events and its time.
pub proof fn law_the_line_of_a_run(r: ResultView, runs: Seq<ResultView>)
    ensures
        report::run_line(r) == "  run "@ + text::padded(r.run as nat, 4) + ": laps="@
            + text::decimal(r.laps as nat) + " bytes="@ + text::decimal(r.graw_bytes as nat)
            + " entries="@ + text::decimal(r.entries as nat) + " "@ + r.seconds + " s\n"@,
        report::run_lines(runs.push(r)) == report::run_lines(runs) + report::run_line(r),
{
    assert(runs.push(r).drop_last() =~= runs);
}

/// The lines of columns, of processes and of counters follow one another, a line for each.
pub proof fn law_every_finding_has_its_line(
    trends: Seq<Trend>,
    trend: Trend,
    verdicts: Seq<Verdict>,
    verdict: Verdict,
    drops: Seq<Drops>,
    drop: Drops,
)
    ensures
        report::trend_lines(trends.push(trend)) == report::trend_lines(trends) + trend.line(),
        report::verdict_lines(verdicts.push(verdict)) == report::verdict_lines(verdicts)
            + verdict.line(),
        report::drop_lines(drops.push(drop)) == report::drop_lines(drops) + drop.line(),
        trend.span matches Some(s) ==> trend.line() == "  "@ + report::at_left(trend.column@, 28)
            + " "@ + report::at_right(s.first@, 14) + " -> "@ + report::at_right(s.last@, 14)
            + "   slope/h = "@ + report::at_right(s.slope@, 12) + "\n"@,
{
    assert(trends.push(trend).drop_last() =~= trends);
    assert(verdicts.push(verdict).drop_last() =~= verdicts);
    assert(drops.push(drop).drop_last() =~= drops);
}

// ---------------------------------------------------------------------
// Entries
// ---------------------------------------------------------------------

/// A request that is turned down is entered under its name and with what it asked for; the operator
/// is named unless the token did not count.
pub proof fn law_who_is_named_where_a_request_is_turned_down(
    action: Seq<char>,
    params: Seq<(Seq<char>, AuditView)>,
    control: ControlView,
    refusal: RefusalView,
)
    ensures
        ({
            let e = requests::turned_down(action, params, control, refusal);
            &&& e.action == action
            &&& e.params == params
            &&& refusal is Unauthorized ==> e.operator == "<unauthorized>"@
            &&& !(refusal is Unauthorized) ==> (control.session matches Some((_, name))
                ==> e.operator == name)
        }),
{
}

/// A request that was met is entered as such, and one that was not with the reason.
pub proof fn law_what_is_told_of_a_request(
    action: Seq<char>,
    params: Seq<(Seq<char>, AuditView)>,
    operator: Seq<char>,
    error: Option<Seq<char>>,
    reply: Result<EccView, Seq<char>>,
)
    ensures
        ({
            let e = requests::told(action, params, operator, error);
            &&& e.action == action
            &&& e.params == params
            &&& e.operator == operator
            &&& e.ok <==> error is None
            &&& e.error == error
        }),
        requests::ecc_problem(reply) is None <==> (reply matches Ok(r) && r.ok),
        reply matches Ok(r) ==> (!r.ok ==> requests::ecc_problem(reply) == Some(r.error)),
        reply matches Err(why) ==> requests::ecc_problem(reply) == Some(why),
        requests::ecc_name(action) == "ecc/"@ + action,
{
}

/// A request to the electronics is entered with its action, and with the configuration and the data
/// links that it names.
pub proof fn law_what_is_entered_of_a_request(request: EccRequestView)
    ensures
        ({
            let p = requests::request_params(request);
            &&& p[0] == ("action"@, AuditView::Text(request.action))
            &&& request.config_id matches Some(id) ==> p[1] == ("config_id"@, AuditView::Text(id))
            &&& request.links matches Some(links) ==> p.last() == (
                "links"@,
                AuditView::Items(links),
            )
            &&& p.len() == 1 + (if request.config_id is Some {
                1int
            } else {
                0
            }) + (if request.links is Some {
                1int
            } else {
                0
            })
        }),
{
}

/// A number that was asked for is entered as it was sent where it is none, as a number where it is
/// one, and not at all where the token did not count.
pub proof fn law_what_is_entered_of_a_number(refusal: RefusalView, n: u64, shown: Seq<char>)
    ensures
        refusal.code_of() == 401 ==> requests::next_params(refusal, Some(n), shown).len() == 0,
        refusal.code_of() == 400 ==> requests::next_params(refusal, Some(n), shown) == seq![
            ("next_run"@, AuditView::Sent(shown)),
        ],
        refusal.code_of() == 409 ==> requests::next_params(refusal, Some(n), shown) == seq![
            ("next_run"@, AuditView::Uint(n)),
        ],
        requests::preempted_view(None) is Null,
        requests::preempted_view(Some(shown)) == AuditView::Text(shown),
{
}

/// How a start goes on: the geometry is read before a number is taken, a number is taken before the
/// sequence runs, a run is recorded only where the sequence worked, and the number is given back
/// only where it did not.
pub proof fn law_how_a_start_goes_on(step: StartStep, ok: bool)
    ensures
        ({
            let next = logbook::step_after(step, ok);
            &&& next == StartStep::TakeRun <==> step == StartStep::ReadGeometry && ok
            &&& next == StartStep::Sequence <==> step == StartStep::TakeRun && ok
            &&& next == StartStep::Record <==> step == StartStep::Sequence && ok
            &&& next == StartStep::Rewind <==> step == StartStep::Sequence && !ok
            &&& next == StartStep::AuditEarly <==> (step == StartStep::ReadGeometry || step
                == StartStep::TakeRun) && !ok
            &&& next == StartStep::AuditStarted <==> step == StartStep::Record
            &&& next == StartStep::AuditFailed <==> step == StartStep::Rewind
            &&& next == StartStep::Started <==> step == StartStep::AuditStarted || step
                == StartStep::Started
            &&& next != StartStep::ReadGeometry
        }),
{
}

/// A run that is stopped is the one that is on.
pub proof fn law_the_run_that_is_on_is_stopped(active: controller::ActiveRun)
    ensures
        logbook::stopped_run(Some(active)) == active.run,
        logbook::stopped_run(None) == 0,
{
}

// ---------------------------------------------------------------------
// Arguments
// ---------------------------------------------------------------------

/// Whether arguments are the flag with a value, once or more often.
pub open spec fn repeats_flag(raw: Seq<Seq<char>>, from: int, flag: Seq<char>) -> bool {
    &&& (raw.len() - from) % 2 == 0
    &&& forall|k: int|
        from <= k < raw.len() && (k - from) % 2 == 0 ==> #[trigger] raw[k] == flag
}

proof fn lemma_flags(raw: Seq<Seq<char>>, from: int, flag: Seq<char>, so_far: Option<Seq<char>>)
    requires
        0 <= from <= raw.len(),
    ensures
        cli::flag_problem(raw, from, flag, "a path"@, None) is None <==> repeats_flag(
            raw,
            from,
            flag,
        ),
        repeats_flag(raw, from, flag) ==> cli::last_value(raw, from, flag, so_far)
            == if from < raw.len() {
            Some(raw.last())
        } else {
            so_far
        },
    decreases raw.len() - from,
{
    if from + 1 < raw.len() {
        lemma_flags(raw, from + 2, flag, Some(raw[from + 1]));
        if repeats_flag(raw, from, flag) {
            assert(raw[from] == flag);
            assert(repeats_flag(raw, from + 2, flag));
        }
        if raw[from] == flag && repeats_flag(raw, from + 2, flag) {
            assert forall|k: int| from <= k < raw.len() && (k - from) % 2
                == 0 implies #[trigger] raw[k] == flag by {
                if k > from {
                    assert(k >= from + 2);
                }
            }
        }
        if repeats_flag(raw, from, flag) && from + 2 == raw.len() {
            assert(raw[from + 1] == raw.last());
        }
    } else if from + 1 == raw.len() {
        assert((raw.len() - from) % 2 == 1);
    }
}

/// A program that has one flag takes it with a value, and the last value counts; nothing else is
/// accepted.
pub proof fn law_one_flag_takes_a_value(raw: Seq<Seq<char>>, flag: Seq<char>)
    ensures
        cli::single(raw, flag) is Ok <==> raw.len() > 0 && repeats_flag(raw, 0, flag),
        cli::single(raw, flag) matches Ok(v) ==> v == raw.last(),
{
    lemma_flags(raw, 0, flag, None);
}

/// A receiver is started with the configuration and the CoBo that its flags give.
pub proof fn law_a_receiver_is_started_with_its_flags(path: Seq<char>, id: u32)
    ensures
        cli::receiver_of(seq!["--config"@, path, "--cobo-id"@, text::decimal(id as nat)]) == Ok::<
            (Seq<char>, u32),
            Seq<char>,
        >((path, id)),
        cli::receiver_of(seq!["--config"@, path]) is Err,
        cli::receiver_of(seq!["--cobo-id"@, text::decimal(id as nat)]) is Err,
{
    reveal_strlit("--config");
    reveal_strlit("--cobo-id");
    assert("--config"@.len() != "--cobo-id"@.len());
    text::law_decimal_round_trip(id as nat);
    reveal_with_fuel(cli::flag_problem, 3);
    reveal_with_fuel(cli::last_value, 3);
}

/// The first place of a text in another is where it stands and nowhere before.
pub proof fn law_the_first_place(s: Seq<char>, part: Seq<char>, from: int)
    requires
        0 <= from,
    ensures
        match text::first_place(s, part, from) {
            Some(i) => from <= i <= s.len() - part.len() && s.subrange(i, i + part.len()) == part
                && forall|j: int| from <= j < i ==> !(#[trigger] text::stands_at(s, part, j)),
            None => forall|j: int| from <= j ==> !(#[trigger] text::stands_at(s, part, j)),
        },
    decreases s.len() + 1 - from,
{
    if from <= s.len() - part.len() && !text::stands_at(s, part, from) {
        law_the_first_place(s, part, from + 1);
    }
}

/// A line of a file of samples that has another number of cells than there are columns is left out,
/// and any other is a sample.
pub proof fn law_uneven_lines_are_left_out(lines: Seq<Seq<char>>, line: Seq<char>, n: nat)
    ensures
        samples::rows_in(lines.push(line), n) == if text::split(line, ',').len() == n {
            samples::rows_in(lines, n).push(text::split(line, ','))
        } else {
            samples::rows_in(lines, n)
        },
{
    assert(lines.push(line).drop_last() =~= lines);
}

/// White space is the tab, the ends of lines and of pages, the blank, and the other blanks of
/// Unicode.
pub proof fn law_what_white_space_is(c: char)
    ensures
        text::is_space(c) <==> {
            ||| c == '\t' || c == '\n' || c == '\u{b}' || c == '\u{c}' || c == '\r' || c == ' '
            ||| c == '\u{85}' || c == '\u{a0}' || c == '\u{1680}'
            ||| '\u{2000}' <= c <= '\u{200a}'
            ||| c == '\u{2028}' || c == '\u{2029}' || c == '\u{202f}' || c == '\u{205f}'
            ||| c == '\u{3000}'
        },
{
}

/// What the report says of the plan: whether the test was interrupted, its kind, how long it was to
/// take, how long a run, the rate, where the samples are, and how many there are.
pub proof fn law_the_report_tells_the_plan(f: Findings)
    ensures
        f.plan() == "===== soak_harness report =====\n"@ + (if f.interrupted {
            "**SIGINT で打ち切り**(現 run を完走してから畳んだ —— 走行時間は予定より短い)\n"@
        } else {
            ""@
        }) + "mode="@ + (match f.mode {
            Mode::Soak => "Soak"@,
            Mode::Burst => "Burst"@,
        }) + " 走行予定="@ + f.planned_h@ + " h / 1 run="@ + f.run_min@ + " min / rate="@
            + f.rate_mbps@ + " Mbps(0=全速)\nmetrics CSV = "@ + f.csv@
            + "\nサンプル数 = "@ + text::decimal(f.samples as nat) + " / 列数 = "@
            + text::decimal(f.columns as nat) + "\n"@,
        f.text() == f.plan() + f.all_runs() + f.all_columns() + f.memory() + f.ending(),
{
}

/// The lines of a report follow one another in the order of what was found: the runs, the columns,
/// the processes, and what was dropped.
pub proof fn law_the_report_tells_all_findings(f: Findings)
    ensures
        f.all_columns() == "\n-- 全系列(始値 / 終値 / 傾き per h)--\n"@ + report::trend_lines(
            f.trends@,
        ),
        f.ending() == "\n-- モニタ系 drop(落としてよいが silent にしない)--\n"@
            + report::drop_lines(f.drops@) + "  monitor 終了ログ = "@ + f.monitor_line@
            + "\n\n-- root_sink 終了 JSON --\n"@ + f.counts@ + "\n"@,
        f.throughput is None ==> f.all_runs() == "\n-- run --\nrun 数 = "@ + text::decimal(
            f.runs@.len(),
        ) + " / 総 laps = "@ + text::decimal(
            harness::total_laps(harness::result_views(f.runs@)),
        ) + " / 総送出 = "@ + text::decimal(
            harness::total_bytes(harness::result_views(f.runs@)),
        ) + " B ("@ + f.gib@ + " GiB) / 総 run 時間 = "@ + f.seconds@ + " s\n"@ + ""@
            + report::run_lines(harness::result_views(f.runs@)),
{
}

proof fn lemma_line_end(line: Seq<char>, rest: Seq<char>)
    requires
        !line.contains('\n'),
    ensures
        text::first_at(line + seq!['\n'] + rest, '\n') == line.len(),
    decreases line.len(),
{
    let s = line + seq!['\n'] + rest;
    if line.len() > 0 {
        assert(line[0] != '\n') by {
            if line[0] == '\n' {
                assert(line.contains('\n'));
            }
        }
        assert(!line.drop_first().contains('\n')) by {
            if line.drop_first().contains('\n') {
                let i = choose|i: int|
                    0 <= i < line.drop_first().len() && line.drop_first()[i] == '\n';
                assert(line[i + 1] == '\n');
            }
        }
        assert(s.drop_first() =~= line.drop_first() + seq!['\n'] + rest);
        lemma_line_end(line.drop_first(), rest);
    }
}

/// A line ends with a line feed, or with a carriage return and a line feed, neither of which belongs
/// to it.
pub proof fn law_how_lines_end(line: Seq<char>, rest: Seq<char>)
    requires
        !line.contains('\n'),
        line.len() > 0 ==> line.last() != '\r',
    ensures
        text::lines(line + seq!['\n'] + rest) == seq![line] + text::lines(rest),
        text::lines(line + seq!['\r', '\n'] + rest) == seq![line] + text::lines(rest),
{
    let cr = line.push('\r');
    assert(!cr.contains('\n')) by {
        if cr.contains('\n') {
            let i = choose|i: int| 0 <= i < cr.len() && cr[i] == '\n';
            assert(line[i] == '\n');
        }
    }
    lemma_line_end(line, rest);
    lemma_line_end(cr, rest);
    let s = line + seq!['\n'] + rest;
    let t = cr + seq!['\n'] + rest;
    assert(t =~= line + seq!['\r', '\n'] + rest);
    assert(s.take(line.len() as int) =~= line);
    assert(s.skip((line.len() + 1) as int) =~= rest);
    assert(t.take(cr.len() as int) =~= cr);
    assert(t.skip((cr.len() + 1) as int) =~= rest);
    assert(cr.drop_last() =~= line);
    assert(text::lines(s) =~= seq![line] + text::lines(rest));
    assert(text::lines(t) =~= seq![line] + text::lines(rest));
}

} // verus!
