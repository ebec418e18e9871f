//! The files of a measurement: which benchmark and which moment the name of
//! a power log or of a profile stands for.
//!
//! A power log is named after its benchmark, an underscore, a timestamp of
//! sixteen digits, one more character and `txt`. A profile is named after
//! its benchmark, one character, `profraw`, one character and a timestamp of
//! sixteen digits. The benchmark's name is the shortest that fits, read from
//! the beginning of the line the pattern is found in.

use vstd::prelude::*;
use crate::stats::{group_by_event, groups_rows, EventGroup};
use crate::text::{
    all_digits, contains, decimal_value, digit_char, digit_value, ends_with, from_chars, has_at,
    is_ascii_digit, is_digit, occurs_at, occurs_in, parse_decimal, to_chars, views,
};

verus! {

/// A power log: the benchmark it belongs to and its timestamp.
#[derive(Debug, Clone)]
pub struct PowerFile {
    pub name: String,
    pub ts: i64,
}

/// A profile: the benchmark it belongs to and its timestamp.
#[derive(Debug, Clone)]
pub struct PerfFile {
    pub name: String,
    pub ts: i64,
}

/// What ends the name of a power log.
pub open spec fn txt_word() -> Seq<char> {
    seq!['t', 'x', 't']
}

/// What marks the name of a profile.
pub open spec fn profraw_word() -> Seq<char> {
    seq!['p', 'r', 'o', 'f', 'r', 'a', 'w']
}

/// A timestamp stands in `text` at `i`: sixteen digits.
pub open spec fn stamp_at(text: Seq<char>, i: int) -> bool {
    0 <= i && i + 16 <= text.len() && all_digits(text.subrange(i, i + 16))
}

/// Any one character but a line feed stands in `text` at `i`.
pub open spec fn any_at(text: Seq<char>, i: int) -> bool {
    0 <= i < text.len() && text[i] != '\n'
}

/// What follows the benchmark's name in the name of a power log stands in
/// `text` at `k`: an underscore, a timestamp, one character, `txt`.
pub open spec fn power_tail_at(text: Seq<char>, k: int) -> bool {
    &&& 0 <= k < text.len()
    &&& text[k] == '_'
    &&& stamp_at(text, k + 1)
    &&& any_at(text, k + 17)
    &&& occurs_at(text, txt_word(), k + 18)
}

/// What follows the benchmark's name in the name of a profile stands in
/// `text` at `k`: one character, `profraw`, one character, a timestamp.
pub open spec fn perf_tail_at(text: Seq<char>, k: int) -> bool {
    &&& any_at(text, k)
    &&& occurs_at(text, profraw_word(), k + 1)
    &&& any_at(text, k + 8)
    &&& stamp_at(text, k + 9)
}

/// Where the line begins in which `k` lies.
pub open spec fn line_begin(text: Seq<char>, k: int) -> int
    decreases k,
{
    if k <= 0 || k > text.len() {
        0
    } else if text[k - 1] == '\n' {
        k
    } else {
        line_begin(text, k - 1)
    }
}

/// The first index from `k` on at which the tail of a power log's name
/// stands.
pub open spec fn first_power_tail(text: Seq<char>, k: int) -> Option<int>
    decreases text.len() - k,
{
    if k < 0 || k >= text.len() {
        None
    } else if power_tail_at(text, k) {
        Some(k)
    } else {
        first_power_tail(text, k + 1)
    }
}

/// The first index from `k` on at which the tail of a profile's name stands.
pub open spec fn first_perf_tail(text: Seq<char>, k: int) -> Option<int>
    decreases text.len() - k,
{
    if k < 0 || k >= text.len() {
        None
    } else if perf_tail_at(text, k) {
        Some(k)
    } else {
        first_perf_tail(text, k + 1)
    }
}

/// The benchmark and the timestamp that the name `text` of a power log
/// stands for, if `text` holds such a name.
pub open spec fn power_file_of(text: Seq<char>) -> Option<(Seq<char>, int)> {
    match first_power_tail(text, 0) {
        Some(k) => Some(
            (
                text.subrange(line_begin(text, k), k),
                decimal_value(text.subrange(k + 1, k + 17)) as int,
            ),
        ),
        None => None,
    }
}

/// The benchmark and the timestamp that the name `text` of a profile stands
/// for, if `text` holds such a name.
pub open spec fn perf_file_of(text: Seq<char>) -> Option<(Seq<char>, int)> {
    match first_perf_tail(text, 0) {
        Some(k) => Some(
            (
                text.subrange(line_begin(text, k), k),
                decimal_value(text.subrange(k + 9, k + 25)) as int,
            ),
        ),
        None => None,
    }
}

/// Ten to the power of `n`.
pub open spec fn pow10(n: nat) -> nat
    decreases n,
{
    if n == 0 {
        1
    } else {
        10 * pow10((n - 1) as nat)
    }
}

/// A run of digits writes a number below ten to the power of its length.
pub proof fn lemma_decimal_value_bound(s: Seq<char>)
    requires
        all_digits(s),
    ensures
        decimal_value(s) < pow10(s.len()),
    decreases s.len(),
{
    if s.len() > 0 {
        assert(all_digits(s.drop_last())) by {
            assert forall|i: int| 0 <= i < s.drop_last().len() implies is_digit(
                #[trigger] s.drop_last()[i],
            ) by {
                assert(s.drop_last()[i] == s[i]);
            }
        }
        lemma_decimal_value_bound(s.drop_last());
        assert(is_digit(s.last()));
        assert(0 <= digit_value(s.last()) <= 9);
    }
}

/// A timestamp of sixteen digits fits in an `i64`.
pub proof fn lemma_stamp_fits(s: Seq<char>)
    requires
        all_digits(s),
        s.len() == 16,
    ensures
        decimal_value(s) < 10_000_000_000_000_000,
        decimal_value(s) <= i64::MAX,
{
    lemma_decimal_value_bound(s);
    assert(pow10(0) == 1);
    assert(pow10(1) == 10);
    assert(pow10(2) == 100);
    assert(pow10(3) == 1_000);
    assert(pow10(4) == 10_000);
    assert(pow10(5) == 100_000);
    assert(pow10(6) == 1_000_000);
    assert(pow10(7) == 10_000_000);
    assert(pow10(8) == 100_000_000);
    assert(pow10(9) == 1_000_000_000);
    assert(pow10(10) == 10_000_000_000);
    assert(pow10(11) == 100_000_000_000);
    assert(pow10(12) == 1_000_000_000_000);
    assert(pow10(13) == 10_000_000_000_000);
    assert(pow10(14) == 100_000_000_000_000);
    assert(pow10(15) == 1_000_000_000_000_000);
    assert(pow10(16) == 10_000_000_000_000_000);
}

/// Whether a timestamp stands in `text` at `i`.
fn has_stamp_at(text: &Vec<char>, i: usize) -> (b: bool)
    ensures
        b == stamp_at(text@, i as int),
{
    if text.len() < 16 || i > text.len() - 16 {
        return false;
    }
    let mut k: usize = 0;
    while k < 16
        invariant
            k <= 16,
            i + 16 <= text.len(),
            forall|j: int| i <= j < i + k ==> is_digit(#[trigger] text@[j]),
        decreases 16 - k,
    {
        if !is_ascii_digit(text[i + k]) {
            assert(text@.subrange(i as int, i + 16)[k as int] == text@[i + k]);
            return false;
        }
        k += 1;
    }
    assert(all_digits(text@.subrange(i as int, i + 16))) by {
        assert forall|j: int| 0 <= j < 16 implies is_digit(
            #[trigger] text@.subrange(i as int, i + 16)[j],
        ) by {
            assert(text@.subrange(i as int, i + 16)[j] == text@[i + j]);
        }
    }
    true
}

/// Whether any one character but a line feed stands in `text` at `i`.
fn has_any_at(text: &Vec<char>, i: usize) -> (b: bool)
    ensures
        b == any_at(text@, i as int),
{
    i < text.len() && text[i] != '\n'
}

/// The benchmark and the timestamp that the name of a power log stands for;
/// `None` where `file_name` holds no such name.
pub fn powerfile_to_benchname(file_name: &str) -> (file: Option<PowerFile>)
    ensures
        (match file {
            Some(f) => Some((f.name@, f.ts as int)),
            None => None,
        }) == power_file_of(file_name@),
{
    proof {
        reveal_strlit("txt");
    }
    let text = to_chars(file_name);
    let txt = to_chars("txt");
    assert(txt@ =~= txt_word());
    let mut begin: usize = 0;
    let mut k: usize = 0;
    while k < text.len()
        invariant
            begin <= k <= text.len(),
            text@ == file_name@,
            txt@ == txt_word(),
            begin == line_begin(text@, k as int),
            first_power_tail(text@, k as int) == first_power_tail(text@, 0),
        decreases text.len() - k,
    {
        if text.len() - k >= 21 && text[k] == '_' && has_stamp_at(&text, k + 1) && has_any_at(
            &text,
            k + 17,
        ) && has_at(&text, &txt, k + 18) {
            proof {
                lemma_stamp_fits(text@.subrange(k + 1, k + 17));
            }
            let ts = parse_decimal(&text, k + 1, k + 17);
            let name = from_chars(&text, begin, k);
            return match ts {
                Some(ts) => Some(PowerFile { name, ts }),
                None => None,
            };
        }
        assert(!power_tail_at(text@, k as int));
        if text[k] == '\n' {
            begin = k + 1;
        }
        k += 1;
    }
    None
}

/// The benchmark and the timestamp that the name of a profile stands for;
/// `None` where `file_name` holds no such name.
pub fn perffile_to_benchname(file_name: &str) -> (file: Option<PerfFile>)
    ensures
        (match file {
            Some(f) => Some((f.name@, f.ts as int)),
            None => None,
        }) == perf_file_of(file_name@),
{
    proof {
        reveal_strlit("profraw");
    }
    let text = to_chars(file_name);
    let profraw = to_chars("profraw");
    assert(profraw@ =~= profraw_word());
    let mut begin: usize = 0;
    let mut k: usize = 0;
    while k < text.len()
        invariant
            begin <= k <= text.len(),
            text@ == file_name@,
            profraw@ == profraw_word(),
            begin == line_begin(text@, k as int),
            first_perf_tail(text@, k as int) == first_perf_tail(text@, 0),
        decreases text.len() - k,
    {
        if text.len() - k >= 25 && has_any_at(&text, k) && has_at(&text, &profraw, k + 1)
            && has_any_at(&text, k + 8) && has_stamp_at(&text, k + 9) {
            proof {
                lemma_stamp_fits(text@.subrange(k + 9, k + 25));
            }
            let ts = parse_decimal(&text, k + 9, k + 25);
            let name = from_chars(&text, begin, k);
            return match ts {
                Some(ts) => Some(PerfFile { name, ts }),
                None => None,
            };
        }
        assert(!perf_tail_at(text@, k as int));
        if text[k] == '\n' {
            begin = k + 1;
        }
        k += 1;
    }
    None
}

/// The `width` last digits of `n`, with zeros in front where `n` has fewer.
pub open spec fn padded(n: nat, width: nat) -> Seq<char>
    decreases width,
{
    if width == 0 {
        Seq::empty()
    } else {
        padded(n / 10, (width - 1) as nat).push(digit_char((n % 10) as int))
    }
}

/// The name of the power log of the benchmark `name` with the timestamp
/// `ts`.
pub open spec fn power_file_name(name: Seq<char>, ts: nat) -> Seq<char> {
    name + seq!['_'] + padded(ts, 16) + seq!['.', 't', 'x', 't']
}

/// Writing the number of a run of digits with as many digits gives the run
/// back.
pub proof fn lemma_padded_digits(s: Seq<char>)
    requires
        all_digits(s),
    ensures
        padded(decimal_value(s), s.len()) == s,
    decreases s.len(),
{
    if s.len() > 0 {
        let init = s.drop_last();
        assert(all_digits(init)) by {
            assert forall|i: int| 0 <= i < init.len() implies is_digit(#[trigger] init[i]) by {
                assert(init[i] == s[i]);
            }
        }
        lemma_padded_digits(init);
        let c = s.last();
        assert(is_digit(c));
        let d = digit_value(c);
        assert(0 <= d <= 9);
        assert(digit_char(d) == c);
        let v = decimal_value(init);
        assert(decimal_value(s) == v * 10 + d);
        assert((v * 10 + d) / 10 == v && (v * 10 + d) % 10 == d) by (nonlinear_arith)
            requires
                0 <= d <= 9,
                v >= 0,
        ;
        assert(padded(decimal_value(s), s.len()) =~= s);
    } else {
        assert(padded(decimal_value(s), s.len()) =~= s);
    }
}

proof fn lemma_line_begin_without_feed(text: Seq<char>, k: int)
    requires
        0 <= k <= text.len(),
        forall|i: int| 0 <= i < k ==> text[i] != '\n',
    ensures
        line_begin(text, k) == 0,
    decreases k,
{
    if k > 0 {
        lemma_line_begin_without_feed(text, k - 1);
    }
}

proof fn lemma_first_power_tail(text: Seq<char>, k: int, at: int)
    requires
        0 <= k <= at < text.len(),
        power_tail_at(text, at),
        forall|i: int| k <= i < at ==> !power_tail_at(text, i),
    ensures
        first_power_tail(text, k) == Some(at),
    decreases at - k,
{
    if k < at {
        lemma_first_power_tail(text, k + 1, at);
    }
}

/// The name of a power log gives back the benchmark and the timestamp it was
/// made of, and these give back the name.
///
/// This holds for a benchmark's name without a line feed, provided that no
/// shorter name fits: that no underscore inside the name is followed by
/// sixteen digits, one character and `txt`.
pub proof fn lemma_power_file_round_trip(name: Seq<char>, stamp: Seq<char>)
    requires
        all_digits(stamp),
        stamp.len() == 16,
        forall|i: int| 0 <= i < name.len() ==> name[i] != '\n',
        forall|k: int|
            0 <= k < name.len() ==> !power_tail_at(
                name + seq!['_'] + stamp + seq!['.', 't', 'x', 't'],
                k,
            ),
    ensures
        power_file_of(name + seq!['_'] + stamp + seq!['.', 't', 'x', 't']) == Some(
            (name, decimal_value(stamp) as int),
        ),
        power_file_name(name, decimal_value(stamp)) == name + seq!['_'] + stamp + seq![
            '.',
            't',
            'x',
            't',
        ],
{
    let text = name + seq!['_'] + stamp + seq!['.', 't', 'x', 't'];
    let at = name.len() as int;
    assert(text.subrange(at + 1, at + 17) =~= stamp);
    assert(text.subrange(at + 18, at + 21) =~= txt_word());
    assert(text[at] == '_');
    assert(text[at + 17] == '.');
    assert(power_tail_at(text, at));
    lemma_first_power_tail(text, 0, at);
    assert forall|i: int| 0 <= i < at implies text[i] != '\n' by {
        assert(text[i] == name[i]);
    }
    lemma_line_begin_without_feed(text, at);
    assert(text.subrange(0, at) =~= name);
    lemma_padded_digits(stamp);
}

/// One reading of a power log: the moment it was taken, in milliseconds
/// since the epoch, and the energy used between the two counter values it
/// holds.
#[derive(Debug, Clone, Copy, PartialEq, Eq, Structural)]
pub struct EnergyReading {
    pub ts: i64,
    pub energy: i64,
}

/// A counter value of a power log is too large to compute with.
#[derive(Debug, Clone, Copy, PartialEq, Eq, Structural)]
pub struct CounterOverflow {
    /// The index of the reading that holds the value, among the readings of
    /// the log.
    pub reading: usize,
}

/// Where the digits that begin at `p` end, or the first `max` of them.
pub open spec fn digits_end(text: Seq<char>, p: int, max: nat) -> int
    decreases max,
{
    if max > 0 && 0 <= p < text.len() && is_digit(text[p]) {
        digits_end(text, p + 1, (max - 1) as nat)
    } else {
        p
    }
}

/// The reading that begins in `text` at `s`, as the end of its first
/// counter value and the end of its second: a timestamp of thirteen digits,
/// a line feed, a counter value of two to twenty digits, a line feed, and a
/// counter value of two to twenty digits.
pub open spec fn reading_at(text: Seq<char>, s: int) -> Option<(int, int)> {
    if 0 <= s && s + 14 <= text.len() && all_digits(text.subrange(s, s + 13)) && text[s + 13]
        == '\n' {
        let a = digits_end(text, s + 14, 20);
        if a - (s + 14) >= 2 && a < text.len() && text[a] == '\n' {
            let e = digits_end(text, a + 1, 20);
            if e - (a + 1) >= 2 {
                Some((a, e))
            } else {
                None
            }
        } else {
            None
        }
    } else {
        None
    }
}

/// The readings that `text` holds from `s` on, each as its timestamp and its
/// two counter values. A reading begins wherever one fits; the next is
/// looked for behind its end.
pub open spec fn raw_readings_from(text: Seq<char>, s: int) -> Seq<(nat, nat, nat)>
    decreases text.len() - s,
{
    if s < 0 || s >= text.len() {
        Seq::empty()
    } else {
        match reading_at(text, s) {
            Some((a, e)) => if s + 14 <= a < e <= text.len() {
                seq![
                    (
                        decimal_value(text.subrange(s, s + 13)),
                        decimal_value(text.subrange(s + 14, a)),
                        decimal_value(text.subrange(a + 1, e)),
                    ),
                ] + raw_readings_from(text, e)
            } else {
                Seq::empty()
            },
            None => raw_readings_from(text, s + 1),
        }
    }
}

/// Both counter values of the reading can be computed with.
pub open spec fn counters_fit(raw: (nat, nat, nat)) -> bool {
    raw.1 <= i64::MAX && raw.2 <= i64::MAX
}

/// A timestamp of thirteen digits fits in an `i64`.
pub proof fn lemma_millis_fit(s: Seq<char>)
    requires
        all_digits(s),
        s.len() == 13,
    ensures
        decimal_value(s) <= i64::MAX,
{
    lemma_decimal_value_bound(s);
    assert(pow10(0) == 1);
    assert(pow10(1) == 10);
    assert(pow10(2) == 100);
    assert(pow10(3) == 1_000);
    assert(pow10(4) == 10_000);
    assert(pow10(5) == 100_000);
    assert(pow10(6) == 1_000_000);
    assert(pow10(7) == 10_000_000);
    assert(pow10(8) == 100_000_000);
    assert(pow10(9) == 1_000_000_000);
    assert(pow10(10) == 10_000_000_000);
    assert(pow10(11) == 100_000_000_000);
    assert(pow10(12) == 1_000_000_000_000);
    assert(pow10(13) == 10_000_000_000_000);
}

fn skip_digits(text: &Vec<char>, p: usize, max: usize) -> (q: usize)
    requires
        p <= text.len(),
    ensures
        p <= q <= text.len(),
        q - p <= max,
        q == digits_end(text@, p as int, max as nat),
        all_digits(text@.subrange(p as int, q as int)),
{
    let mut q: usize = p;
    let mut left: usize = max;
    while left > 0 && q < text.len() && is_ascii_digit(text[q])
        invariant
            p <= q <= text.len(),
            left <= max,
            q - p == max - left,
            digits_end(text@, q as int, left as nat) == digits_end(text@, p as int, max as nat),
            forall|j: int| p <= j < q ==> is_digit(#[trigger] text@[j]),
        decreases left,
    {
        q += 1;
        left -= 1;
    }
    assert(all_digits(text@.subrange(p as int, q as int))) by {
        assert forall|j: int| 0 <= j < q - p implies is_digit(
            #[trigger] text@.subrange(p as int, q as int)[j],
        ) by {
            assert(text@.subrange(p as int, q as int)[j] == text@[p + j]);
        }
    }
    q
}

/// The readings of a power log, in order.
///
/// A reading gives its timestamp and the difference of its two counter
/// values, the second less the first. A log that holds a counter value
/// beyond the largest `i64` is refused, with the index of the first reading
/// that holds one.
pub fn parse_energy_readings(log: &str) -> (readings: Result<Vec<EnergyReading>, CounterOverflow>)
    ensures
        match readings {
            Ok(list) => {
                &&& list@.len() == raw_readings_from(log@, 0).len()
                &&& forall|i: int|
                    0 <= i < list@.len() ==> {
                        let raw = #[trigger] raw_readings_from(log@, 0)[i];
                        &&& counters_fit(raw)
                        &&& list@[i].ts == raw.0
                        &&& list@[i].energy == raw.2 - raw.1
                    }
            },
            Err(e) => {
                &&& e.reading < raw_readings_from(log@, 0).len()
                &&& !counters_fit(raw_readings_from(log@, 0)[e.reading as int])
                &&& forall|i: int|
                    0 <= i < e.reading ==> counters_fit(#[trigger] raw_readings_from(log@, 0)[i])
            },
        },
{
    let text = to_chars(log);
    let mut list: Vec<EnergyReading> = Vec::new();
    let ghost all = raw_readings_from(text@, 0);
    let ghost mut done: Seq<(nat, nat, nat)> = Seq::empty();
    let mut s: usize = 0;
    while s < text.len()
        invariant
            s <= text.len(),
            text@ == log@,
            all == raw_readings_from(text@, 0),
            done + raw_readings_from(text@, s as int) == all,
            list@.len() == done.len(),
            forall|i: int|
                0 <= i < done.len() ==> {
                    &&& counters_fit(#[trigger] done[i])
                    &&& list@[i].ts == done[i].0
                    &&& list@[i].energy == done[i].2 - done[i].1
                },
        decreases text.len() - s,
    {
        let mut found: Option<(usize, usize)> = None;
        if text.len() - s >= 14 && has_digits(&text, s, 13) && text[s + 13] == '\n' {
            let a = skip_digits(&text, s + 14, 20);
            if a - (s + 14) >= 2 && a < text.len() && text[a] == '\n' {
                let e = skip_digits(&text, a + 1, 20);
                if e - (a + 1) >= 2 {
                    found = Some((a, e));
                }
            }
        }
        match found {
            Some((a, e)) => {
                assert(reading_at(text@, s as int) == Some((a as int, e as int)));
                let ghost raw = (
                    decimal_value(text@.subrange(s as int, s + 13)),
                    decimal_value(text@.subrange(s + 14, a as int)),
                    decimal_value(text@.subrange(a + 1, e as int)),
                );
                proof {
                    lemma_millis_fit(text@.subrange(s as int, s + 13));
                    assert(done.push(raw) + raw_readings_from(text@, e as int) =~= done
                        + raw_readings_from(text@, s as int));
                    assert(all[done.len() as int] == raw);
                }
                let ts = parse_decimal(&text, s, s + 13);
                let before = parse_decimal(&text, s + 14, a);
                let after = parse_decimal(&text, a + 1, e);
                match (ts, before, after) {
                    (Some(ts), Some(before), Some(after)) => {
                        list.push(EnergyReading { ts, energy: after - before });
                        proof {
                            done = done.push(raw);
                        }
                    },
                    _ => {
                        assert(!counters_fit(raw));
                        assert forall|i: int| 0 <= i < done.len() implies counters_fit(
                            #[trigger] all[i],
                        ) by {
                            assert(all[i] == done[i]);
                        }
                        return Err(CounterOverflow { reading: list.len() });
                    },
                }
                s = e;
            },
            None => {
                assert(reading_at(text@, s as int) is None);
                s += 1;
            },
        }
    }
    assert(done + Seq::<(nat, nat, nat)>::empty() =~= done);
    Ok(list)
}

/// Whether `count` digits stand in `text` at `i`.
fn has_digits(text: &Vec<char>, i: usize, count: usize) -> (b: bool)
    requires
        i + count <= text.len(),
    ensures
        b == all_digits(text@.subrange(i as int, i + count)),
{
    let mut k: usize = 0;
    while k < count
        invariant
            k <= count,
            i + count <= text.len(),
            forall|j: int| i <= j < i + k ==> is_digit(#[trigger] text@[j]),
        decreases count - k,
    {
        if !is_ascii_digit(text[i + k]) {
            assert(text@.subrange(i as int, i + count)[k as int] == text@[i + k]);
            return false;
        }
        k += 1;
    }
    assert forall|j: int| 0 <= j < count implies is_digit(
        #[trigger] text@.subrange(i as int, i + count)[j],
    ) by {
        assert(text@.subrange(i as int, i + count)[j] == text@[i + j]);
    }
    true
}

/// What a file of a measurement holds, going by its name.
#[derive(Debug, Clone, Copy, PartialEq, Eq, Structural)]
pub enum MeasurementFile {
    /// A power log: the name ends in `.txt`.
    Power,
    /// A profile: the name does not end in `.txt` and holds `.profraw.`.
    Profile,
    /// Neither.
    Other,
}

/// What ends the name of a power log.
pub open spec fn power_suffix() -> Seq<char> {
    seq!['.', 't', 'x', 't']
}

/// What the name of a profile holds.
pub open spec fn profile_mark() -> Seq<char> {
    seq!['.', 'p', 'r', 'o', 'f', 'r', 'a', 'w', '.']
}

/// What the file named `file_name` holds.
pub fn classify_file(file_name: &str) -> (kind: MeasurementFile)
    ensures
        kind == if power_suffix().is_suffix_of(file_name@) {
            MeasurementFile::Power
        } else if occurs_in(file_name@, profile_mark()) {
            MeasurementFile::Profile
        } else {
            MeasurementFile::Other
        },
{
    proof {
        reveal_strlit(".txt");
        reveal_strlit(".profraw.");
    }
    let name = to_chars(file_name);
    let suffix = to_chars(".txt");
    let mark = to_chars(".profraw.");
    assert(suffix@ =~= power_suffix());
    assert(mark@ =~= profile_mark());
    if ends_with(&name, &suffix) {
        MeasurementFile::Power
    } else if contains(&name, &mark) {
        MeasurementFile::Profile
    } else {
        MeasurementFile::Other
    }
}

/// The readings of the power logs of one benchmark.
#[derive(Debug, Clone)]
pub struct EnergyLog {
    pub name: String,
    pub readings: Vec<EnergyReading>,
}

/// The readings of the logs at `rows`, one log after the other.
pub open spec fn readings_at(logs: Seq<EnergyLog>, rows: Seq<usize>) -> Seq<EnergyReading>
    decreases rows.len(),
{
    if rows.len() == 0 {
        Seq::empty()
    } else {
        readings_at(logs, rows.drop_last()) + logs[rows.last() as int].readings@
    }
}

/// The names of the logs.
pub open spec fn log_names(logs: Seq<EnergyLog>) -> Seq<Seq<char>> {
    Seq::new(logs.len(), |i: int| logs[i].name@)
}

/// `merged` holds the logs `logs` put together by name, as `groups` sorts
/// them: one merged log for each group, with the group's name and the
/// readings of the group's logs, one log after the other.
pub open spec fn merges(merged: Seq<EnergyLog>, groups: Seq<EventGroup>, logs: Seq<EnergyLog>) -> bool {
    &&& groups_rows(groups, log_names(logs))
    &&& merged.len() == groups.len()
    &&& forall|g: int|
        0 <= g < merged.len() ==> {
            &&& (#[trigger] merged[g]).name@ == groups[g].name@
            &&& merged[g].readings@ == readings_at(logs, groups[g].rows@)
        }
}

/// Puts the power logs of each benchmark together: of all the logs with one
/// name a single log is made, which holds their readings in the order of
/// the logs. The merged logs stand in the order in which their benchmarks
/// first occur.
pub fn merge_energy_logs(logs: &Vec<EnergyLog>) -> (merged: Vec<EnergyLog>)
    ensures
        exists|groups: Seq<EventGroup>| merges(merged@, groups, logs@),
{
    let mut names: Vec<String> = Vec::new();
    let mut k: usize = 0;
    while k < logs.len()
        invariant
            k <= logs.len(),
            views(names@) == log_names(logs@).take(k as int),
        decreases logs.len() - k,
    {
        let ghost before = views(names@);
        names.push(logs[k].name.clone());
        assert(views(names@) =~= before.push(logs@[k as int].name@));
        assert(log_names(logs@).take(k + 1) =~= before.push(logs@[k as int].name@));
        k += 1;
    }
    assert(log_names(logs@).take(logs@.len() as int) =~= log_names(logs@));
    let groups = group_by_event(&names);
    let mut merged: Vec<EnergyLog> = Vec::new();
    let mut g: usize = 0;
    while g < groups.len()
        invariant
            g <= groups.len(),
            groups_rows(groups@, log_names(logs@)),
            merged@.len() == g,
            forall|h: int|
                0 <= h < g ==> {
                    &&& (#[trigger] merged@[h]).name@ == groups@[h].name@
                    &&& merged@[h].readings@ == readings_at(logs@, groups@[h].rows@)
                },
        decreases groups.len() - g,
    {
        let group = &groups[g];
        let mut readings: Vec<EnergyReading> = Vec::new();
        let mut j: usize = 0;
        while j < group.rows.len()
            invariant
                j <= group.rows.len(),
                g < groups.len(),
                group == groups@[g as int],
                groups_rows(groups@, log_names(logs@)),
                readings@ == readings_at(logs@, group.rows@.take(j as int)),
            decreases group.rows.len() - j,
        {
            let row = group.rows[j];
            assert(groups@[g as int].rows@[j as int] < log_names(logs@).len());
            let ghost before = readings@;
            let ghost next = group.rows@.take(j + 1);
            assert(next.drop_last() =~= group.rows@.take(j as int));
            assert(next.last() == row);
            let log = &logs[row];
            let mut i: usize = 0;
            while i < log.readings.len()
                invariant
                    i <= log.readings.len(),
                    readings@ == before + log.readings@.take(i as int),
                decreases log.readings.len() - i,
            {
                readings.push(log.readings[i]);
                assert(log.readings@.take(i + 1) =~= log.readings@.take(i as int).push(
                    log.readings@[i as int],
                ));
                i += 1;
            }
            assert(log.readings@.take(log.readings@.len() as int) =~= log.readings@);
            j += 1;
        }
        assert(group.rows@.take(group.rows@.len() as int) =~= group.rows@);
        merged.push(EnergyLog { name: group.name.clone(), readings });
        g += 1;
    }
    assert(merges(merged@, groups@, logs@));
    merged
}

} // verus!
