//! The silence report of the media tool: lines that name the start and the
//! end of each silence in decimal seconds, read into millisecond spans.

use vstd::prelude::*;
use crate::chars::chars_of;
use crate::timeline::{Millis, Segment};
use crate::text::views;
use crate::framing::{lines, split_lines};

verus! {

pub open spec fn is_digit(c: char) -> bool {
    '0' <= c && c <= '9'
}

/// A character of a decimal number: a digit or the point.
pub open spec fn is_number_char(c: char) -> bool {
    is_digit(c) || c == '.'
}

/// The value of a digit; zero for any other character.
pub open spec fn digit_value(c: char) -> nat {
    if c == '1' {
        1
    } else if c == '2' {
        2
    } else if c == '3' {
        3
    } else if c == '4' {
        4
    } else if c == '5' {
        5
    } else if c == '6' {
        6
    } else if c == '7' {
        7
    } else if c == '8' {
        8
    } else if c == '9' {
        9
    } else {
        0
    }
}

/// Whether `key` stands in `line` at `p`.
pub open spec fn holds_at(line: Seq<char>, p: int, key: Seq<char>) -> bool {
    0 <= p && p + key.len() <= line.len() && line.subrange(p, p + key.len()) == key
}

/// Whether `key` stands in `line` at `p` with a number behind it.
pub open spec fn number_starts(line: Seq<char>, key: Seq<char>, p: int) -> bool {
    holds_at(line, p, key) && p + key.len() < line.len() && is_number_char(line[p + key.len()])
}

/// Where the number behind the first `key` from `p` on begins, the keys
/// without a number behind them passed over.
pub open spec fn find_number(line: Seq<char>, key: Seq<char>, p: int) -> Option<int>
    decreases line.len() - p,
{
    if p < 0 || p >= line.len() {
        None
    } else if number_starts(line, key, p) {
        Some(p + key.len())
    } else {
        find_number(line, key, p + 1)
    }
}

/// Where the run of number characters that begins at `q` ends.
pub open spec fn number_end(line: Seq<char>, q: int) -> int
    decreases line.len() - q,
{
    if q < 0 || q >= line.len() || !is_number_char(line[q]) {
        q
    } else {
        number_end(line, q + 1)
    }
}

/// The number that `line` gives behind `key`: the longest run of digits and
/// points behind the first `key` that has one.
pub open spec fn captured(line: Seq<char>, key: Seq<char>) -> Option<Seq<char>> {
    match find_number(line, key, 0) {
        Some(q) => Some(line.subrange(q, number_end(line, q))),
        None => None,
    }
}

/// Where the first point of `c` from `p` on stands; the length of `c` if
/// there is none.
pub open spec fn dot_index(c: Seq<char>, p: int) -> int
    decreases c.len() - p,
{
    if p < 0 || p >= c.len() || c[p] == '.' {
        p
    } else {
        dot_index(c, p + 1)
    }
}

pub open spec fn all_digits(c: Seq<char>) -> bool {
    forall|i: int| 0 <= i < c.len() ==> is_digit(#[trigger] c[i])
}

/// The digits before the point.
pub open spec fn whole_part(c: Seq<char>) -> Seq<char> {
    c.take(dot_index(c, 0))
}

/// The digits behind the point.
pub open spec fn frac_part(c: Seq<char>) -> Seq<char> {
    if dot_index(c, 0) < c.len() {
        c.skip(dot_index(c, 0) + 1)
    } else {
        Seq::empty()
    }
}

/// A decimal number: digits with at most one point among them, and at
/// least one digit.
pub open spec fn is_decimal(c: Seq<char>) -> bool {
    all_digits(whole_part(c)) && all_digits(frac_part(c)) && whole_part(c).len() + frac_part(
        c,
    ).len() > 0
}

/// The number that a string of digits writes.
pub open spec fn digits_value(d: Seq<char>) -> nat
    decreases d.len(),
{
    if d.len() == 0 {
        0
    } else {
        digits_value(d.drop_last()) * 10 + digit_value(d.last())
    }
}

/// The digit at place `i` behind the point; zero beyond the last.
pub open spec fn frac_digit(frac: Seq<char>, i: int) -> nat {
    if 0 <= i < frac.len() {
        digit_value(frac[i])
    } else {
        0
    }
}

/// The thousandths that the digits behind the point stand for, rounded to
/// the nearest by the fourth digit.
pub open spec fn frac_millis(frac: Seq<char>) -> nat {
    frac_digit(frac, 0) * 100 + frac_digit(frac, 1) * 10 + frac_digit(frac, 2) + if frac_digit(
        frac,
        3,
    ) >= 5 {
        1nat
    } else {
        0nat
    }
}

/// A decimal number of seconds in milliseconds.
pub open spec fn decimal_value_ms(c: Seq<char>) -> nat {
    digits_value(whole_part(c)) * 1000 + frac_millis(frac_part(c))
}

/// The milliseconds that `c` stands for, if it is a decimal number of
/// seconds within the range of the timeline.
pub open spec fn decimal_millis(c: Seq<char>) -> Option<Millis> {
    if is_decimal(c) && decimal_value_ms(c) <= u64::MAX {
        Some(decimal_value_ms(c) as Millis)
    } else {
        None
    }
}

/// What a line begins a silence with.
pub open spec fn start_key() -> Seq<char> {
    seq!['s', 'i', 'l', 'e', 'n', 'c', 'e', '_', 's', 't', 'a', 'r', 't', ':', ' ']
}

/// What a line ends a silence with.
pub open spec fn end_key() -> Seq<char> {
    seq!['s', 'i', 'l', 'e', 'n', 'c', 'e', '_', 'e', 'n', 'd', ':', ' ']
}

/// The state of the reading: the silences read so far, and the start of a
/// silence whose end has not been read yet.
pub struct SilenceScan {
    pub spans: Seq<Segment>,
    pub open: Option<Millis>,
}

/// The state after one more line. A line that gives a start opens a
/// silence; a line that gives no start but an end closes the open silence,
/// which is recorded if it has positive duration. A number that cannot be
/// read changes nothing.
pub open spec fn silence_step(st: SilenceScan, line: Seq<char>) -> SilenceScan {
    match captured(line, start_key()) {
        Some(c) => match decimal_millis(c) {
            Some(start) => SilenceScan { spans: st.spans, open: Some(start) },
            None => st,
        },
        None => match captured(line, end_key()) {
            Some(c) => match (decimal_millis(c), st.open) {
                (Some(end), Some(start)) => SilenceScan {
                    spans: if start < end {
                        st.spans.push(Segment { start, end })
                    } else {
                        st.spans
                    },
                    open: None,
                },
                _ => st,
            },
            None => st,
        },
    }
}

/// The state after the first `k` lines.
pub open spec fn silence_scan(all: Seq<Seq<char>>, k: int) -> SilenceScan
    decreases k,
{
    if k <= 0 {
        SilenceScan { spans: Seq::empty(), open: None }
    } else {
        silence_step(silence_scan(all, k - 1), all[k - 1])
    }
}

/// The silences that a report names.
pub open spec fn silences_of(report: Seq<char>) -> Seq<Segment> {
    silence_scan(lines(report), lines(report).len() as int).spans
}

/// The digits of a prefix write no greater number than all the digits.
pub proof fn lemma_digits_prefix(d: Seq<char>, i: int)
    requires
        0 <= i <= d.len(),
    ensures
        digits_value(d.take(i)) <= digits_value(d),
    decreases d.len() - i,
{
    if i == d.len() {
        assert(d.take(i) =~= d);
    } else {
        lemma_digits_prefix(d.drop_last(), i);
        assert(d.drop_last().take(i) =~= d.take(i));
    }
}

pub fn char_is_digit(c: char) -> (b: bool)
    ensures
        b == is_digit(c),
{
    '0' <= c && c <= '9'
}

pub fn value_of_digit(c: char) -> (v: u128)
    ensures
        v == digit_value(c),
        v <= 9,
{
    if c == '1' {
        1
    } else if c == '2' {
        2
    } else if c == '3' {
        3
    } else if c == '4' {
        4
    } else if c == '5' {
        5
    } else if c == '6' {
        6
    } else if c == '7' {
        7
    } else if c == '8' {
        8
    } else if c == '9' {
        9
    } else {
        0
    }
}

/// Whether `key` stands in `line` at `p`.
pub fn key_holds_at(line: &Vec<char>, p: usize, key: &Vec<char>) -> (b: bool)
    ensures
        b == holds_at(line@, p as int, key@),
{
    if p > line.len() || line.len() - p < key.len() {
        return false;
    }
    let ghost part = line@.subrange(p as int, p + key.len());
    let mut i: usize = 0;
    while i < key.len()
        invariant
            i <= key.len(),
            p + key.len() <= line.len(),
            part == line@.subrange(p as int, p + key.len()),
            forall|k: int| 0 <= k < i ==> part[k] == key@[k],
        decreases key.len() - i,
    {
        if line[p + i] != key[i] {
            proof {
                assert(part[i as int] == line@[p + i]);
            }
            return false;
        }
        i += 1;
    }
    proof {
        assert(part =~= key@);
    }
    true
}

/// Reads the number that `line` gives behind `key`.
pub fn capture_number(line: &Vec<char>, key: &Vec<char>) -> (c: Option<Vec<char>>)
    ensures
        match captured(line@, key@) {
            Some(v) => c is Some && c->0@ == v,
            None => c is None,
        },
{
    let mut p: usize = 0;
    while p < line.len()
        invariant
            p <= line.len(),
            find_number(line@, key@, p as int) == find_number(line@, key@, 0),
        decreases line.len() - p,
    {
        if key_holds_at(line, p, key) && p + key.len() < line.len() && (char_is_digit(
            line[p + key.len()],
        ) || line[p + key.len()] == '.') {
            let q: usize = p + key.len();
            let mut out: Vec<char> = Vec::new();
            let mut e: usize = q;
            while e < line.len() && (char_is_digit(line[e]) || line[e] == '.')
                invariant
                    q <= e <= line.len(),
                    number_end(line@, e as int) == number_end(line@, q as int),
                    out@ == line@.subrange(q as int, e as int),
                decreases line.len() - e,
            {
                out.push(line[e]);
                proof {
                    assert(line@.subrange(q as int, e + 1) =~= line@.subrange(
                        q as int,
                        e as int,
                    ).push(line@[e as int]));
                }
                e += 1;
            }
            return Some(out);
        }
        p += 1;
    }
    None
}

/// Reads a decimal number of seconds as milliseconds, rounded to the
/// nearest. Fails exactly when `c` is no decimal number or the result does
/// not fit the timeline.
pub fn parse_decimal_millis(c: &Vec<char>) -> (r: Option<Millis>)
    ensures
        r == decimal_millis(c@),
{
    let n: usize = c.len();
    let mut d: usize = 0;
    while d < n && c[d] != '.'
        invariant
            d <= n,
            n == c.len(),
            dot_index(c@, d as int) == dot_index(c@, 0),
        decreases n - d,
    {
        d += 1;
    }
    let ghost whole = whole_part(c@);
    let ghost frac = frac_part(c@);
    assert(whole == c@.take(d as int));
    let mut acc: u128 = 0;
    let mut i: usize = 0;
    while i < d
        invariant
            i <= d <= n,
            n == c.len(),
            whole == c@.take(d as int),
            whole == whole_part(c@),
            acc == digits_value(whole.take(i as int)),
            acc <= u64::MAX,
            forall|k: int| 0 <= k < i ==> is_digit(#[trigger] whole[k]),
        decreases d - i,
    {
        proof {
            assert(whole.take(i + 1).drop_last() =~= whole.take(i as int));
            assert(whole[i as int] == c@[i as int]);
        }
        if !char_is_digit(c[i]) {
            proof {
                assert(!is_digit(whole[i as int]));
                assert(!all_digits(whole));
            }
            return None;
        }
        acc = acc * 10 + value_of_digit(c[i]);
        proof {
            assert(whole.take(i + 1).last() == c@[i as int]);
            assert(acc == digits_value(whole.take(i + 1)));
        }
        if acc > u64::MAX as u128 {
            proof {
                lemma_digits_prefix(whole, i + 1);
                assert(decimal_value_ms(c@) >= digits_value(whole));
            }
            return None;
        }
        i += 1;
    }
    proof {
        assert(whole.take(d as int) =~= whole);
    }
    let mut j: usize = if d < n {
        d + 1
    } else {
        n
    };
    let first: usize = j;
    proof {
        if d < n {
            assert(frac == c@.skip(d + 1));
        } else {
            assert(frac.len() == 0);
        }
    }
    while j < n
        invariant
            first <= j <= n,
            n == c.len(),
            d < n ==> first == d + 1 && frac == c@.skip(d + 1),
            d >= n ==> first == n,
            frac == frac_part(c@),
            forall|k: int| 0 <= k < j - first ==> is_digit(#[trigger] frac[k]),
        decreases n - j,
    {
        proof {
            assert(frac[j - first] == c@[j as int]);
        }
        if !char_is_digit(c[j]) {
            proof {
                assert(!is_digit(frac[j - first]));
                assert(!all_digits(frac));
            }
            return None;
        }
        j += 1;
    }
    if d + (n - first) == 0 {
        return None;
    }
    let f0: u128 = if first < n {
        value_of_digit(c[first])
    } else {
        0
    };
    let f1: u128 = if n - first > 1 {
        value_of_digit(c[first + 1])
    } else {
        0
    };
    let f2: u128 = if n - first > 2 {
        value_of_digit(c[first + 2])
    } else {
        0
    };
    let f3: u128 = if n - first > 3 {
        value_of_digit(c[first + 3])
    } else {
        0
    };
    proof {
        assert(f0 == frac_digit(frac, 0));
        assert(f1 == frac_digit(frac, 1));
        assert(f2 == frac_digit(frac, 2));
        assert(f3 == frac_digit(frac, 3));
    }
    let up: u128 = if f3 >= 5 {
        1
    } else {
        0
    };
    let total: u128 = acc * 1000 + f0 * 100 + f1 * 10 + f2 + up;
    if total > u64::MAX as u128 {
        None
    } else {
        Some(total as u64)
    }
}

/// Reads the silences off the report of the media tool. Each silence is
/// named by a line with `silence_start: ` and a later line with
/// `silence_end: `, each followed by a decimal number of seconds.
///
/// Every span returned has positive duration.
pub fn parse_silence_output(output: &str) -> (out: Vec<Segment>)
    ensures
        out@ == silences_of(output@),
        forall|i: int| 0 <= i < out.len() ==> (#[trigger] out@[i]).valid(),
{
    let all = split_lines(&chars_of(output));
    let start: Vec<char> = vec![
        's', 'i', 'l', 'e', 'n', 'c', 'e', '_', 's', 't', 'a', 'r', 't', ':', ' ',
    ];
    let end: Vec<char> = vec!['s', 'i', 'l', 'e', 'n', 'c', 'e', '_', 'e', 'n', 'd', ':', ' '];
    proof {
        assert(start@ =~= start_key());
        assert(end@ =~= end_key());
    }
    let mut out: Vec<Segment> = Vec::new();
    let mut open: Option<Millis> = None;
    let mut i: usize = 0;
    while i < all.len()
        invariant
            i <= all.len(),
            start@ == start_key(),
            end@ == end_key(),
            silence_scan(views(all@), i as int) == (SilenceScan { spans: out@, open }),
            forall|k: int| 0 <= k < out.len() ==> (#[trigger] out@[k]).valid(),
        decreases all.len() - i,
    {
        match capture_number(&all[i], &start) {
            Some(c) => {
                match parse_decimal_millis(&c) {
                    Some(v) => {
                        open = Some(v);
                    },
                    None => {},
                }
            },
            None => {
                match capture_number(&all[i], &end) {
                    Some(c) => {
                        match (parse_decimal_millis(&c), open) {
                            (Some(e), Some(s)) => {
                                if s < e {
                                    out.push(Segment { start: s, end: e });
                                }
                                open = None;
                            },
                            _ => {},
                        }
                    },
                    None => {},
                }
            },
        }
        i += 1;
    }
    out
}

} // verus!
