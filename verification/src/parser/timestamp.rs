use vstd::prelude::*;
use crate::calendar::{parse_hm, parse_ymd, valid_ymd, Date, DateTime, Time};
use crate::classes::{regex_digit, regex_digit_class, regex_word, regex_word_class};
use crate::text::{
    char_at, is_ws, chars_of, find_sub, is_ascii_digit, is_char_at, lemma_find_sub, occurs_at, skip_ws,
    string_of, ws_end, find_lit,
};

verus! {

broadcast use vstd::string::group_string_axioms;

#[derive(Clone, Copy, Debug, PartialEq, Eq, Structural)]
pub enum TimestampType {
    Active,
    Inactive,
    Scheduled,
    Deadline,
    Closed,
}

/// An org timestamp such as `<2026-03-06 Fri 10:00-11:00 .+1d>` or `[2026-03-05 Thu]`.
#[derive(Clone, Debug, PartialEq, Eq)]
pub struct OrgTimestamp {
    pub timestamp_type: TimestampType,
    pub date: Date,
    pub time: Option<Time>,
    pub end_time: Option<Time>,
    pub repeater: Option<String>,
}

/// The mathematical value of an `OrgTimestamp`.
pub struct TimestampView {
    pub timestamp_type: TimestampType,
    pub date: Date,
    pub time: Option<Time>,
    pub end_time: Option<Time>,
    pub repeater: Option<Seq<char>>,
}

pub open spec fn opt_str_view(o: Option<String>) -> Option<Seq<char>> {
    match o {
        Some(s) => Some(s@),
        None => None,
    }
}

impl View for OrgTimestamp {
    type V = TimestampView;

    open spec fn view(&self) -> TimestampView {
        TimestampView {
            timestamp_type: self.timestamp_type,
            date: self.date,
            time: self.time,
            end_time: self.end_time,
            repeater: opt_str_view(self.repeater),
        }
    }
}

pub open spec fn opt_ts_view(o: Option<OrgTimestamp>) -> Option<TimestampView> {
    match o {
        Some(t) => Some(t@),
        None => None,
    }
}

// ---------------------------------------------------------------------------
// The grammar of timestamps
// ---------------------------------------------------------------------------

/// `\d` matches at `i`.
pub open spec fn digit_at(s: Seq<char>, i: int) -> bool {
    0 <= i < s.len() && regex_digit_class(s[i])
}

/// The end of the run of `\d` that starts at `i`.
pub open spec fn digit_end(s: Seq<char>, i: int) -> int
    decreases s.len() - i,
{
    if digit_at(s, i) {
        digit_end(s, i + 1)
    } else {
        i
    }
}

/// The end of the run of `\w` that starts at `i`.
pub open spec fn word_end(s: Seq<char>, i: int) -> int
    decreases s.len() - i,
{
    if 0 <= i < s.len() && regex_word_class(s[i]) {
        word_end(s, i + 1)
    } else {
        i
    }
}

/// The end of the run of `.` and `+` that starts at `i`.
pub open spec fn plus_dot_end(s: Seq<char>, i: int) -> int
    decreases s.len() - i,
{
    if 0 <= i < s.len() && (s[i] == '.' || s[i] == '+') {
        plus_dot_end(s, i + 1)
    } else {
        i
    }
}

/// The end of the run of characters other than `c` that starts at `i`.
pub open spec fn not_char_end(s: Seq<char>, i: int, c: char) -> int
    decreases s.len() - i,
{
    if 0 <= i < s.len() && s[i] != c {
        not_char_end(s, i + 1, c)
    } else {
        i
    }
}

/// `\d{4}-\d{2}-\d{2}` matches at `i`.
pub open spec fn date_pattern_at(s: Seq<char>, i: int) -> bool {
    &&& digit_at(s, i)
    &&& digit_at(s, i + 1)
    &&& digit_at(s, i + 2)
    &&& digit_at(s, i + 3)
    &&& char_at(s, i + 4, '-')
    &&& digit_at(s, i + 5)
    &&& digit_at(s, i + 6)
    &&& char_at(s, i + 7, '-')
    &&& digit_at(s, i + 8)
    &&& digit_at(s, i + 9)
}

/// `\d{2}:\d{2}` matches at `i`.
pub open spec fn hhmm_pattern_at(s: Seq<char>, i: int) -> bool {
    &&& digit_at(s, i)
    &&& digit_at(s, i + 1)
    &&& char_at(s, i + 2, ':')
    &&& digit_at(s, i + 3)
    &&& digit_at(s, i + 4)
}

/// `[dwmy]` matches at `i`.
pub open spec fn unit_at(s: Seq<char>, i: int) -> bool {
    0 <= i < s.len() && (s[i] == 'd' || s[i] == 'w' || s[i] == 'm' || s[i] == 'y')
}

/// Where the parts of one timestamp match in the text.
#[derive(Clone, Copy, Debug, PartialEq, Eq)]
pub struct TsSpan {
    /// Index of the first digit of the date.
    pub date: usize,
    /// Index of the start time, where there is one.
    pub time: Option<usize>,
    /// Index of the end time, where there is one.
    pub end_time: Option<usize>,
    /// Bounds of the repeater, where there is one.
    pub repeater: Option<(usize, usize)>,
    /// Index just after the part matched so far.
    pub next: usize,
}

/// What `(\d{4}-\d{2}-\d{2})\s+\w+(?:\s+(\d{2}:\d{2})(?:-(\d{2}:\d{2}))?)?` matches at `i`.
/// The runs of white space and word characters cannot give characters back to what follows
/// them, and the optional time parts are taken wherever they match, so the match is unique.
pub open spec fn ts_core(s: Seq<char>, i: int) -> Option<TsSpan> {
    let p = i + 10;
    let p2 = ws_end(s, p);
    let p3 = word_end(s, p2);
    let q = ws_end(s, p3);
    if !date_pattern_at(s, i) || p2 == p || p3 == p2 {
        None
    } else if q > p3 && hhmm_pattern_at(s, q) {
        if char_at(s, q + 5, '-') && hhmm_pattern_at(s, q + 6) {
            Some(
                TsSpan {
                    date: i as usize,
                    time: Some(q as usize),
                    end_time: Some((q + 6) as usize),
                    repeater: None,
                    next: (q + 11) as usize,
                },
            )
        } else {
            Some(
                TsSpan {
                    date: i as usize,
                    time: Some(q as usize),
                    end_time: None,
                    repeater: None,
                    next: (q + 5) as usize,
                },
            )
        }
    } else {
        Some(TsSpan { date: i as usize, time: None, end_time: None, repeater: None, next: p3 as usize })
    }
}

/// The end of what `[.+]+\d+[dwmy](?:/\d+[dwmy])?` matches at `i`.
pub open spec fn repeater_end(s: Seq<char>, i: int) -> Option<int> {
    let a = plus_dot_end(s, i);
    let b = digit_end(s, a);
    if a == i || b == a || !unit_at(s, b) {
        None
    } else if char_at(s, b + 1, '/') && digit_end(s, b + 2) > b + 2 && unit_at(
        s,
        digit_end(s, b + 2),
    ) {
        Some(digit_end(s, b + 2) + 1)
    } else {
        Some(b + 1)
    }
}

/// What the active-timestamp pattern
/// `<(\d{4}-\d{2}-\d{2})\s+\w+(?:\s+(\d{2}:\d{2})(?:-(\d{2}:\d{2}))?)?(?:\s+([.+]+\d+[dwmy](?:/\d+[dwmy])?))?>`
/// matches at `i`; `next` is the index after the closing `>`.
pub open spec fn active_at(s: Seq<char>, i: int) -> Option<TsSpan> {
    if !char_at(s, i, '<') {
        None
    } else {
        match ts_core(s, i + 1) {
            None => None,
            Some(m) => {
                let r0 = ws_end(s, m.next as int);
                if r0 > m.next {
                    match repeater_end(s, r0) {
                        Some(e) => if char_at(s, e, '>') {
                            Some(TsSpan { repeater: Some((r0 as usize, e as usize)), next: (e + 1) as usize, ..m })
                        } else {
                            None
                        },
                        None => None,
                    }
                } else if char_at(s, m.next as int, '>') {
                    Some(TsSpan { next: (m.next + 1) as usize, ..m })
                } else {
                    None
                }
            },
        }
    }
}

/// What the inactive-timestamp pattern
/// `\[(\d{4}-\d{2}-\d{2})\s+\w+(?:\s+(\d{2}:\d{2})(?:-(\d{2}:\d{2}))?)?\]` matches at `i`.
pub open spec fn inactive_at(s: Seq<char>, i: int) -> Option<TsSpan> {
    if !char_at(s, i, '[') {
        None
    } else {
        match ts_core(s, i + 1) {
            None => None,
            Some(m) => if char_at(s, m.next as int, ']') {
                Some(TsSpan { next: (m.next + 1) as usize, ..m })
            } else {
                None
            },
        }
    }
}

/// The leftmost match of the active (`active` true) or inactive pattern at or after `i`.
pub open spec fn first_ts(s: Seq<char>, i: int, active: bool) -> Option<TsSpan>
    decreases s.len() - i,
{
    if i < 0 || i >= s.len() {
        None
    } else {
        let m = if active {
            active_at(s, i)
        } else {
            inactive_at(s, i)
        };
        match m {
            Some(m) => Some(m),
            None => first_ts(s, i + 1, active),
        }
    }
}

pub open spec fn digit_value(c: char) -> int {
    c as int - '0' as int
}

pub open spec fn num2(s: Seq<char>, i: int) -> int {
    10 * digit_value(s[i]) + digit_value(s[i + 1])
}

pub open spec fn ascii_digits2(s: Seq<char>, i: int) -> bool {
    is_ascii_digit(s[i]) && is_ascii_digit(s[i + 1])
}

/// The date that `chrono` reads with `%Y-%m-%d` from the ten characters at `i` (which
/// match `\d{4}-\d{2}-\d{2}`): ASCII digits that name an existing day.
pub open spec fn date_value(s: Seq<char>, i: int) -> Option<Date> {
    let y = 100 * num2(s, i) + num2(s, i + 2);
    let m = num2(s, i + 5);
    let d = num2(s, i + 8);
    if ascii_digits2(s, i) && ascii_digits2(s, i + 2) && ascii_digits2(s, i + 5) && ascii_digits2(
        s,
        i + 8,
    ) && valid_ymd(y, m, d) {
        Some(Date { year: y as i32, month: m as u32, day: d as u32 })
    } else {
        None
    }
}

/// The time that `chrono` reads with `%H:%M` from the five characters at `i`.
pub open spec fn time_value(s: Seq<char>, i: int) -> Option<Time> {
    let h = num2(s, i);
    let m = num2(s, i + 3);
    if ascii_digits2(s, i) && ascii_digits2(s, i + 3) && h < 24 && m < 60 {
        Some(Time { hour: h as u32, minute: m as u32 })
    } else {
        None
    }
}

pub open spec fn opt_time_value(s: Seq<char>, i: Option<usize>) -> Option<Time> {
    match i {
        Some(i) => time_value(s, i as int),
        None => None,
    }
}

/// The timestamp of type `t` that the match `m` in `s` denotes: none where the date does
/// not exist; a time that does not exist is left out.
pub open spec fn ts_from_span(s: Seq<char>, m: TsSpan, t: TimestampType) -> Option<TimestampView> {
    match date_value(s, m.date as int) {
        None => None,
        Some(d) => Some(
            TimestampView {
                timestamp_type: t,
                date: d,
                time: opt_time_value(s, m.time),
                end_time: opt_time_value(s, m.end_time),
                repeater: match m.repeater {
                    Some(r) => Some(s.subrange(r.0 as int, r.1 as int)),
                    None => None,
                },
            },
        ),
    }
}

/// `OrgTimestamp::parse_active`.
pub open spec fn parse_active_spec(s: Seq<char>) -> Option<TimestampView> {
    match first_ts(s, 0, true) {
        None => None,
        Some(m) => ts_from_span(s, m, TimestampType::Active),
    }
}

/// `OrgTimestamp::parse_inactive`.
pub open spec fn parse_inactive_spec(s: Seq<char>) -> Option<TimestampView> {
    match first_ts(s, 0, false) {
        None => None,
        Some(m) => ts_from_span(s, m, TimestampType::Inactive),
    }
}

/// What `<kw>\s*(<open>[^<close>]+<close>)` captures at the occurrence `k` of `kw`.
pub open spec fn capture_after(s: Seq<char>, k: int, kw_len: int, open: char, close: char) -> Option<
    (int, int),
> {
    let j = ws_end(s, k + kw_len);
    let e = not_char_end(s, j + 1, close);
    if char_at(s, j, open) && e > j + 1 && char_at(s, e, close) {
        Some((j, e + 1))
    } else {
        None
    }
}

/// The capture of the leftmost match of `kw\s*(open[^close]+close)` at or after `i`.
pub open spec fn first_capture(s: Seq<char>, kw: Seq<char>, open: char, close: char, i: int) -> Option<
    (int, int),
>
    decreases s.len() + 1 - i,
{
    if i < 0 {
        None
    } else {
        match find_sub(s, kw, i) {
            None => None,
            Some(k) => {
                proof {
                    lemma_find_sub(s, kw, i);
                }
                match capture_after(s, k, kw.len() as int, open, close) {
                    Some(r) => Some(r),
                    None => if k + 1 <= s.len() + 1 {
                        first_capture(s, kw, open, close, k + 1)
                    } else {
                        None
                    },
                }
            },
        }
    }
}

/// The timestamp that follows the keyword `kw` (`SCHEDULED:`, `DEADLINE:` or `CLOSED:`),
/// retyped as `t`.
pub open spec fn parse_keyword_spec(s: Seq<char>, kw: Seq<char>, active: bool, t: TimestampType) -> Option<TimestampView> {
    let open = if active { '<' } else { '[' };
    let close = if active { '>' } else { ']' };
    match first_capture(s, kw, open, close, 0) {
        None => None,
        Some(c) => {
            let sub = s.subrange(c.0, c.1);
            let parsed = if active {
                parse_active_spec(sub)
            } else {
                parse_inactive_spec(sub)
            };
            match parsed {
                Some(ts) => Some(TimestampView { timestamp_type: t, ..ts }),
                None => None,
            }
        },
    }
}

pub open spec fn parse_scheduled_spec(s: Seq<char>) -> Option<TimestampView> {
    parse_keyword_spec(s, "SCHEDULED:"@, true, TimestampType::Scheduled)
}

pub open spec fn parse_deadline_spec(s: Seq<char>) -> Option<TimestampView> {
    parse_keyword_spec(s, "DEADLINE:"@, true, TimestampType::Deadline)
}

pub open spec fn parse_closed_spec(s: Seq<char>) -> Option<TimestampView> {
    parse_keyword_spec(s, "CLOSED:"@, false, TimestampType::Closed)
}

// ---------------------------------------------------------------------------
// Matching
// ---------------------------------------------------------------------------

fn is_digit_at(v: &Vec<char>, i: usize) -> (r: bool)
    ensures
        r == digit_at(v@, i as int),
{
    i < v.len() && regex_digit(v[i])
}

fn skip_digits(v: &Vec<char>, i: usize) -> (j: usize)
    requires
        i <= v.len(),
    ensures
        j == digit_end(v@, i as int),
        i <= j <= v.len(),
{
    let mut k = i;
    while k < v.len() && regex_digit(v[k])
        invariant
            i <= k <= v.len(),
            digit_end(v@, i as int) == digit_end(v@, k as int),
        decreases v.len() - k,
    {
        k += 1;
    }
    k
}

fn skip_word(v: &Vec<char>, i: usize) -> (j: usize)
    requires
        i <= v.len(),
    ensures
        j == word_end(v@, i as int),
        i <= j <= v.len(),
{
    let mut k = i;
    while k < v.len() && regex_word(v[k])
        invariant
            i <= k <= v.len(),
            word_end(v@, i as int) == word_end(v@, k as int),
        decreases v.len() - k,
    {
        k += 1;
    }
    k
}

fn skip_plus_dot(v: &Vec<char>, i: usize) -> (j: usize)
    requires
        i <= v.len(),
    ensures
        j == plus_dot_end(v@, i as int),
        i <= j <= v.len(),
{
    let mut k = i;
    while k < v.len() && (v[k] == '.' || v[k] == '+')
        invariant
            i <= k <= v.len(),
            plus_dot_end(v@, i as int) == plus_dot_end(v@, k as int),
        decreases v.len() - k,
    {
        k += 1;
    }
    k
}

fn skip_not_char(v: &Vec<char>, i: usize, c: char) -> (j: usize)
    requires
        i <= v.len(),
    ensures
        j == not_char_end(v@, i as int, c),
        i <= j <= v.len(),
{
    let mut k = i;
    while k < v.len() && v[k] != c
        invariant
            i <= k <= v.len(),
            not_char_end(v@, i as int, c) == not_char_end(v@, k as int, c),
        decreases v.len() - k,
    {
        k += 1;
    }
    k
}

fn is_date_pattern_at(v: &Vec<char>, i: usize) -> (r: bool)
    requires
        i <= v.len(),
    ensures
        r == date_pattern_at(v@, i as int),
{
    if v.len() - i < 10 {
        return false;
    }
    is_digit_at(v, i) && is_digit_at(v, i + 1) && is_digit_at(v, i + 2) && is_digit_at(v, i + 3)
        && is_char_at(v, i + 4, '-') && is_digit_at(v, i + 5) && is_digit_at(v, i + 6)
        && is_char_at(v, i + 7, '-') && is_digit_at(v, i + 8) && is_digit_at(v, i + 9)
}

fn is_hhmm_pattern_at(v: &Vec<char>, i: usize) -> (r: bool)
    requires
        i <= v.len(),
    ensures
        r == hhmm_pattern_at(v@, i as int),
{
    if v.len() - i < 5 {
        return false;
    }
    is_digit_at(v, i) && is_digit_at(v, i + 1) && is_char_at(v, i + 2, ':') && is_digit_at(v, i + 3)
        && is_digit_at(v, i + 4)
}

fn is_unit_at(v: &Vec<char>, i: usize) -> (r: bool)
    ensures
        r == unit_at(v@, i as int),
{
    i < v.len() && (v[i] == 'd' || v[i] == 'w' || v[i] == 'm' || v[i] == 'y')
}

fn match_ts_core(v: &Vec<char>, i: usize) -> (r: Option<TsSpan>)
    requires
        i <= v.len(),
    ensures
        r == ts_core(v@, i as int),
        r matches Some(m) ==> m.next <= v.len(),
{
    if !is_date_pattern_at(v, i) {
        return None;
    }
    let p = i + 10;
    let p2 = skip_ws(v, p);
    if p2 == p {
        return None;
    }
    let p3 = skip_word(v, p2);
    if p3 == p2 {
        return None;
    }
    let q = skip_ws(v, p3);
    if q > p3 && is_hhmm_pattern_at(v, q) {
        if is_char_at(v, q + 5, '-') && is_hhmm_pattern_at(v, q + 6) {
            Some(TsSpan { date: i, time: Some(q), end_time: Some(q + 6), repeater: None, next: q + 11 })
        } else {
            Some(TsSpan { date: i, time: Some(q), end_time: None, repeater: None, next: q + 5 })
        }
    } else {
        Some(TsSpan { date: i, time: None, end_time: None, repeater: None, next: p3 })
    }
}

fn match_repeater(v: &Vec<char>, i: usize) -> (r: Option<usize>)
    requires
        i <= v.len(),
    ensures
        match r {
            Some(e) => repeater_end(v@, i as int) == Some(e as int) && e <= v.len(),
            None => repeater_end(v@, i as int) is None,
        },
{
    let a = skip_plus_dot(v, i);
    if a == i {
        return None;
    }
    let b = skip_digits(v, a);
    if b == a || !is_unit_at(v, b) {
        return None;
    }
    if is_char_at(v, b + 1, '/') {
        let c = skip_digits(v, b + 2);
        if c > b + 2 && is_unit_at(v, c) {
            return Some(c + 1);
        }
    }
    Some(b + 1)
}

fn match_active_at(v: &Vec<char>, i: usize) -> (r: Option<TsSpan>)
    requires
        i <= v.len(),
    ensures
        r == active_at(v@, i as int),
        r matches Some(m) ==> m.next <= v.len(),
{
    if !is_char_at(v, i, '<') {
        return None;
    }
    match match_ts_core(v, i + 1) {
        None => None,
        Some(m) => {
            let r0 = skip_ws(v, m.next);
            if r0 > m.next {
                match match_repeater(v, r0) {
                    Some(e) => if is_char_at(v, e, '>') {
                        Some(TsSpan { repeater: Some((r0, e)), next: e + 1, ..m })
                    } else {
                        None
                    },
                    None => None,
                }
            } else if is_char_at(v, m.next, '>') {
                Some(TsSpan { next: m.next + 1, ..m })
            } else {
                None
            }
        },
    }
}

fn match_inactive_at(v: &Vec<char>, i: usize) -> (r: Option<TsSpan>)
    requires
        i <= v.len(),
    ensures
        r == inactive_at(v@, i as int),
        r matches Some(m) ==> m.next <= v.len(),
{
    if !is_char_at(v, i, '[') {
        return None;
    }
    match match_ts_core(v, i + 1) {
        None => None,
        Some(m) => if is_char_at(v, m.next, ']') {
            Some(TsSpan { next: m.next + 1, ..m })
        } else {
            None
        },
    }
}

fn find_ts(v: &Vec<char>, active: bool) -> (r: Option<TsSpan>)
    ensures
        r == first_ts(v@, 0, active),
        r matches Some(m) ==> m.next <= v.len(),
{
    let mut i: usize = 0;
    while i < v.len()
        invariant
            0 <= i <= v.len(),
            first_ts(v@, 0, active) == first_ts(v@, i as int, active),
        decreases v.len() - i,
    {
        let m = if active {
            match_active_at(v, i)
        } else {
            match_inactive_at(v, i)
        };
        if m.is_some() {
            return m;
        }
        i += 1;
    }
    None
}

fn read_date(v: &Vec<char>, i: usize) -> (r: Option<Date>)
    requires
        i + 10 <= v.len(),
        date_pattern_at(v@, i as int),
    ensures
        r == date_value(v@, i as int),
{
    let s = string_of(v, i, i + 10);
    assert(forall|j: int| 0 <= j < 10 ==> s@[j] == v@[i + j]);
    assert(date_pattern_at(s@, 0));
    assert(date_value(s@, 0) == date_value(v@, i as int));
    parse_ymd(s.as_str())
}

fn read_time(v: &Vec<char>, i: Option<usize>) -> (r: Option<Time>)
    requires
        i matches Some(k) ==> k + 5 <= v.len() && hhmm_pattern_at(v@, k as int),
    ensures
        r == opt_time_value(v@, i),
{
    match i {
        None => None,
        Some(k) => {
            let s = string_of(v, k, k + 5);
            assert(forall|j: int| 0 <= j < 5 ==> s@[j] == v@[k + j]);
            assert(hhmm_pattern_at(s@, 0));
            assert(time_value(s@, 0) == time_value(v@, k as int));
            parse_hm(s.as_str())
        },
    }
}

proof fn lemma_ts_core_bounds(s: Seq<char>, i: int)
    requires
        0 <= i,
        s.len() <= usize::MAX,
        ts_core(s, i) is Some,
    ensures
        ({
            let m = ts_core(s, i)->0;
            &&& m.date == i
            &&& i + 10 <= s.len()
            &&& date_pattern_at(s, i)
            &&& (m.time matches Some(k) ==> k + 5 <= s.len() && hhmm_pattern_at(s, k as int))
            &&& (m.end_time matches Some(k) ==> k + 5 <= s.len() && hhmm_pattern_at(s, k as int))
        }),
{
}

fn timestamp_from_span(v: &Vec<char>, m: TsSpan, t: TimestampType) -> (r: Option<OrgTimestamp>)
    requires
        m.date + 10 <= v.len(),
        date_pattern_at(v@, m.date as int),
        m.time matches Some(k) ==> k + 5 <= v.len() && hhmm_pattern_at(v@, k as int),
        m.end_time matches Some(k) ==> k + 5 <= v.len() && hhmm_pattern_at(v@, k as int),
        m.repeater matches Some(p) ==> p.0 <= p.1 <= v.len(),
    ensures
        opt_ts_view(r) == ts_from_span(v@, m, t),
{
    match read_date(v, m.date) {
        None => None,
        Some(d) => {
            let repeater = match m.repeater {
                Some(p) => Some(string_of(v, p.0, p.1)),
                None => None,
            };
            Some(
                OrgTimestamp {
                    timestamp_type: t,
                    date: d,
                    time: read_time(v, m.time),
                    end_time: read_time(v, m.end_time),
                    repeater,
                },
            )
        },
    }
}

proof fn lemma_first_ts_some(s: Seq<char>, i: int, active: bool)
    requires
        0 <= i,
        first_ts(s, i, active) is Some,
    ensures
        ({
            let m = first_ts(s, i, active)->0;
            exists|k: int|
                i <= k < s.len() && Some(m) == (if active {
                    active_at(s, k)
                } else {
                    inactive_at(s, k)
                })
        }),
    decreases s.len() - i,
{
    let m = if active {
        active_at(s, i)
    } else {
        inactive_at(s, i)
    };
    if m is None {
        lemma_first_ts_some(s, i + 1, active);
    }
}

proof fn lemma_span_bounds(s: Seq<char>, k: int, active: bool)
    requires
        0 <= k,
        s.len() <= usize::MAX,
        (if active {
            active_at(s, k)
        } else {
            inactive_at(s, k)
        }) is Some,
    ensures
        ({
            let m = (if active {
                active_at(s, k)
            } else {
                inactive_at(s, k)
            })->0;
            &&& m.date + 10 <= s.len()
            &&& date_pattern_at(s, m.date as int)
            &&& (m.time matches Some(t) ==> t + 5 <= s.len() && hhmm_pattern_at(s, t as int))
            &&& (m.end_time matches Some(t) ==> t + 5 <= s.len() && hhmm_pattern_at(s, t as int))
            &&& (m.repeater matches Some(p) ==> p.0 <= p.1 <= s.len())
        }),
{
    lemma_ts_core_bounds(s, k + 1);
    let m = ts_core(s, k + 1)->0;
    if active {
        let r0 = ws_end(s, m.next as int);
        if r0 > m.next {
            let e = repeater_end(s, r0);
            if e is Some && char_at(s, e->0, '>') {
                assert(r0 <= e->0) by {
                    lemma_plus_dot_end(s, r0);
                    lemma_digit_end(s, plus_dot_end(s, r0));
                    lemma_digit_end(s, plus_dot_end(s, r0) + 2);
                }
            }
        }
    }
}

proof fn lemma_ws_run(s: Seq<char>, a: int, b: int)
    requires
        0 <= a <= b <= s.len(),
        forall|k: int| a <= k < b ==> is_ws(#[trigger] s[k]),
        b < s.len() ==> !is_ws(s[b]),
    ensures
        ws_end(s, a) == b,
    decreases b - a,
{
    if a < b {
        lemma_ws_run(s, a + 1, b);
    }
}

proof fn lemma_not_char_run(s: Seq<char>, a: int, b: int, c: char)
    requires
        0 <= a <= b < s.len(),
        forall|k: int| a <= k < b ==> #[trigger] s[k] != c,
        s[b] == c,
    ensures
        not_char_end(s, a, c) == b,
    decreases b - a,
{
    if a < b {
        lemma_not_char_run(s, a + 1, b, c);
    }
}

/// A planning keyword at the start of the text, white space, and a bracketed timestamp: the
/// keyword's timestamp is the one in the brackets, of the keyword's type.
proof fn lemma_capture_first(s: Seq<char>, kw: Seq<char>, j: int, xl: int, open: char, close: char)
    requires
        kw.len() > 0,
        occurs_at(s, kw, 0),
        kw.len() <= j,
        xl > 0,
        j + 1 + xl < s.len(),
        forall|k: int| kw.len() <= k < j ==> is_ws(#[trigger] s[k]),
        s[j] == open,
        !is_ws(open),
        forall|k: int| j + 1 <= k < j + 1 + xl ==> #[trigger] s[k] != close,
        s[j + 1 + xl] == close,
    ensures
        first_capture(s, kw, open, close, 0) == Some((j, j + xl + 2)),
{
    assert(find_sub(s, kw, 0) == Some(0int));
    lemma_ws_run(s, kw.len() as int, j);
    lemma_not_char_run(s, j + 1, j + 1 + xl, close);
}

/// A planning keyword at the start of the text, white space, and a bracketed timestamp: the
/// keyword's timestamp is the one in the brackets, of the keyword's type.
proof fn lemma_keyword_first(
    kw: Seq<char>,
    w: Seq<char>,
    x: Seq<char>,
    rest: Seq<char>,
    open: char,
    close: char,
    active: bool,
    t: TimestampType,
)
    requires
        kw.len() > 0,
        forall|k: int| 0 <= k < w.len() ==> is_ws(#[trigger] w[k]),
        x.len() > 0,
        forall|k: int| 0 <= k < x.len() ==> #[trigger] x[k] != close,
        open == (if active {
            '<'
        } else {
            '['
        }),
        close == (if active {
            '>'
        } else {
            ']'
        }),
    ensures
        parse_keyword_spec(kw + w + (seq![open] + x + seq![close]) + rest, kw, active, t) == (match (
        if active {
            parse_active_spec(seq![open] + x + seq![close])
        } else {
            parse_inactive_spec(seq![open] + x + seq![close])
        }) {
            Some(v) => Some(TimestampView { timestamp_type: t, ..v }),
            None => None,
        }),
{
    let ts = seq![open] + x + seq![close];
    let s = kw + w + ts + rest;
    let j: int = kw.len() as int + w.len() as int;
    assert(s.subrange(0, kw.len() as int) =~= kw);
    assert forall|k: int| kw.len() <= k < j implies is_ws(#[trigger] s[k]) by {
        assert(s[k] == w[k - kw.len()]);
    }
    assert forall|k: int| j + 1 <= k < j + 1 + x.len() implies #[trigger] s[k] != close by {
        assert(s[k] == x[k - j - 1]);
    }
    assert(s[j] == open);
    assert(s[j + 1 + x.len()] == close);
    lemma_capture_first(s, kw, j, x.len() as int, open, close);
    assert(s.subrange(j, j + x.len() + 2) =~= ts);
}

/// `SCHEDULED:`, then white space and an active timestamp `<...>`: the scheduled time is that
/// timestamp, typed as scheduled. Likewise `DEADLINE:` with an active timestamp gives the
/// deadline, and `CLOSED:` with an inactive timestamp `[...]` gives the closing time.
pub proof fn lemma_planning_keywords(w: Seq<char>, x: Seq<char>, rest: Seq<char>)
    requires
        forall|k: int| 0 <= k < w.len() ==> is_ws(#[trigger] w[k]),
        x.len() > 0,
    ensures
        (forall|k: int| 0 <= k < x.len() ==> #[trigger] x[k] != '>') ==> parse_scheduled_spec("SCHEDULED:"@ + w + (seq!['<'] + x + seq!['>']) + rest) == (match parse_active_spec(
            seq!['<'] + x + seq!['>'],
        ) {
            Some(v) => Some(TimestampView { timestamp_type: TimestampType::Scheduled, ..v }),
            None => None,
        }),
        (forall|k: int| 0 <= k < x.len() ==> #[trigger] x[k] != '>') ==> parse_deadline_spec("DEADLINE:"@ + w + (seq!['<'] + x + seq!['>']) + rest) == (match parse_active_spec(
            seq!['<'] + x + seq!['>'],
        ) {
            Some(v) => Some(TimestampView { timestamp_type: TimestampType::Deadline, ..v }),
            None => None,
        }),
        (forall|k: int| 0 <= k < x.len() ==> #[trigger] x[k] != ']') ==> parse_closed_spec("CLOSED:"@ + w + (seq!['['] + x + seq![']']) + rest) == (match parse_inactive_spec(
            seq!['['] + x + seq![']'],
        ) {
            Some(v) => Some(TimestampView { timestamp_type: TimestampType::Closed, ..v }),
            None => None,
        }),
{
    reveal_strlit("SCHEDULED:");
    reveal_strlit("DEADLINE:");
    reveal_strlit("CLOSED:");
    if forall|k: int| 0 <= k < x.len() ==> #[trigger] x[k] != '>' {
        lemma_keyword_first("SCHEDULED:"@, w, x, rest, '<', '>', true, TimestampType::Scheduled);
        lemma_keyword_first("DEADLINE:"@, w, x, rest, '<', '>', true, TimestampType::Deadline);
    }
    if forall|k: int| 0 <= k < x.len() ==> #[trigger] x[k] != ']' {
        lemma_keyword_first("CLOSED:"@, w, x, rest, '[', ']', false, TimestampType::Closed);
    }
}

/// The ASCII digit of `k` (0 to 9).
pub open spec fn digit_of_value(k: int) -> char {
    ('0' as int + k) as char
}

/// `n` (0 to 99) as two decimal digits, `%02`.
pub open spec fn two_digits(n: int) -> Seq<char> {
    seq![digit_of_value(n / 10), digit_of_value(n % 10)]
}

proof fn lemma_digit_of_value(k: int)
    requires
        0 <= k < 10,
    ensures
        is_ascii_digit(digit_of_value(k)),
        digit_value(digit_of_value(k)) == k,
{
}

proof fn lemma_two_digits(n: int, s: Seq<char>, i: int)
    requires
        0 <= n < 100,
        0 <= i,
        i + 2 <= s.len(),
        s.subrange(i, i + 2) == two_digits(n),
    ensures
        ascii_digits2(s, i),
        num2(s, i) == n,
{
    assert(0 <= n / 10 < 10 && 0 <= n % 10 < 10 && n == 10 * (n / 10) + n % 10)
        by (nonlinear_arith)
        requires
            0 <= n < 100,
    ;
    lemma_digit_of_value(n / 10);
    lemma_digit_of_value(n % 10);
    assert(s[i] == s.subrange(i, i + 2)[0]);
    assert(s[i + 1] == s.subrange(i, i + 2)[1]);
}

/// A time written `HH:MM` with two digits each reads back as that time when it is one (hour
/// below 24, minute below 60), and as no time otherwise.
pub proof fn lemma_time_round_trip(h: int, m: int)
    requires
        0 <= h < 100,
        0 <= m < 100,
    ensures
        time_value(two_digits(h) + seq![':'] + two_digits(m), 0) == (if h < 24 && m < 60 {
            Some(Time { hour: h as u32, minute: m as u32 })
        } else {
            None
        }),
{
    let s = two_digits(h) + seq![':'] + two_digits(m);
    assert(s.subrange(0, 2) =~= two_digits(h));
    assert(s.subrange(3, 5) =~= two_digits(m));
    lemma_two_digits(h, s, 0);
    lemma_two_digits(m, s, 3);
}

/// A date written `YYYY-MM-DD` with four, two and two digits reads back as that date when the
/// day exists, and as no date otherwise.
pub proof fn lemma_date_round_trip(y: int, m: int, d: int)
    requires
        0 <= y < 10000,
        0 <= m < 100,
        0 <= d < 100,
    ensures
        date_value(
            two_digits(y / 100) + two_digits(y % 100) + seq!['-'] + two_digits(m) + seq!['-']
                + two_digits(d),
            0,
        ) == (if valid_ymd(y, m, d) {
            Some(Date { year: y as i32, month: m as u32, day: d as u32 })
        } else {
            None
        }),
{
    let s = two_digits(y / 100) + two_digits(y % 100) + seq!['-'] + two_digits(m) + seq!['-']
        + two_digits(d);
    assert(0 <= y / 100 < 100 && 0 <= y % 100 < 100 && y == 100 * (y / 100) + y % 100)
        by (nonlinear_arith)
        requires
            0 <= y < 10000,
    ;
    assert(s.subrange(0, 2) =~= two_digits(y / 100));
    assert(s.subrange(2, 4) =~= two_digits(y % 100));
    assert(s.subrange(5, 7) =~= two_digits(m));
    assert(s.subrange(8, 10) =~= two_digits(d));
    lemma_two_digits(y / 100, s, 0);
    lemma_two_digits(y % 100, s, 2);
    lemma_two_digits(m, s, 5);
    lemma_two_digits(d, s, 8);
}

/// A repeater is a run of `.` and `+`, a run of digits and a unit letter: after the two runs
/// it is read exactly when the next character is `d`, `w`, `m` or `y` (day, week, month,
/// year), and, with no `/` after the letter, it ends right after the letter.
pub proof fn lemma_repeater_units(s: Seq<char>, i: int)
    requires
        plus_dot_end(s, i) > i,
        digit_end(s, plus_dot_end(s, i)) > plus_dot_end(s, i),
    ensures
        forall|j: int|
            #[trigger] unit_at(s, j) <==> (0 <= j < s.len() && (s[j] == 'd' || s[j] == 'w' || s[j]
                == 'm' || s[j] == 'y')),
        ({
            let b = digit_end(s, plus_dot_end(s, i));
            &&& repeater_end(s, i) is Some <==> (b < s.len() && (s[b] == 'd' || s[b] == 'w' || s[b]
                == 'm' || s[b] == 'y'))
            &&& (repeater_end(s, i) is Some && !char_at(s, b + 1, '/')) ==> repeater_end(s, i)
                == Some(b + 1)
        }),
{
    lemma_plus_dot_end(s, i);
    lemma_digit_end(s, plus_dot_end(s, i));
}

proof fn lemma_plus_dot_end(s: Seq<char>, i: int)
    ensures
        plus_dot_end(s, i) >= i,
    decreases s.len() - i,
{
    if 0 <= i < s.len() && (s[i] == '.' || s[i] == '+') {
        lemma_plus_dot_end(s, i + 1);
    }
}

proof fn lemma_digit_end(s: Seq<char>, i: int)
    ensures
        digit_end(s, i) >= i,
    decreases s.len() - i,
{
    if digit_at(s, i) {
        lemma_digit_end(s, i + 1);
    }
}

fn parse_ts_chars(v: &Vec<char>, active: bool) -> (r: Option<OrgTimestamp>)
    ensures
        opt_ts_view(r) == (if active {
            parse_active_spec(v@)
        } else {
            parse_inactive_spec(v@)
        }),
{
    match find_ts(v, active) {
        None => None,
        Some(m) => {
            proof {
                lemma_first_ts_some(v@, 0, active);
                let k = choose|k: int|
                    0 <= k < v.len() && Some(m) == (if active {
                        active_at(v@, k)
                    } else {
                        inactive_at(v@, k)
                    });
                assert(v@.len() == v.len());
                lemma_span_bounds(v@, k, active);
            }
            let t = if active {
                TimestampType::Active
            } else {
                TimestampType::Inactive
            };
            timestamp_from_span(v, m, t)
        },
    }
}

fn find_capture(v: &Vec<char>, kw: &str, open: char, close: char) -> (r: Option<(usize, usize)>)
    requires
        kw@.len() > 0,
    ensures
        match r {
            Some(c) => first_capture(v@, kw@, open, close, 0) == Some((c.0 as int, c.1 as int))
                && c.0 <= c.1 <= v.len(),
            None => first_capture(v@, kw@, open, close, 0) is None,
        },
{
    let kwv = chars_of(kw);
    let mut i: usize = 0;
    loop
        invariant
            kwv@ == kw@,
            kw@.len() > 0,
            0 <= i <= v.len() + 1,
            first_capture(v@, kw@, open, close, 0) == first_capture(v@, kw@, open, close, i as int),
        decreases v.len() + 1 - i,
    {
        proof {
            lemma_find_sub(v@, kw@, i as int);
        }
        match find_lit(v, &kwv, i) {
            None => {
                return None;
            },
            Some(k) => {
                assert(occurs_at(v@, kw@, k as int));
                assert(k < v.len());
                let j = skip_ws(v, k + kwv.len());
                if is_char_at(v, j, open) {
                    let e = skip_not_char(v, j + 1, close);
                    if e > j + 1 && is_char_at(v, e, close) {
                        return Some((j, e + 1));
                    }
                }
                i = k + 1;
            },
        }
    }
}

fn parse_keyword(v: &Vec<char>, kw: &str, active: bool, t: TimestampType) -> (r: Option<OrgTimestamp>)
    requires
        kw@.len() > 0,
    ensures
        opt_ts_view(r) == parse_keyword_spec(v@, kw@, active, t),
{
    let open = if active {
        '<'
    } else {
        '['
    };
    let close = if active {
        '>'
    } else {
        ']'
    };
    match find_capture(v, kw, open, close) {
        None => None,
        Some((a, b)) => {
            let mut sub: Vec<char> = Vec::new();
            crate::text::push_range(&mut sub, v, a, b);
            assert(sub@ == v@.subrange(a as int, b as int));
            match parse_ts_chars(&sub, active) {
                Some(ts) => Some(OrgTimestamp { timestamp_type: t, ..ts }),
                None => None,
            }
        },
    }
}

/// `OrgTimestamp::parse_scheduled` on the characters of a text.
pub fn parse_scheduled_chars(v: &Vec<char>) -> (r: Option<OrgTimestamp>)
    ensures
        opt_ts_view(r) == parse_scheduled_spec(v@),
{
    proof {
        reveal_strlit("SCHEDULED:");
    }
    parse_keyword(v, "SCHEDULED:", true, TimestampType::Scheduled)
}

/// `OrgTimestamp::parse_deadline` on the characters of a text.
pub fn parse_deadline_chars(v: &Vec<char>) -> (r: Option<OrgTimestamp>)
    ensures
        opt_ts_view(r) == parse_deadline_spec(v@),
{
    proof {
        reveal_strlit("DEADLINE:");
    }
    parse_keyword(v, "DEADLINE:", true, TimestampType::Deadline)
}

/// `OrgTimestamp::parse_closed` on the characters of a text.
pub fn parse_closed_chars(v: &Vec<char>) -> (r: Option<OrgTimestamp>)
    ensures
        opt_ts_view(r) == parse_closed_spec(v@),
{
    proof {
        reveal_strlit("CLOSED:");
    }
    parse_keyword(v, "CLOSED:", false, TimestampType::Closed)
}

impl OrgTimestamp {
    /// The first active timestamp (`<...>`) in `text`.
    pub fn parse_active(text: &str) -> (r: Option<Self>)
        ensures
            opt_ts_view(r) == parse_active_spec(text@),
    {
        let v = chars_of(text);
        parse_ts_chars(&v, true)
    }

    /// The first inactive timestamp (`[...]`) in `text`.
    pub fn parse_inactive(text: &str) -> (r: Option<Self>)
        ensures
            opt_ts_view(r) == parse_inactive_spec(text@),
    {
        let v = chars_of(text);
        parse_ts_chars(&v, false)
    }

    /// The active timestamp after the first `SCHEDULED:` that one follows.
    pub fn parse_scheduled(text: &str) -> (r: Option<Self>)
        ensures
            opt_ts_view(r) == parse_scheduled_spec(text@),
            r matches Some(ts) ==> ts.timestamp_type == TimestampType::Scheduled,
    {
        let v = chars_of(text);
        parse_scheduled_chars(&v)
    }

    /// The active timestamp after the first `DEADLINE:` that one follows.
    pub fn parse_deadline(text: &str) -> (r: Option<Self>)
        ensures
            opt_ts_view(r) == parse_deadline_spec(text@),
            r matches Some(ts) ==> ts.timestamp_type == TimestampType::Deadline,
    {
        let v = chars_of(text);
        parse_deadline_chars(&v)
    }

    /// The inactive timestamp after the first `CLOSED:` that one follows.
    pub fn parse_closed(text: &str) -> (r: Option<Self>)
        ensures
            opt_ts_view(r) == parse_closed_spec(text@),
            r matches Some(ts) ==> ts.timestamp_type == TimestampType::Closed,
    {
        let v = chars_of(text);
        parse_closed_chars(&v)
    }

    /// The date with the start time, or midnight where there is none.
    pub fn datetime(&self) -> (r: DateTime)
        ensures
            r.date == self.date,
            r.time == (match self.time {
                Some(t) => t,
                None => Time { hour: 0, minute: 0 },
            }),
    {
        let time = match self.time {
            Some(t) => t,
            None => Time::midnight(),
        };
        DateTime { date: self.date, time }
    }

    pub fn is_repeating(&self) -> (r: bool)
        ensures
            r == self.repeater.is_some(),
    {
        self.repeater.is_some()
    }
}

} // verus!
