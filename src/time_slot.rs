//! The compact time-slot notation `<weekday>.<HHMM>-<credits> / <place>`.
use chrono::Timelike;
use vstd::prelude::*;

use crate::row::ParseError;
use crate::text::{
    all_digits, trim_end_from, trim_start_from, chars_of, decimal_chars, decimal_text, decimal_value, digit_char, digit_to_char,
    digit_value, find_from, i32_text, is_digit, occurs_at, parse_i32, parse_u32, push_all,
    split_once, split_once_chars, string_from, trim, trim_chars, u32_text,
};

verus! {

/// Day of the week, numbered on the wire from 1 (Sunday) to 7 (Saturday).
#[derive(Clone, Copy, Debug, PartialEq, Eq, Structural, Hash)]
pub enum Weekday {
    Sun,
    Mon,
    Tue,
    Wed,
    Thu,
    Fri,
    Sat,
}

/// A time of day in whole minutes.
#[derive(Clone, Copy, Debug, PartialEq, Eq, Structural, Hash)]
pub struct TimeOfDay {
    pub hour: u32,
    pub minute: u32,
}

impl TimeOfDay {
    pub open spec fn valid(self) -> bool {
        self.hour < 24 && self.minute < 60
    }
}

/// One weekly meeting of a class.
pub struct Time {
    pub weekday: Weekday,
    pub time: TimeOfDay,
    pub credits: u32,
    pub place: String,
}

pub struct TimeView {
    pub weekday: Weekday,
    pub time: TimeOfDay,
    pub credits: u32,
    pub place: Seq<char>,
}

impl View for Time {
    type V = TimeView;

    open spec fn view(&self) -> TimeView {
        TimeView {
            weekday: self.weekday,
            time: self.time,
            credits: self.credits,
            place: self.place@,
        }
    }
}

/// The weekday that the wire number `n` stands for.
pub open spec fn weekday_of_number(n: int) -> Option<Weekday> {
    if n == 1 { Some(Weekday::Sun) }
    else if n == 2 { Some(Weekday::Mon) }
    else if n == 3 { Some(Weekday::Tue) }
    else if n == 4 { Some(Weekday::Wed) }
    else if n == 5 { Some(Weekday::Thu) }
    else if n == 6 { Some(Weekday::Fri) }
    else if n == 7 { Some(Weekday::Sat) }
    else { None }
}

/// The wire number of a weekday.
pub open spec fn weekday_number(w: Weekday) -> nat {
    match w {
        Weekday::Sun => 1,
        Weekday::Mon => 2,
        Weekday::Tue => 3,
        Weekday::Wed => 4,
        Weekday::Thu => 5,
        Weekday::Fri => 6,
        Weekday::Sat => 7,
    }
}

pub fn weekday_from_number(n: i32) -> (r: Option<Weekday>)
    ensures
        r == weekday_of_number(n as int),
{
    match n {
        1 => Some(Weekday::Sun),
        2 => Some(Weekday::Mon),
        3 => Some(Weekday::Tue),
        4 => Some(Weekday::Wed),
        5 => Some(Weekday::Thu),
        6 => Some(Weekday::Fri),
        7 => Some(Weekday::Sat),
        _ => None,
    }
}

impl Weekday {
    /// The wire number of this weekday.
    pub fn number(&self) -> (r: u32)
        ensures
            r == weekday_number(*self),
    {
        match self {
            Weekday::Sun => 1,
            Weekday::Mon => 2,
            Weekday::Tue => 3,
            Weekday::Wed => 4,
            Weekday::Thu => 5,
            Weekday::Fri => 6,
            Weekday::Sat => 7,
        }
    }
}

/// The number of leading ASCII digits of `s`, up to two.
pub open spec fn leading_digits(s: Seq<char>) -> nat {
    if s.len() >= 1 && is_digit(s[0]) {
        if s.len() >= 2 && is_digit(s[1]) { 2 } else { 1 }
    } else {
        0
    }
}

/// `s` without its leading white space.
pub open spec fn trim_start(s: Seq<char>) -> Seq<char> {
    s.skip(trim_start_from(s, 0))
}

/// A clock `HHMM` as `%H%M` reads it: optional white space, one or two
/// digits of hour (at most 23), optional white space, one or two digits of
/// minute (at most 59), and nothing after.
pub open spec fn hhmm_reading(s: Seq<char>) -> Option<(u32, u32)> {
    let a = trim_start(s);
    let n = leading_digits(a);
    let hour = decimal_value(a.take(n as int));
    let b = trim_start(a.skip(n as int));
    let k = leading_digits(b);
    let minute = decimal_value(b.take(k as int));
    if n == 0 || k == 0 || b.len() != k || hour > 23 || minute > 59 {
        None
    } else {
        Some((hour as u32, minute as u32))
    }
}

/// Four ASCII digits `HHMM` with an hour below 24 and a minute below 60.
pub open spec fn plain_hhmm(s: Seq<char>) -> bool {
    &&& s.len() == 4
    &&& all_digits(s)
    &&& decimal_value(s.subrange(0, 2)) < 24
    &&& decimal_value(s.subrange(2, 4)) < 60
}

/// Four plain digits `HHMM` read as hour `HH` and minute `MM`.
pub proof fn lemma_plain_hhmm(s: Seq<char>)
    requires
        plain_hhmm(s),
    ensures
        hhmm_reading(s) == Some(
            (decimal_value(s.subrange(0, 2)) as u32, decimal_value(s.subrange(2, 4)) as u32),
        ),
{
    assert(is_digit(s[0]) && is_digit(s[1]) && is_digit(s[2]) && is_digit(s[3]));
    assert(trim_start_from(s, 0) == 0);
    let a = trim_start(s);
    assert(a =~= s);
    assert(leading_digits(a) == 2);
    assert(a.take(2) =~= s.subrange(0, 2));
    let rest = a.skip(2);
    assert(rest[0] == s[2]);
    assert(trim_start_from(rest, 0) == 0);
    let b = trim_start(rest);
    assert(b =~= s.subrange(2, 4));
    assert(b[0] == s[2] && b[1] == s[3]);
    assert(leading_digits(b) == 2);
    assert(b.take(2) =~= b);
}

/// Relies on chrono's `NaiveTime::parse_from_str` with the format `%H%M`:
/// each numeric field skips leading white space and reads one or two ASCII
/// digits, the hour must be at most 23 and the minute at most 59, and no text
/// may follow.
#[verifier::external_body]
fn parse_hhmm(s: &Vec<char>) -> (r: Option<(u32, u32)>)
    ensures
        r == hhmm_reading(s@),
{
    let text: String = s.iter().collect();
    chrono::NaiveTime::parse_from_str(&text, "%H%M").ok().map(|t| (t.hour(), t.minute()))
}

pub open spec fn slash_separator() -> Seq<char> {
    seq![' ', '/', ' ']
}

/// The weekday, clock text, credits and place that the text `s` writes, if
/// its delimiters and numbers are well formed.
pub open spec fn time_fields(s: Seq<char>) -> Option<(Weekday, Seq<char>, u32, Seq<char>)> {
    match split_once(s, slash_separator()) {
        None => None,
        Some((spec, place)) => match split_once(spec, seq!['.']) {
            None => None,
            Some((day, rest)) => match i32_text(day) {
                None => None,
                Some(n) => match weekday_of_number(n as int) {
                    None => None,
                    Some(weekday) => match split_once(rest, seq!['-']) {
                        None => None,
                        Some((clock, credits)) => match u32_text(trim(credits)) {
                            None => None,
                            Some(credits) => Some((weekday, clock, credits, place)),
                        },
                    },
                },
            },
        },
    }
}

/// The time slot that the text `s` writes, if it is well formed.
pub open spec fn time_text(s: Seq<char>) -> Option<TimeView> {
    match time_fields(s) {
        None => None,
        Some((weekday, clock, credits, place)) => match hhmm_reading(clock) {
            None => None,
            Some((hour, minute)) => Some(
                TimeView { weekday, time: TimeOfDay { hour, minute }, credits, place },
            ),
        },
    }
}

/// The text that writes a time slot: the inverse of `time_text`.
pub open spec fn time_slot_text(t: TimeView) -> Seq<char> {
    decimal_text(weekday_number(t.weekday)) + seq!['.'] + two_digits(t.time.hour as nat)
        + two_digits(t.time.minute as nat) + seq!['-'] + decimal_text(t.credits as nat)
        + slash_separator() + t.place
}

/// `n` written with at least two digits.
pub open spec fn two_digits(n: nat) -> Seq<char> {
    if n < 10 {
        seq!['0', digit_char(n)]
    } else {
        decimal_text(n)
    }
}

/// `n` written with at least two digits.
pub fn push_two_digits(v: &mut Vec<char>, n: u32)
    ensures
        final(v)@ == old(v)@ + two_digits(n as nat),
{
    if n < 10 {
        v.push('0');
        v.push(digit_to_char(n as u64));
        assert(final(v)@ =~= old(v)@ + two_digits(n as nat));
    } else {
        let d = decimal_chars(n as u64);
        push_all(v, &d);
    }
}


/// Decodes one time slot from its characters.
pub fn time_from_chars(s: &Vec<char>) -> (r: Option<Time>)
    ensures
        match r {
            Some(t) => time_text(s@) == Some(t@) && t.time.valid(),
            None => time_text(s@) is None,
        },
{
    let slash = vec![' ', '/', ' '];
    assert(slash@ =~= slash_separator());
    let (spec, place) = match split_once_chars(s, &slash) {
        Some(p) => p,
        None => return None,
    };
    let dot = vec!['.'];
    assert(dot@ =~= seq!['.']);
    let (day, rest) = match split_once_chars(&spec, &dot) {
        Some(p) => p,
        None => return None,
    };
    let weekday = match parse_i32(&day) {
        Some(n) => match weekday_from_number(n) {
            Some(w) => w,
            None => return None,
        },
        None => return None,
    };
    let dash = vec!['-'];
    assert(dash@ =~= seq!['-']);
    let (clock, credits) = match split_once_chars(&rest, &dash) {
        Some(p) => p,
        None => return None,
    };
    let credits = match parse_u32(&trim_chars(&credits)) {
        Some(c) => c,
        None => return None,
    };
    let (hour, minute) = match parse_hhmm(&clock) {
        Some(p) => p,
        None => return None,
    };
    Some(Time { weekday, time: TimeOfDay { hour, minute }, credits, place: string_from(&place) })
}

/// A slot whose delimiters and numbers are well formed and whose clock is
/// four digits `HHMM` in range decodes, with that hour and minute.
pub open spec fn plain_clock_decodes(s: Seq<char>, r: Result<Time, ParseError>) -> bool {
    match time_fields(s) {
        Some((w, clock, c, p)) => plain_hhmm(clock) ==> match r {
            Ok(t) => t.weekday == w && t.time.hour == decimal_value(clock.subrange(0, 2))
                && t.time.minute == decimal_value(clock.subrange(2, 4)) && t.credits == c
                && t.place@ == p,
            Err(_) => false,
        },
        None => true,
    }
}

impl Time {
    /// Decodes one time slot, `<weekday>.<HHMM>-<credits> / <place>`; any
    /// other text fails with `InvalidTimeFormat`.
    pub fn parse(s: &str) -> (r: Result<Time, ParseError>)
        ensures
            match r {
                Ok(t) => time_text(s@) == Some(t@) && t.time.valid(),
                Err(e) => time_text(s@) is None && e == ParseError::InvalidTimeFormat,
            },
            plain_clock_decodes(s@, r),
    {
        proof {
            if let Some((w, clock, c, p)) = time_fields(s@) {
                if plain_hhmm(clock) {
                    lemma_plain_hhmm(clock);
                }
            }
        }
        match time_from_chars(&chars_of(s)) {
            Some(t) => Ok(t),
            None => Err(ParseError::InvalidTimeFormat),
        }
    }

    /// Encodes this time slot in the notation that `parse` reads.
    pub fn to_text(&self) -> (r: String)
        ensures
            r@ == time_slot_text(self@),
    {
        let mut v = decimal_chars(self.weekday.number() as u64);
        v.push('.');
        push_two_digits(&mut v, self.time.hour);
        push_two_digits(&mut v, self.time.minute);
        v.push('-');
        push_all(&mut v, &decimal_chars(self.credits as u64));
        v.push(' ');
        v.push('/');
        v.push(' ');
        push_all(&mut v, &chars_of(self.place.as_str()));
        assert(v@ =~= time_slot_text(self@));
        string_from(&v)
    }
}

/// The decimal writing of `n` is digits that read back as `n`.
pub proof fn lemma_decimal_round_trip(n: nat)
    ensures
        decimal_text(n).len() > 0,
        all_digits(decimal_text(n)),
        decimal_value(decimal_text(n)) == n,
    decreases n,
{
    if n < 10 {
        let t = decimal_text(n);
        assert(t.drop_last() =~= Seq::<char>::empty());
        assert(decimal_value(t.drop_last()) == 0);
    } else {
        lemma_decimal_round_trip(n / 10);
        let t = decimal_text(n);
        assert(t.drop_last() =~= decimal_text(n / 10));
    }
}

/// Two digits that read back as `n`, for `n` below 100.
proof fn lemma_two_digits(n: nat)
    requires
        n < 100,
    ensures
        two_digits(n).len() == 2,
        all_digits(two_digits(n)),
        decimal_value(two_digits(n)) == n,
{
    lemma_decimal_round_trip(n);
    if n < 10 {
        let t = two_digits(n);
        let z = seq!['0'];
        assert(t.drop_last() =~= z);
        assert(z.drop_last() =~= Seq::<char>::empty());
        assert(decimal_value(z.drop_last()) == 0);
        assert(z.last() == '0');
        assert(decimal_value(z) == 0);
    } else {
        let t = decimal_text(n);
        assert(decimal_text(n / 10) == seq![digit_char(n / 10)]);
        assert(t.len() == 2);
    }
}

/// The first occurrence of `pat` from `i` on is at `p` when it occurs there
/// and nowhere between.
proof fn lemma_first_occurrence(s: Seq<char>, pat: Seq<char>, i: int, p: int)
    requires
        0 <= i <= p,
        occurs_at(s, pat, p),
        forall|j: int| i <= j < p ==> !occurs_at(s, pat, j),
    ensures
        find_from(s, pat, i) == Some(p),
    decreases p - i,
{
    if i < p {
        lemma_first_occurrence(s, pat, i + 1, p);
    }
}

/// Digits are not white space, so trimming leaves them as they are.
proof fn lemma_trim_digits(s: Seq<char>)
    requires
        s.len() > 0,
        all_digits(s),
    ensures
        trim(s) == s,
{
    assert(is_digit(s[0]) && is_digit(s[s.len() - 1]));
    assert(trim_start_from(s, 0) == 0);
    assert(trim_end_from(s, s.len() as int) == s.len());
    assert(s.subrange(0, s.len() as int) =~= s);
}

/// The two digit groups of a clock text `HHMM` read back as hour and minute.
proof fn lemma_clock_text(h: nat, m: nat)
    requires
        h < 24,
        m < 60,
    ensures
        plain_hhmm(two_digits(h) + two_digits(m)),
        decimal_value((two_digits(h) + two_digits(m)).subrange(0, 2)) == h,
        decimal_value((two_digits(h) + two_digits(m)).subrange(2, 4)) == m,
{
    let hh = two_digits(h);
    let mm = two_digits(m);
    let clock = hh + mm;
    lemma_two_digits(h);
    lemma_two_digits(m);
    assert(clock.subrange(0, 2) =~= hh);
    assert(clock.subrange(2, 4) =~= mm);
    assert forall|k: int| 0 <= k < clock.len() implies is_digit(#[trigger] clock[k]) by {
        if k < 2 {
            assert(clock[k] == hh[k]);
        } else {
            assert(clock[k] == mm[k - 2]);
        }
    }
}

/// `HHMM-<credits>` splits at its dash, and holds no space.
proof fn lemma_clock_and_credits(clock: Seq<char>, c: Seq<char>)
    requires
        clock.len() == 4,
        all_digits(clock),
        c.len() > 0,
        all_digits(c),
    ensures
        split_once(clock + seq!['-'] + c, seq!['-']) == Some((clock, c)),
        forall|j: int| 0 <= j < (clock + seq!['-'] + c).len() ==> #[trigger] (clock + seq!['-'] + c)[j] != ' ',
{
    let rest = clock + seq!['-'] + c;
    let dash = seq!['-'];
    assert forall|j: int| 0 <= j < rest.len() implies #[trigger] rest[j] != ' ' by {
        if j < 4 {
            assert(rest[j] == clock[j]);
            assert(is_digit(clock[j]));
        } else if j > 4 {
            assert(rest[j] == c[j - 5]);
            assert(is_digit(c[j - 5]));
        }
    }
    assert forall|j: int| 0 <= j < 4 implies !occurs_at(rest, dash, j) by {
        if occurs_at(rest, dash, j) {
            assert(rest.subrange(j, j + 1)[0] == rest[j]);
            assert(rest[j] == clock[j]);
            assert(is_digit(clock[j]));
        }
    }
    assert(occurs_at(rest, dash, 4)) by {
        assert(rest.subrange(4, 5) =~= dash);
    }
    lemma_first_occurrence(rest, dash, 0, 4);
    assert(rest.subrange(0, 4) =~= clock);
    assert(rest.subrange(5, rest.len() as int) =~= c);
}

/// A text without spaces, the separator and a place split at that separator.
proof fn lemma_separator(a: Seq<char>, place: Seq<char>)
    requires
        forall|j: int| 0 <= j < a.len() ==> #[trigger] a[j] != ' ',
    ensures
        split_once(a + slash_separator() + place, slash_separator()) == Some((a, place)),
{
    let sep = slash_separator();
    let s = a + sep + place;
    assert forall|j: int| 0 <= j < a.len() implies !occurs_at(s, sep, j) by {
        if occurs_at(s, sep, j) {
            assert(s.subrange(j, j + 3)[0] == s[j]);
            assert(s[j] == a[j]);
        }
    }
    assert(occurs_at(s, sep, a.len() as int)) by {
        assert(s.subrange(a.len() as int, a.len() as int + 3) =~= sep);
    }
    lemma_first_occurrence(s, sep, 0, a.len() as int);
    assert(s.subrange(0, a.len() as int) =~= a);
    assert(s.subrange(a.len() as int + 3, s.len() as int) =~= place);
}

/// Writing a valid time slot and reading it back gives the same slot: its
/// weekday, credits and place, and a clock text of four digits `HHMM` that
/// reads as its hour and minute.
pub proof fn time_slot_text_reads_back(t: TimeView)
    requires
        t.time.valid(),
    ensures
        time_fields(time_slot_text(t)) == Some(
            (t.weekday, two_digits(t.time.hour as nat) + two_digits(t.time.minute as nat), t.credits, t.place),
        ),
        plain_hhmm(two_digits(t.time.hour as nat) + two_digits(t.time.minute as nat)),
        decimal_value((two_digits(t.time.hour as nat) + two_digits(t.time.minute as nat)).subrange(0, 2)) == t.time.hour,
        decimal_value((two_digits(t.time.hour as nat) + two_digits(t.time.minute as nat)).subrange(2, 4)) == t.time.minute,
        time_text(time_slot_text(t)) == Some(t),
{
    let n = weekday_number(t.weekday);
    let d = digit_char(n);
    let clock = two_digits(t.time.hour as nat) + two_digits(t.time.minute as nat);
    let c = decimal_text(t.credits as nat);
    lemma_clock_text(t.time.hour as nat, t.time.minute as nat);
    lemma_decimal_round_trip(t.credits as nat);
    lemma_clock_and_credits(clock, c);
    let rest = clock + seq!['-'] + c;
    let a = seq![d, '.'] + rest;
    assert(decimal_text(n) == seq![d]);
    assert(time_slot_text(t) =~= a + slash_separator() + t.place);
    assert forall|j: int| 0 <= j < a.len() implies #[trigger] a[j] != ' ' by {
        if j >= 2 {
            assert(a[j] == rest[j - 2]);
        }
    }
    lemma_separator(a, t.place);
    let s = time_slot_text(t);
    assert(split_once(s, slash_separator()) == Some((a, t.place)));
    lemma_leading_day(d, rest + slash_separator() + t.place);
    assert(seq![d, '.'] + (rest + slash_separator() + t.place) =~= s);
    assert(a.subrange(2, a.len() as int) =~= rest);
    assert(split_once(a, seq!['.']) == Some((seq![d], rest)));
    assert(weekday_of_number(n as int) == Some(t.weekday));
    let day = seq![d];
    assert(day.drop_last() =~= Seq::<char>::empty());
    assert(decimal_value(day.drop_last()) == 0);
    assert(day.last() == d);
    assert(i32_text(day) == Some(n as i32));
    assert(a.subrange(2, a.len() as int) =~= rest);
    lemma_trim_digits(c);
    assert(is_digit(c[0]));
    assert(u32_text(c) == Some(t.credits));
    assert(u32_text(trim(c)) == Some(t.credits));
    lemma_plain_hhmm(clock);
}

/// In a text that begins with a digit and a dot, the delimiters that the
/// decoder looks for come after them.
proof fn lemma_leading_day(d: char, rest: Seq<char>)
    requires
        is_digit(d),
    ensures
        ({
            let s = seq![d, '.'] + rest;
            match split_once(s, slash_separator()) {
                Some((spec, _)) => split_once(spec, seq!['.']) == Some((seq![d], spec.subrange(2, spec.len() as int))),
                None => true,
            }
        }),
{
    let s = seq![d, '.'] + rest;
    let pat = slash_separator();
    assert(!occurs_at(s, pat, 0)) by {
        if occurs_at(s, pat, 0) {
            assert(s.subrange(0, 3)[0] == s[0]);
        }
    }
    assert(!occurs_at(s, pat, 1)) by {
        if occurs_at(s, pat, 1) {
            assert(s.subrange(1, 4)[0] == s[1]);
        }
    }
    assert(find_from(s, pat, 0) == find_from(s, pat, 2)) by {
        if 0 + pat.len() <= s.len() {
            assert(find_from(s, pat, 0) == find_from(s, pat, 1));
            if 1 + pat.len() <= s.len() {
                assert(find_from(s, pat, 1) == find_from(s, pat, 2));
            }
        }
    }
    lemma_find_from_at_least(s, pat, 2);
    match split_once(s, pat) {
        Some((spec, _)) => {
            let p = find_from(s, pat, 0)->0;
            assert(spec == s.subrange(0, p));
            assert(spec[0] == d && spec[1] == '.');
            assert(!occurs_at(spec, seq!['.'], 0)) by {
                if occurs_at(spec, seq!['.'], 0) {
                    assert(spec.subrange(0, 1)[0] == spec[0]);
                }
            }
            assert(occurs_at(spec, seq!['.'], 1)) by {
                assert(spec.subrange(1, 2) =~= seq!['.']);
            }
            assert(spec.len() >= 2);
            assert(find_from(spec, seq!['.'], 0) == find_from(spec, seq!['.'], 1));
            assert(find_from(spec, seq!['.'], 0) == Some(1int));
            assert(spec.subrange(0, 1) =~= seq![d]);
        },
        None => {},
    }
}

/// A match found from `i` on lies at or after `i`.
proof fn lemma_find_from_at_least(s: Seq<char>, pat: Seq<char>, i: int)
    ensures
        find_from(s, pat, i) matches Some(p) ==> i <= p && p + pat.len() <= s.len(),
    decreases s.len() + 1 - i,
{
    if i >= 0 && i + pat.len() <= s.len() && !occurs_at(s, pat, i) {
        lemma_find_from_at_least(s, pat, i + 1);
    }
}

/// The weekday of a time slot is the one that its leading digit stands for:
/// digits 1 to 7 give Sunday to Saturday, and any other digit fails.
pub proof fn weekday_digit_decides(d: char, rest: Seq<char>)
    requires
        is_digit(d),
    ensures
        time_text(seq![d, '.'] + rest) matches Some(t) ==> Some(t.weekday) == weekday_of_number(digit_value(d) as int),
        weekday_of_number(digit_value(d) as int) is None ==> time_text(seq![d, '.'] + rest) is None,
{
    lemma_leading_day(d, rest);
    let day = seq![d];
    assert(day.drop_last() =~= Seq::<char>::empty());
    assert(day.last() == d);
    assert(decimal_value(day.drop_last()) == 0);
    assert(decimal_value(day) == digit_value(d));
    assert(all_digits(day));
    assert(i32_text(day) == Some(digit_value(d) as i32));
}

impl std::str::FromStr for Time {
    type Err = ParseError;

    fn from_str(s: &str) -> (r: Result<Time, ParseError>)
        ensures
            match r {
                Ok(t) => time_text(s@) == Some(t@) && t.time.valid(),
                Err(e) => time_text(s@) is None && e == ParseError::InvalidTimeFormat,
            },
            plain_clock_decodes(s@, r),
    {
        Time::parse(s)
    }
}

} // verus!
