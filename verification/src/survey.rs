//! The answers of the lock poisoning survey: lists of choices separated by
//! semicolons, and the time each answer was given.

use vstd::prelude::*;

use crate::text::{
    all_digits, chars_of, join, digits_value, has_prefix, is_digit, lemma_digits_value_mono,
    split_first, split_first_str, string_of, suffix_from, trim, trim_of,
};

verus! {

/// The pieces of `s` between the occurrences of `c`, as `str::split` yields them.
pub open spec fn split_on(s: Seq<char>, c: char) -> Seq<Seq<char>>
    decreases s.len(),
{
    if s.len() == 0 {
        seq![Seq::empty()]
    } else {
        let r = split_on(s.drop_last(), c);
        if s.last() == c {
            r.push(Seq::empty())
        } else {
            r.update(r.len() - 1, r.last().push(s.last()))
        }
    }
}

/// The choices of a multiple-choice answer: none for an empty answer, otherwise
/// the pieces between the semicolons.
pub open spec fn choices(s: Seq<char>) -> Seq<Seq<char>> {
    if s.len() == 0 {
        Seq::empty()
    } else {
        split_on(s, ';')
    }
}

proof fn lemma_split_on_len(s: Seq<char>, c: char)
    ensures
        split_on(s, c).len() >= 1,
    decreases s.len(),
{
    if s.len() > 0 {
        lemma_split_on_len(s.drop_last(), c);
    }
}

/// The choices of a multiple-choice answer.
pub fn split_choices(v: &str) -> (res: Vec<String>)
    ensures
        res@.map_values(|p: String| p@) == choices(v@),
{
    let cs = chars_of(v);
    let mut parts: Vec<String> = Vec::new();
    if cs.len() == 0 {
        assert(parts@.map_values(|p: String| p@) =~= Seq::<Seq<char>>::empty());
        return parts;
    }
    let mut cur: Vec<char> = Vec::new();
    let mut i: usize = 0;
    assert(cs@.take(0) =~= Seq::<char>::empty());
    assert(parts@.map_values(|p: String| p@).push(cur@) =~= split_on(cs@.take(0), ';'));
    while i < cs.len()
        invariant
            i <= cs@.len(),
            cs@ == v@,
            parts@.map_values(|p: String| p@).push(cur@) == split_on(cs@.take(i as int), ';'),
        decreases cs@.len() - i,
    {
        let ghost pv = parts@.map_values(|p: String| p@);
        assert(cs@.take(i + 1).drop_last() =~= cs@.take(i as int));
        assert(cs@.take(i + 1).last() == cs@[i as int]);
        if cs[i] == ';' {
            let piece = string_of(&cur);
            parts.push(piece);
            cur = Vec::new();
            assert(parts@.map_values(|p: String| p@).push(cur@) =~= pv.push(piece@).push(Seq::<char>::empty()));
        } else {
            let ghost before = cur@;
            cur.push(cs[i]);
            assert(parts@.map_values(|p: String| p@).push(cur@) =~= pv.push(before).update(pv.len() as int, before.push(cs@[i as int])));
        }
        i = i + 1;
    }
    let piece = string_of(&cur);
    let ghost pv = parts@.map_values(|p: String| p@);
    parts.push(piece);
    assert(cs@.take(cs@.len() as int) =~= cs@);
    assert(parts@.map_values(|p: String| p@) =~= pv.push(piece@));
    parts
}

/// Why the time of an answer could not be read.
#[derive(PartialEq, Eq, Structural, Clone, Copy, Debug)]
pub enum TimestampError {
    /// No `GMT` separates the time from its offset.
    MissingOffset,
    /// The date and time do not read in the survey's format.
    InvalidDatetime,
    /// The offset is not a whole number of hours that fits an `i8`.
    InvalidOffset,
    /// The moment, taken back to UTC, lies outside the years the `time` crate
    /// supports.
    OutOfRange,
}

/// How the survey writes the date and time of an answer, in the notation of the
/// `time` crate.
pub open spec fn timestamp_format() -> Seq<char> {
    "%Y/%m/%d %-I:%M:%S %P"@
}

/// The smallest year of a `time` date.
pub open spec fn min_year() -> int {
    -100000
}

/// The largest year of a `time` date.
pub open spec fn max_year() -> int {
    100000
}

/// What `time::PrimitiveDateTime::parse` reads from `text` in `format`: the year,
/// month, day, hour, minute and second, or `None` where the text does not read.
pub uninterp spec fn datetime_read(text: Seq<char>, format: Seq<char>) -> Option<(int, int, int, int, int, int)>;

#[verifier::external_type_specification]
#[verifier::external_body]
pub struct ExPrimitiveDateTime(time::PrimitiveDateTime);

#[verifier::external_type_specification]
#[verifier::external_body]
pub struct ExOffsetDateTime(time::OffsetDateTime);

/// A date and time of day, without an offset.
#[derive(PartialEq, Eq, Structural, Clone, Copy, Debug)]
pub struct LocalTime {
    pub year: i32,
    pub month: u8,
    pub day: u8,
    pub hour: u8,
    pub minute: u8,
    pub second: u8,
}

/// The fields of a local time, as numbers.
pub open spec fn local_view(t: LocalTime) -> (int, int, int, int, int, int) {
    (t.year as int, t.month as int, t.day as int, t.hour as int, t.minute as int, t.second as int)
}

/// A date and time read from text, together with its fields.
pub struct ParsedTime {
    dt: time::PrimitiveDateTime,
    local: LocalTime,
}

impl ParsedTime {
    /// The fields of the date and time.
    pub closed spec fn local(&self) -> LocalTime {
        self.local
    }
}

/// `time::PrimitiveDateTime::parse`, with the fields of what it read taken out
/// (`year`, `month`, `day`, `hour`, `minute`, `second`). `Some` exactly where the
/// name `datetime_read` reads something, and then those are the fields; the
/// ranges are those of `time`'s dates and times. Only the survey's format is
/// admitted: the crate panics on a format with an unknown or dangling specifier.
#[verifier::external_body]
fn parse_datetime(text: &str, format: &str) -> (res: Option<ParsedTime>)
    requires
        format@ == timestamp_format(),
    ensures
        res is Some == datetime_read(text@, format@) is Some,
        res matches Some(p) ==> {
            &&& datetime_read(text@, format@) == Some(local_view(p.local()))
            &&& min_year() <= p.local().year <= max_year()
            &&& 1 <= p.local().month <= 12
            &&& 1 <= p.local().day <= 31
            &&& p.local().hour < 24
            &&& p.local().minute < 60
            &&& p.local().second < 60
        },
{
    time::PrimitiveDateTime::parse(text, format).ok().map(|dt| ParsedTime {
        dt,
        local: LocalTime {
            year: dt.year(),
            month: dt.month(),
            day: dt.day(),
            hour: dt.hour(),
            minute: dt.minute(),
            second: dt.second(),
        },
    })
}

/// Taking a local time back to UTC by `hours` leaves the years of `time`: past the
/// end of the last December, or before the start of the first January. Offsets
/// are shorter than a month, so only those months can cross.
pub open spec fn leaves_range(t: (int, int, int, int, int, int), hours: int) -> bool {
    let (year, month, day, hour, _, _) = t;
    ||| year == max_year() && month == 12 && (day - 1) * 24 + hour - hours >= 31 * 24
    ||| year == min_year() && month == 1 && (day - 1) * 24 + hour - hours < 0
}

/// The number of days from 1970-01-01 to the given day of the proleptic Gregorian
/// calendar (negative before it).
pub open spec fn days_from_civil(year: int, month: int, day: int) -> int {
    let y = if month <= 2 { year - 1 } else { year };
    let era = y / 400;
    let yoe = y - era * 400;
    let mp = (month + 9) % 12;
    let doy = (153 * mp + 2) / 5 + day - 1;
    let doe = yoe * 365 + yoe / 4 - yoe / 100 + doy;
    era * 146097 + doe - 719468
}

/// The Unix time, in seconds, of a local date and time at an offset of `hours`
/// east of UTC: the local time taken back to UTC.
pub open spec fn utc_seconds(t: (int, int, int, int, int, int), hours: int) -> int {
    let (year, month, day, hour, minute, second) = t;
    days_from_civil(year, month, day) * 86400 + hour * 3600 + minute * 60 + second - hours * 3600
}

/// `time::PrimitiveDateTime::assume_offset`, with the offset given in hours
/// (`time::UtcOffset::hours`), and the Unix time of the moment it gives
/// (`OffsetDateTime::unix_timestamp`). The date and time are taken to be at that
/// offset, so the moment is the local time less the offset; reaching UTC panics
/// where the result leaves the supported years, so such inputs are left out.
#[verifier::external_body]
fn assume_offset_hours(t: &ParsedTime, hours: i8) -> (res: (time::OffsetDateTime, i64))
    requires
        !leaves_range(local_view(t.local()), hours as int),
    ensures
        res.1 == utc_seconds(local_view(t.local()), hours as int),
{
    let moment = t.dt.assume_offset(time::UtcOffset::hours(hours));
    (moment, moment.unix_timestamp())
}

/// The date-time and offset of a timestamp such as `2020/12/11 1:02:03 am GMT+10`:
/// the text before the first `GMT` and the text after it, up to a second `GMT`
/// where there is one, both trimmed.
pub open spec fn gmt_parts(v: Seq<char>) -> Option<(Seq<char>, Seq<char>)> {
    match split_first(v, "GMT"@) {
        None => None,
        Some((a, rest)) => Some(
            (
                trim_of(a),
                trim_of(
                    match split_first(rest, "GMT"@) {
                        Some((b, _)) => b,
                        None => rest,
                    },
                ),
            ),
        ),
    }
}

/// The value of a whole number as `str::parse::<i8>` reads it: an optional sign,
/// then at least one ASCII digit and nothing else, within the range of an `i8`.
pub open spec fn parse_i8_text(t: Seq<char>) -> Option<int> {
    let neg = t.len() > 0 && t[0] == '-';
    let d = if t.len() > 0 && (t[0] == '-' || t[0] == '+') { t.drop_first() } else { t };
    let v = if neg { -digits_value(d) } else { digits_value(d) };
    if d.len() > 0 && all_digits(d) && -128 <= v <= 127 {
        Some(v)
    } else {
        None
    }
}

/// The hours of an offset: a leading `+` is dropped before the number is read.
pub open spec fn offset_hours(off: Seq<char>) -> Option<int> {
    parse_i8_text(if has_prefix(off, "+"@) { off.drop_first() } else { off })
}

/// What the time of an answer reads as: its date-time text, the fields read from
/// it and the offset in hours, or why it does not read.
pub open spec fn timestamp_check(v: Seq<char>) -> Result<(Seq<char>, (int, int, int, int, int, int), int), TimestampError> {
    match gmt_parts(v) {
        None => Err(TimestampError::MissingOffset),
        Some((dt, off)) => match datetime_read(dt, timestamp_format()) {
            None => Err(TimestampError::InvalidDatetime),
            Some(local) => match offset_hours(off) {
                None => Err(TimestampError::InvalidOffset),
                Some(h) => if leaves_range(local, h) {
                    Err(TimestampError::OutOfRange)
                } else {
                    Ok((dt, local, h))
                },
            },
        },
    }
}

proof fn lemma_i8_overflow(t: Seq<char>, m: int)
    requires
        ({
            let d = if t.len() > 0 && (t[0] == '-' || t[0] == '+') { t.drop_first() } else { t };
            &&& 0 <= m <= d.len()
            &&& forall|k: int| 0 <= k < m ==> is_digit(#[trigger] d[k])
            &&& digits_value(d.take(m)) > 128
        }),
    ensures
        parse_i8_text(t) is None,
{
    let d = if t.len() > 0 && (t[0] == '-' || t[0] == '+') { t.drop_first() } else { t };
    if all_digits(d) {
        lemma_digits_value_mono(d, m, d.len() as int);
        assert(d.take(d.len() as int) =~= d);
    }
}

/// Reads a whole number that fits an `i8`, as `str::parse::<i8>` does.
pub fn parse_i8(t: &Vec<char>) -> (res: Option<i8>)
    ensures
        match res {
            Some(n) => parse_i8_text(t@) == Some(n as int),
            None => parse_i8_text(t@) is None,
        },
{
    let neg = t.len() > 0 && t[0] == '-';
    let start: usize = if t.len() > 0 && (t[0] == '-' || t[0] == '+') { 1 } else { 0 };
    let ghost d = if t@.len() > 0 && (t@[0] == '-' || t@[0] == '+') { t@.drop_first() } else { t@ };
    assert(d =~= t@.skip(start as int));
    if start == t.len() {
        return None;
    }
    let mut i: usize = start;
    let mut v: u32 = 0;
    assert(d.take(0) =~= Seq::<char>::empty());
    while i < t.len()
        invariant
            start <= i <= t.len(),
            start < t.len(),
            d == (if t@.len() > 0 && (t@[0] == '-' || t@[0] == '+') { t@.drop_first() } else { t@ }),
            d =~= t@.skip(start as int),
            forall|k: int| 0 <= k < i - start ==> is_digit(#[trigger] d[k]),
            v == digits_value(d.take(i - start)),
            v <= 128,
        decreases t.len() - i,
    {
        let c = t[i];
        assert(d[i - start] == c);
        if !('0' <= c && c <= '9') {
            assert(!all_digits(d));
            return None;
        }
        let dig: u32 = c as u32 - 48u32;
        assert(dig == c as int - '0' as int);
        assert(d.take(i - start + 1).drop_last() =~= d.take(i - start));
        assert(d.take(i - start + 1).last() == c);
        v = v * 10 + dig;
        if v > 128 {
            proof {
                lemma_i8_overflow(t@, i - start + 1);
            }
            return None;
        }
        i = i + 1;
    }
    assert(d.take(d.len() as int) =~= d);
    if neg {
        let r: i8 = if v == 128 { -128 } else { -(v as i8) };
        Some(r)
    } else if v <= 127 {
        Some(v as i8)
    } else {
        None
    }
}

/// The time an answer was given.
pub struct SurveyTime {
    /// The date and time as the survey wrote them.
    pub datetime: String,
    /// The fields of the date and time.
    pub local: LocalTime,
    /// The offset from UTC, in hours.
    pub offset_hours: i8,
    /// The moment, as a Unix time in seconds.
    pub utc_seconds: i64,
    /// The moment, as the `time` crate holds it.
    pub value: time::OffsetDateTime,
}

/// Reads the time of an answer, such as `2020/12/11 1:02:03 am GMT+10`.
pub fn parse_timestamp(v: &str) -> (res: Result<SurveyTime, TimestampError>)
    ensures
        match (res, timestamp_check(v@)) {
            (Ok(t), Ok((dt, local, h))) => {
                &&& t.datetime@ == dt
                &&& local_view(t.local) == local
                &&& t.offset_hours == h
                &&& t.utc_seconds == utc_seconds(local, h)
            },
            (Err(e), Err(f)) => e == f,
            _ => false,
        },
{
    let cs = chars_of(v);
    let (a, rest) = match split_first_str(&cs, "GMT") {
        Some(p) => p,
        None => {
            return Err(TimestampError::MissingOffset);
        },
    };
    let dt = trim(&a);
    let off_raw = match split_first_str(&rest, "GMT") {
        Some((b, _)) => b,
        None => rest,
    };
    let off = trim(&off_raw);
    let dt_text = string_of(&dt);
    let format = "%Y/%m/%d %-I:%M:%S %P";
    let parsed = match parse_datetime(dt_text.as_str(), format) {
        Some(p) => p,
        None => {
            return Err(TimestampError::InvalidDatetime);
        },
    };
    proof {
        reveal_strlit("+");
        if off@.len() > 0 {
            if off@[0] == '+' {
                assert(off@.take(1) =~= "+"@);
            }
            if off@.take(1) == "+"@ {
                assert(off@.take(1)[0] == '+');
            }
        }
    }
    let digits = if off.len() > 0 && off[0] == '+' {
        suffix_from(&off, 1)
    } else {
        off
    };
    let hours = match parse_i8(&digits) {
        Some(h) => h,
        None => {
            return Err(TimestampError::InvalidOffset);
        },
    };
    let l = parsed.local;
    let h = hours as i64;
    let past_end = l.year == 100000 && l.month == 12 && (l.day as i64 - 1) * 24 + l.hour as i64 - h >= 744;
    let before_start = l.year == -100000 && l.month == 1 && (l.day as i64 - 1) * 24 + l.hour as i64 - h < 0;
    if past_end || before_start {
        return Err(TimestampError::OutOfRange);
    }
    let (value, seconds) = assume_offset_hours(&parsed, hours);
    Ok(SurveyTime { datetime: dt_text, local: l, offset_hours: hours, utc_seconds: seconds, value })
}

/// Splitting at a character and joining the pieces with it gives back the text,
/// and no piece holds the character.
proof fn lemma_split_join(s: Seq<char>, c: char)
    ensures
        join(split_on(s, c), seq![c]) == s,
        forall|i: int, j: int| 0 <= i < split_on(s, c).len() && 0 <= j < split_on(s, c)[i].len() ==> #[trigger] split_on(s, c)[i][j] != c,
    decreases s.len(),
{
    if s.len() > 0 {
        let t = s.drop_last();
        let x = s.last();
        lemma_split_join(t, c);
        lemma_split_on_len(t, c);
        let r = split_on(t, c);
        let sp = split_on(s, c);
        if x == c {
            assert(sp.drop_last() =~= r);
            assert(join(sp, seq![c]) =~= join(r, seq![c]) + seq![c] + Seq::<char>::empty());
            assert forall|i: int, j: int| 0 <= i < sp.len() && 0 <= j < sp[i].len() implies #[trigger] sp[i][j] != c by {
                assert(sp[i] == r[i]);
            }
        } else {
            if r.len() == 1 {
                assert(join(sp, seq![c]) =~= r[0].push(x));
            } else {
                assert(sp.drop_last() =~= r.drop_last());
                assert(join(sp, seq![c]) =~= join(r, seq![c]).push(x));
            }
            assert forall|i: int, j: int| 0 <= i < sp.len() && 0 <= j < sp[i].len() implies #[trigger] sp[i][j] != c by {
                if i < r.len() - 1 {
                    assert(sp[i] == r[i]);
                } else if j < r[i].len() {
                    assert(sp[i][j] == r[i][j]);
                }
            }
        }
    }
}

/// The choices of an answer joined with semicolons give back the answer, and no
/// choice holds a semicolon.
pub proof fn law_choices_round_trip(s: Seq<char>)
    ensures
        join(choices(s), ";"@) == s,
        forall|i: int, j: int| 0 <= i < choices(s).len() && 0 <= j < choices(s)[i].len() ==> #[trigger] choices(s)[i][j] != ';',
{
    reveal_strlit(";");
    assert(";"@ =~= seq![';']);
    lemma_split_join(s, ';');
}

} // verus!
