//! An instant of civil time held as plain calendar fields, the calendar
//! lookups that only chrono can answer about it, and its ISO-8601 forms.

use crate::calendar::spec_month_length;
use crate::number::{i64_to_decimal, spec_decimal_digits, spec_decimal_signed, spec_digit_char, u64_to_decimal};
use crate::text::{pad, separate, spec_pad, spec_separate};
use chrono::Datelike;
use chrono::TimeZone;
use vstd::prelude::*;

verus! {

/// A moment of civil time with its UTC offset: year, month (1-12), day,
/// hour, minute, second, and seconds east of UTC.
pub struct Timestamp {
    pub year: i32,
    pub month: u32,
    pub day: u32,
    pub hour: u32,
    pub minute: u32,
    pub second: u32,
    pub offset_seconds: i32,
}

impl Timestamp {
    /// A real calendar date with a time of day and a fixed offset of less
    /// than a day, the year kept four-digit so that every derived year
    /// stays four-digit too.
    pub open spec fn wf(self) -> bool {
        &&& 1 <= self.year <= 9998
        &&& 1 <= self.month <= 12
        &&& 1 <= self.day <= spec_month_length(self.year as int, self.month as int)
        &&& self.hour < 24
        &&& self.minute < 60
        &&& self.second < 60
        &&& -86400 < self.offset_seconds < 86400
    }

    /// Seconds elapsed since the most recent midnight, by the clock fields.
    pub open spec fn spec_secs_from_midnight(self) -> int {
        self.hour * 3600 + self.minute * 60 + self.second
    }

    /// Builds a timestamp from its fields, refusing any combination that is
    /// not a real date and time with an offset of less than a day.
    pub fn new(
        year: i32,
        month: u32,
        day: u32,
        hour: u32,
        minute: u32,
        second: u32,
        offset_seconds: i32,
    ) -> (r: Option<Timestamp>)
        ensures
            ({
                let c = Timestamp { year, month, day, hour, minute, second, offset_seconds };
                if c.wf() {
                    r == Some(c)
                } else {
                    r == None::<Timestamp>
                }
            }),
    {
        if 1 <= year && year <= 9998 && 1 <= month && month <= 12 && hour < 24 && minute < 60
            && second < 60 && -86400 < offset_seconds && offset_seconds < 86400 {
            if 1 <= day && day <= crate::calendar::month_length(year, month) {
                Some(Timestamp { year, month, day, hour, minute, second, offset_seconds })
            } else {
                None
            }
        } else {
            None
        }
    }

    pub fn secs_from_midnight(&self) -> (r: u32)
        requires
            self.wf(),
        ensures
            r == self.spec_secs_from_midnight(),
            r < 86400,
    {
        self.hour * 3600 + self.minute * 60 + self.second
    }
}

/// Days since the Monday of its week of the given date, 0 through 6; a
/// function of the date alone.
pub uninterp spec fn day_of_week_of(year: int, month: int, day: int) -> int;

/// The ISO week-numbering year of the given date; a function of the date
/// alone, and within one of the calendar year.
pub uninterp spec fn iso_week_year_of(year: int, month: int, day: int) -> int;

/// The ISO week number of the given date, 1 through 53; a function of the
/// date alone.
pub uninterp spec fn iso_week_num_of(year: int, month: int, day: int) -> int;

/// Seconds since the Unix epoch of the instant with the given civil fields
/// and UTC offset; a function of those fields alone.
pub uninterp spec fn unix_seconds_of(
    year: int,
    month: int,
    day: int,
    hour: int,
    minute: int,
    second: int,
    offset_seconds: int,
) -> int;

/// A real date of a four-digit year, as the trusted calendar lookups ask.
pub open spec fn spec_valid_date(year: int, month: int, day: int) -> bool {
    &&& 1 <= year <= 9998
    &&& 1 <= month <= 12
    &&& 1 <= day <= spec_month_length(year, month)
}

/// Relies on chrono's Weekday::num_days_from_monday applied to the weekday
/// of NaiveDate::from_ymd_opt: days since Monday, 0 through 6.
#[verifier::external_body]
pub(crate) fn weekday_from_monday(year: i32, month: u32, day: u32) -> (r: u32)
    requires
        spec_valid_date(year as int, month as int, day as int),
    ensures
        r == day_of_week_of(year as int, month as int, day as int),
        r <= 6,
{
    chrono::NaiveDate::from_ymd_opt(year, month, day).unwrap().weekday().num_days_from_monday()
}

/// Relies on chrono's IsoWeek::year via NaiveDate::iso_week: the ISO
/// week-numbering year, which chrono computes as the calendar year or one
/// of its two neighbours.
#[verifier::external_body]
fn iso_week_year(year: i32, month: u32, day: u32) -> (r: i32)
    requires
        spec_valid_date(year as int, month as int, day as int),
    ensures
        r == iso_week_year_of(year as int, month as int, day as int),
        year - 1 <= r <= year + 1,
{
    chrono::NaiveDate::from_ymd_opt(year, month, day).unwrap().iso_week().year()
}

/// Relies on chrono's IsoWeek::week via NaiveDate::iso_week: the ISO week
/// number, 1 through 53.
#[verifier::external_body]
fn iso_week_number(year: i32, month: u32, day: u32) -> (r: u32)
    requires
        spec_valid_date(year as int, month as int, day as int),
    ensures
        r == iso_week_num_of(year as int, month as int, day as int),
        1 <= r <= 53,
{
    chrono::NaiveDate::from_ymd_opt(year, month, day).unwrap().iso_week().week()
}

/// Relies on chrono's DateTime::timestamp on a fixed-offset datetime built
/// from the fields: seconds since the Unix epoch.
#[verifier::external_body]
fn unix_seconds(t: &Timestamp) -> (r: i64)
    requires
        t.wf(),
    ensures
        r == unix_seconds_of(
            t.year as int,
            t.month as int,
            t.day as int,
            t.hour as int,
            t.minute as int,
            t.second as int,
            t.offset_seconds as int,
        ),
{
    chrono::FixedOffset::east_opt(t.offset_seconds)
        .unwrap()
        .with_ymd_and_hms(t.year, t.month, t.day, t.hour, t.minute, t.second)
        .unwrap()
        .timestamp()
}

/// The value zero-padded on the left to two digits.
pub open spec fn spec_two_digits(n: int) -> Seq<char> {
    spec_pad(spec_decimal_digits(n as nat), 2, true, '0')
}

/// The value zero-padded on the left to four digits.
pub open spec fn spec_four_digits(n: int) -> Seq<char> {
    spec_pad(spec_decimal_digits(n as nat), 4, true, '0')
}

fn two_digits(n: u32) -> (r: String)
    requires
        n < 100,
    ensures
        r@ == spec_two_digits(n as int),
{
    proof {
        assert(crate::number::spec_pow10(2) == 100) by {
            reveal_with_fuel(crate::number::spec_pow10, 3);
        }
        crate::number::lemma_decimal_digits_len(n as nat, 2);
    }
    let d = u64_to_decimal(n as u64);
    pad(d.as_str(), 2, true, '0')
}

fn four_digits(n: u32) -> (r: String)
    requires
        n < 10000,
    ensures
        r@ == spec_four_digits(n as int),
{
    proof {
        assert(crate::number::spec_pow10(4) == 10000) by {
            reveal_with_fuel(crate::number::spec_pow10, 5);
        }
        crate::number::lemma_decimal_digits_len(n as nat, 4);
    }
    let d = u64_to_decimal(n as u64);
    pad(d.as_str(), 4, true, '0')
}

/// The numeric UTC offset with a colon: a sign, two hour digits, ':', two
/// minute digits.
pub open spec fn spec_offset_string(off: int) -> Seq<char> {
    let mag = if off < 0 {
        -off
    } else {
        off
    };
    let sign = if off < 0 {
        '-'
    } else {
        '+'
    };
    seq![sign] + spec_two_digits(mag / 3600) + seq![':'] + spec_two_digits((mag % 3600) / 60)
}

fn offset_string(off: i32) -> (r: String)
    requires
        -86400 < off < 86400,
    ensures
        r@ == spec_offset_string(off as int),
{
    let mag: u32 = if off < 0 {
        (-off) as u32
    } else {
        off as u32
    };
    let h = mag / 3600;
    let m = (mag % 3600) / 60;
    let mut r = String::new();
    push_sign(&mut r, off < 0);
    let hs = two_digits(h);
    r.append(hs.as_str());
    push_colon(&mut r);
    let ms = two_digits(m);
    r.append(ms.as_str());
    proof {
        assert(r@ =~= spec_offset_string(off as int));
    }
    r
}

fn push_sign(s: &mut String, negative: bool)
    ensures
        final(s)@ == old(s)@ + seq![if negative { '-' } else { '+' }],
{
    if negative {
        s.append("-");
        proof {
            reveal_strlit("-");
            assert(old(s)@ + "-"@ =~= old(s)@ + seq!['-']);
        }
    } else {
        s.append("+");
        proof {
            reveal_strlit("+");
            assert(old(s)@ + "+"@ =~= old(s)@ + seq!['+']);
        }
    }
}

fn push_colon(s: &mut String)
    ensures
        final(s)@ == old(s)@ + seq![':'],
{
    s.append(":");
    proof {
        reveal_strlit(":");
        assert(old(s)@ + ":"@ =~= old(s)@ + seq![':']);
    }
}

/// The ISO-8601 extended Gregorian form with seconds precision and numeric
/// offset: YYYY-MM-DDTHH:MM:SS with the signed offset after it.
pub open spec fn spec_gregorian_string(t: Timestamp) -> Seq<char> {
    spec_four_digits(t.year as int) + seq!['-'] + spec_two_digits(t.month as int) + seq!['-']
        + spec_two_digits(t.day as int) + seq!['T'] + spec_two_digits(t.hour as int) + seq![':']
        + spec_two_digits(t.minute as int) + seq![':'] + spec_two_digits(t.second as int)
        + spec_offset_string(t.offset_seconds as int)
}

pub fn gregorian_string(t: &Timestamp) -> (r: String)
    requires
        t.wf(),
    ensures
        r@ == spec_gregorian_string(*t),
{
    let mut r = four_digits(t.year as u32);
    push_dash(&mut r);
    let mo = two_digits(t.month);
    r.append(mo.as_str());
    push_dash(&mut r);
    let da = two_digits(t.day);
    r.append(da.as_str());
    push_t(&mut r);
    let ho = two_digits(t.hour);
    r.append(ho.as_str());
    push_colon(&mut r);
    let mi = two_digits(t.minute);
    r.append(mi.as_str());
    push_colon(&mut r);
    let se = two_digits(t.second);
    r.append(se.as_str());
    let off = offset_string(t.offset_seconds);
    r.append(off.as_str());
    proof {
        assert(r@ =~= spec_gregorian_string(*t));
    }
    r
}

fn push_dash(s: &mut String)
    ensures
        final(s)@ == old(s)@ + seq!['-'],
{
    s.append("-");
    proof {
        reveal_strlit("-");
        assert(old(s)@ + "-"@ =~= old(s)@ + seq!['-']);
    }
}

fn push_t(s: &mut String)
    ensures
        final(s)@ == old(s)@ + seq!['T'],
{
    s.append("T");
    proof {
        reveal_strlit("T");
        assert(old(s)@ + "T"@ =~= old(s)@ + seq!['T']);
    }
}

/// The ISO-8601 week-date form: four digits of ISO week-numbering year,
/// "-W", two digits of ISO week, '-', the one-digit ISO weekday (Monday is
/// 1), 'T', the time of day, and the numeric offset.
pub open spec fn spec_weekdate_string(gy: int, wk: int, dow: int, t: Timestamp) -> Seq<char> {
    spec_four_digits(gy) + seq!['-', 'W'] + spec_two_digits(wk) + seq![
        '-',
        spec_digit_char(dow + 1),
        'T',
    ] + spec_two_digits(t.hour as int) + seq![':'] + spec_two_digits(t.minute as int) + seq![':']
        + spec_two_digits(t.second as int) + spec_offset_string(t.offset_seconds as int)
}

pub fn isoweekday(t: &Timestamp) -> (r: String)
    requires
        t.wf(),
    ensures
        r@ == spec_weekdate_string(
            iso_week_year_of(t.year as int, t.month as int, t.day as int),
            iso_week_num_of(t.year as int, t.month as int, t.day as int),
            day_of_week_of(t.year as int, t.month as int, t.day as int),
            *t,
        ),
{
    let gy = iso_week_year(t.year, t.month, t.day);
    let wk = iso_week_number(t.year, t.month, t.day);
    let dow = weekday_from_monday(t.year, t.month, t.day);
    let mut r = four_digits(gy as u32);
    push_dash(&mut r);
    push_w(&mut r);
    let wks = two_digits(wk);
    r.append(wks.as_str());
    push_dash(&mut r);
    let dows = u64_to_decimal((dow + 1) as u64);
    r.append(dows.as_str());
    push_t(&mut r);
    let ho = two_digits(t.hour);
    r.append(ho.as_str());
    push_colon(&mut r);
    let mi = two_digits(t.minute);
    r.append(mi.as_str());
    push_colon(&mut r);
    let se = two_digits(t.second);
    r.append(se.as_str());
    let off = offset_string(t.offset_seconds);
    r.append(off.as_str());
    proof {
        assert(spec_decimal_digits((dow + 1) as nat) =~= seq![spec_digit_char(dow + 1 as int)]);
        assert(r@ =~= spec_weekdate_string(
            iso_week_year_of(t.year as int, t.month as int, t.day as int),
            iso_week_num_of(t.year as int, t.month as int, t.day as int),
            day_of_week_of(t.year as int, t.month as int, t.day as int),
            *t,
        ));
    }
    r
}

fn push_w(s: &mut String)
    ensures
        final(s)@ == old(s)@ + seq!['W'],
{
    s.append("W");
    proof {
        reveal_strlit("W");
        assert(old(s)@ + "W"@ =~= old(s)@ + seq!['W']);
    }
}

/// The seconds since the Unix epoch of the instant, in decimal, grouped in
/// threes from the right with a space.
pub fn unix_time(t: &Timestamp) -> (r: String)
    requires
        t.wf(),
    ensures
        r@ == spec_separate(
            spec_decimal_signed(
                unix_seconds_of(
                    t.year as int,
                    t.month as int,
                    t.day as int,
                    t.hour as int,
                    t.minute as int,
                    t.second as int,
                    t.offset_seconds as int,
                ),
            ),
            3,
            ' ',
        ),
{
    let s = unix_seconds(t);
    let d = i64_to_decimal(s);
    separate(d.as_str(), 3, ' ')
}

} // verus!
