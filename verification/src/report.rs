//! The nine-row report assembled from one captured instant: the Unix time,
//! the Gregorian and week-date ISO-8601 forms in local time and UTC, and
//! the four elapsed proportions, rendered as a two-column table.

use crate::calendar::{spec_days_before_month, spec_month_length, spec_year_length};
use crate::number::spec_decimal_signed;
use crate::proportion::{
    proportion_day, proportion_month, proportion_week, proportion_year, spec_proportion,
};
use crate::text::{make_table, spec_separate, spec_table};
use crate::timestamp::{
    day_of_week_of, gregorian_string, iso_week_num_of, iso_week_year_of, isoweekday,
    spec_gregorian_string, spec_weekdate_string, unix_seconds_of, unix_time, Timestamp,
};
use vstd::prelude::*;

verus! {

/// What the week-date row shows for a timestamp.
pub open spec fn spec_weekdate_row(t: Timestamp) -> Seq<char> {
    spec_weekdate_string(
        iso_week_year_of(t.year as int, t.month as int, t.day as int),
        iso_week_num_of(t.year as int, t.month as int, t.day as int),
        day_of_week_of(t.year as int, t.month as int, t.day as int),
        t,
    )
}

/// What the Unix row shows for a timestamp.
pub open spec fn spec_unix_row(t: Timestamp) -> Seq<char> {
    spec_separate(
        spec_decimal_signed(
            unix_seconds_of(
                t.year as int,
                t.month as int,
                t.day as int,
                t.hour as int,
                t.minute as int,
                t.second as int,
                t.offset_seconds as int,
            ),
        ),
        3,
        ' ',
    )
}

/// The nine labelled rows of the report, in their fixed order, for a local
/// timestamp and the same instant re-expressed in UTC.
pub open spec fn spec_combodate_rows(local: Timestamp, utc: Timestamp) -> Seq<
    (Seq<char>, Seq<char>),
> {
    seq![
        ("Unix"@, spec_unix_row(local)),
        ("ISO-8601 Gregorian (Local)"@, spec_gregorian_string(local)),
        ("ISO-8601 Gregorian (UTC)"@, spec_gregorian_string(utc)),
        ("ISO-8601 Week-date (Local)"@, spec_weekdate_row(local)),
        ("ISO-8601 Week-date (UTC)"@, spec_weekdate_row(utc)),
        (
            "Proportion of day elapsed (Local)"@,
            spec_proportion(local.spec_secs_from_midnight(), 86400),
        ),
        (
            "Proportion of week elapsed (Local)"@,
            spec_proportion(
                local.spec_secs_from_midnight() + 86400 * day_of_week_of(
                    local.year as int,
                    local.month as int,
                    local.day as int,
                ),
                604800,
            ),
        ),
        (
            "Proportion of month elapsed (Local)"@,
            spec_proportion(
                local.spec_secs_from_midnight() + 86400 * (local.day - 1),
                spec_month_length(local.year as int, local.month as int) * 86400,
            ),
        ),
        (
            "Proportion of year elapsed (Local)"@,
            spec_proportion(
                local.spec_secs_from_midnight() + 86400 * (spec_days_before_month(
                    local.year as int,
                    local.month as int,
                ) + local.day - 1),
                spec_year_length(local.year as int) * 86400,
            ),
        ),
    ]
}

/// Renders the whole report for one instant: `local` carries the captured
/// local fields and `utc` the same instant with a zero offset.
pub fn make_combodate_table(local: &Timestamp, utc: &Timestamp) -> (r: String)
    requires
        local.wf(),
        utc.wf(),
        utc.offset_seconds == 0,
    ensures
        r@ == spec_table(spec_combodate_rows(*local, *utc)),
{
    let v_unix = unix_time(local);
    let v_gl = gregorian_string(local);
    let v_gu = gregorian_string(utc);
    let v_wl = isoweekday(local);
    let v_wu = isoweekday(utc);
    let v_pd = proportion_day(local);
    let v_pw = proportion_week(local);
    let v_pm = proportion_month(local);
    let v_py = proportion_year(local);
    let mut rows: Vec<(&str, &str)> = Vec::new();
    rows.push(("Unix", v_unix.as_str()));
    rows.push(("ISO-8601 Gregorian (Local)", v_gl.as_str()));
    rows.push(("ISO-8601 Gregorian (UTC)", v_gu.as_str()));
    rows.push(("ISO-8601 Week-date (Local)", v_wl.as_str()));
    rows.push(("ISO-8601 Week-date (UTC)", v_wu.as_str()));
    rows.push(("Proportion of day elapsed (Local)", v_pd.as_str()));
    rows.push(("Proportion of week elapsed (Local)", v_pw.as_str()));
    rows.push(("Proportion of month elapsed (Local)", v_pm.as_str()));
    rows.push(("Proportion of year elapsed (Local)", v_py.as_str()));
    let r = make_table(rows.as_slice());
    proof {
        assert(rows@.map_values(|p: (&str, &str)| (p.0@, p.1@)) =~= spec_combodate_rows(
            *local,
            *utc,
        ));
    }
    r
}

} // verus!
