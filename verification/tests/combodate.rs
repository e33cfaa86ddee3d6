use chrono::Datelike;
use chrono::Offset;
use chrono::TimeZone;
use chrono::Timelike;
use combodate::calendar::{is_leap_year, month_length, year_length};
use combodate::proportion::{
    proportion_day, proportion_month, proportion_week, proportion_year,
};
use combodate::report::make_combodate_table;
use combodate::text::{make_table, pad, reverse_str, separate, separate_from_left};
use combodate::timestamp::{gregorian_string, isoweekday, unix_time, Timestamp};

fn ts(
    year: i32,
    month: u32,
    day: u32,
    hour: u32,
    minute: u32,
    second: u32,
    offset_seconds: i32,
) -> Timestamp {
    Timestamp::new(year, month, day, hour, minute, second, offset_seconds).unwrap()
}

fn from_local(t: &chrono::DateTime<chrono::Local>) -> Timestamp {
    ts(
        t.year(),
        t.month(),
        t.day(),
        t.hour(),
        t.minute(),
        t.second(),
        t.offset().fix().local_minus_utc(),
    )
}

#[test]
fn sep_test_1() {
    assert_eq!(
        separate("1234567890", 3, ' '),
        String::from("1 234 567 890")
    );
}

#[test]
fn sep_test_2() {
    let x = 123456789;
    assert_eq!(
        separate(&format!("{}", x), 3, ','),
        String::from("123,456,789")
    );
}

#[test]
fn unix_test_1() {
    let x = chrono::Local.timestamp_opt(1679866623, 0).unwrap(); // is a valid Unix time
    assert_eq!(unix_time(&from_local(&x)), "1 679 866 623");
}

#[test]
fn unix_test_2() {
    let x = chrono::Utc.timestamp_opt(626651100, 0).unwrap(); // is a valid Unix time
    let t = ts(x.year(), x.month(), x.day(), x.hour(), x.minute(), x.second(), 0);
    assert_eq!(unix_time(&t), "626 651 100");
}

#[test]
fn pad_test_left_1() {
    assert_eq!(pad("hhhh", 7, true, 'o'), String::from("ooohhhh"));
}

#[test]
fn pad_test_left_2() {
    assert_eq!(pad("hhhh", 3, true, 'o'), String::from("hhhh"));
}

#[test]
fn pad_test_right_1() {
    assert_eq!(pad("ooo", 7, false, 'h'), String::from("ooohhhh"));
}

#[test]
fn pad_test_right_2() {
    assert_eq!(pad("hhhh", 3, false, 'o'), String::from("hhhh"));
}

#[test]
fn table_test() {
    let w = [
        ("spaces!", "places"),
        ("vast", "space"),
        ("to", "be"),
        ("padded", "with"),
        ("spaces", "!"),
    ];
    assert_eq!(
        make_table(&w),
        String::from(
            "spaces! places\nvast     space\nto          be\npadded    with\nspaces       !\n"
        )
    );
}

#[test]
fn isoweekday_test_1() {
    let test_date = ts(1989, 11, 9, 22, 45, 0, 3600);
    assert_eq!(
        isoweekday(&test_date),
        String::from("1989-W45-4T22:45:00+01:00")
    );
}

#[test]
fn isoweekday_test_2() {
    let test_date = ts(1989, 11, 9, 21, 45, 0, 0);
    assert_eq!(
        isoweekday(&test_date),
        String::from("1989-W45-4T21:45:00+00:00")
    );
}

#[test]
fn reverse_str_test_1() {
    assert_eq!(reverse_str("Koszulity"), String::from("ytiluzsoK"));
}

#[test]
fn sep_from_left_test_1() {
    assert_eq!(
        separate_from_left("aaabbbcccdd", 3, 'x'),
        String::from("aaaxbbbxcccxdd")
    );
}

#[test]
fn sep_from_left_test_2() {
    assert_eq!(
        separate_from_left("aaabbbcccddd", 3, 'x'),
        String::from("aaaxbbbxcccxddd")
    );
}

#[test]
fn prop_day_test_1() {
    let test_date = ts(1989, 11, 9, 12, 0, 0, -8 * 3600);
    assert_eq!(proportion_day(&test_date), String::from("0.500 00"));
}

#[test]
fn prop_week_test_1() {
    let test_date = ts(1995, 7, 13, 12, 0, 0, -9 * 3600);
    assert_eq!(proportion_week(&test_date), String::from("0.500 00"));
}

#[test]
fn leap_year_test_1() {
    assert!(is_leap_year(2004));
}

#[test]
fn leap_year_test_2() {
    assert!(is_leap_year(2000));
}

#[test]
fn leap_year_test_3() {
    assert!(is_leap_year(1600));
}

#[test]
fn leap_year_test_4() {
    assert!(!is_leap_year(2100));
}

#[test]
fn leap_year_test_5() {
    assert!(!is_leap_year(1997));
}

#[test]
fn month_len_test_1() {
    assert_eq!(month_length(2004, 2), 29);
}

#[test]
fn mon_len_test_2() {
    assert_eq!(month_length(2000, 2), 29);
}

#[test]
fn mon_len_test_3() {
    assert_eq!(month_length(1600, 2), 29);
}

#[test]
fn mon_len_test_4() {
    assert_eq!(month_length(2100, 2), 28);
}

#[test]
fn mon_len_test_5() {
    assert_eq!(month_length(1997, 2), 28);
}

#[test]
fn mon_len_test_6() {
    assert_eq!(month_length(2014, 3), 31);
}

#[test]
fn mon_len_test_7() {
    assert_eq!(month_length(2000, 8), 31);
}

#[test]
fn mon_len_test_8() {
    assert_eq!(month_length(2045, 12), 31);
}

#[test]
fn mon_len_test_9() {
    assert_eq!(month_length(2014, 4), 30);
}

#[test]
fn mon_len_test_10() {
    assert_eq!(month_length(2000, 6), 30);
}

#[test]
fn mon_len_test_11() {
    assert_eq!(month_length(2045, 11), 30);
}

#[test]
fn prop_month_test_1() {
    let test_date = ts(1995, 2, 8, 0, 0, 0, -9 * 3600);
    assert_eq!(proportion_month(&test_date), String::from("0.250 00"));
}

#[test]
fn year_length_test_1() {
    assert_eq!(year_length(1996), 366);
}

#[test]
fn year_length_test_2() {
    assert_eq!(year_length(2000), 366);
}

#[test]
fn year_length_test_3() {
    assert_eq!(year_length(1600), 366);
}

#[test]
fn year_length_test_4() {
    assert_eq!(year_length(2100), 365);
}

#[test]
fn year_length_test_5() {
    assert_eq!(year_length(2013), 365);
}

#[test]
fn prop_year_test_1() {
    let test_date = ts(1989, 4, 2, 6, 0, 0, 0);
    assert_eq!(proportion_year(&test_date), "0.250 00");
}

#[test]
fn prop_year_test_2() {
    let test_date = ts(2000, 4, 1, 12, 0, 0, 0);
    assert_eq!(proportion_year(&test_date), "0.250 00");
}

#[test]
fn month_lengths_sum_to_year_length() {
    for year in [1600, 1900, 1999, 2000, 2023, 2024, 2100] {
        let total: u32 = (1..=12).map(|m| month_length(year, m)).sum();
        assert_eq!(total, year_length(year));
    }
}

#[test]
fn leap_year_negative_and_zero() {
    assert!(is_leap_year(0));
    assert!(is_leap_year(-4));
    assert!(!is_leap_year(-100));
    assert!(is_leap_year(-400));
    assert!(!is_leap_year(-3));
}

#[test]
fn grouping_round_trip_strips_back() {
    let s = "987654321012";
    let left = separate_from_left(s, 3, ' ');
    let round = separate(&left, 3, ' ');
    let stripped: String = round.chars().filter(|c| *c != ' ').collect();
    assert_eq!(stripped, s);
}

#[test]
fn grouping_never_edges_with_separator() {
    for s in ["1", "12", "123", "1234", "12345", "123456"] {
        for n in [1u8, 2, 3, 4] {
            for out in [separate(s, n, ' '), separate_from_left(s, n, ' ')] {
                assert!(!out.starts_with(' '));
                assert!(!out.ends_with(' '));
            }
        }
    }
}

#[test]
fn pad_never_shortens() {
    for (s, w) in [("abc", 0usize), ("abc", 3), ("abc", 10), ("", 4)] {
        for left in [true, false] {
            let got = pad(s, w, left, '*');
            assert_eq!(got.len(), s.len().max(w));
        }
    }
}

#[test]
fn separate_group_of_one() {
    assert_eq!(separate("1234", 1, '.'), "1.2.3.4");
    assert_eq!(separate_from_left("1234", 1, '.'), "1.2.3.4");
}

#[test]
fn separate_short_input_unchanged() {
    assert_eq!(separate("12", 3, ' '), "12");
    assert_eq!(separate_from_left("12", 3, ' '), "12");
    assert_eq!(separate("", 3, ' '), "");
}

#[test]
fn proportion_shape_and_range() {
    let cases = [
        ts(2023, 6, 15, 7, 43, 21, 0),
        ts(2024, 2, 29, 23, 59, 59, 3600),
        ts(2001, 1, 1, 0, 0, 0, -3600),
    ];
    for t in &cases {
        for s in [
            proportion_day(t),
            proportion_week(t),
            proportion_month(t),
            proportion_year(t),
        ] {
            let b = s.as_bytes();
            assert_eq!(b.len(), 8);
            assert_eq!(&b[0..2], b"0.");
            assert!(b[2].is_ascii_digit() && b[3].is_ascii_digit() && b[4].is_ascii_digit());
            assert_eq!(b[5], b' ');
            assert!(b[6].is_ascii_digit() && b[7].is_ascii_digit());
            let digits: String = s.chars().skip(2).filter(|c| *c != ' ').collect();
            let value: u32 = digits.parse().unwrap();
            assert!(value < 100000);
        }
    }
}

#[test]
fn proportion_starts_at_zero() {
    let t = ts(2023, 1, 2, 0, 0, 0, 0); // a Monday at midnight
    assert_eq!(proportion_day(&t), "0.000 00");
    assert_eq!(proportion_week(&t), "0.000 00");
}

#[test]
fn gregorian_matches_iso_extended_form() {
    let t = ts(2016, 11, 8, 0, 0, 0, 5 * 3600);
    assert_eq!(gregorian_string(&t), "2016-11-08T00:00:00+05:00");
    let u = ts(1996, 12, 19, 16, 39, 57, -8 * 3600);
    assert_eq!(gregorian_string(&u), "1996-12-19T16:39:57-08:00");
}

#[test]
fn gregorian_pads_small_fields() {
    let t = ts(33, 1, 2, 3, 4, 5, 1800);
    assert_eq!(gregorian_string(&t), "0033-01-02T03:04:05+00:30");
}

#[test]
fn unix_time_before_epoch() {
    // The sign is grouped like a digit, as grouping from the right places it.
    let t = ts(1960, 1, 1, 0, 0, 0, 0);
    assert_eq!(unix_time(&t), "- 315 619 200");
}

#[test]
fn timestamp_new_rejects_bad_fields() {
    assert!(Timestamp::new(2023, 13, 1, 0, 0, 0, 0).is_none());
    assert!(Timestamp::new(2023, 0, 1, 0, 0, 0, 0).is_none());
    assert!(Timestamp::new(2023, 2, 29, 0, 0, 0, 0).is_none());
    assert!(Timestamp::new(2024, 2, 29, 0, 0, 0, 0).is_some());
    assert!(Timestamp::new(2023, 6, 15, 24, 0, 0, 0).is_none());
    assert!(Timestamp::new(2023, 6, 15, 0, 60, 0, 0).is_none());
    assert!(Timestamp::new(2023, 6, 15, 0, 0, 60, 0).is_none());
    assert!(Timestamp::new(2023, 6, 15, 0, 0, 0, 86400).is_none());
    assert!(Timestamp::new(2023, 6, 15, 0, 0, 0, -86400).is_none());
    assert!(Timestamp::new(0, 6, 15, 0, 0, 0, 0).is_none());
    assert!(Timestamp::new(9999, 6, 15, 0, 0, 0, 0).is_none());
}

#[test]
fn full_table_has_nine_aligned_rows() {
    let local = ts(1989, 11, 9, 22, 45, 0, 3600);
    let utc = ts(1989, 11, 9, 21, 45, 0, 0);
    let table = make_combodate_table(&local, &utc);
    let lines: Vec<&str> = table.lines().collect();
    assert_eq!(lines.len(), 9);
    let width = lines[0].len();
    for line in &lines {
        assert_eq!(line.len(), width);
    }
    assert!(lines[0].starts_with("Unix"));
    assert!(lines[0].ends_with("626 651 100"));
    assert!(lines[1].contains("1989-11-09T22:45:00+01:00"));
    assert!(lines[2].contains("1989-11-09T21:45:00+00:00"));
    assert!(lines[3].contains("1989-W45-4T22:45:00+01:00"));
    assert!(lines[4].contains("1989-W45-4T21:45:00+00:00"));
    assert!(table.ends_with('\n'));
}
