use git_viz::date::{civil_from_days, format_time, time_fits, Time};

fn shown(seconds: i64, offset_minutes: i32) -> String {
    format_time(&Time { seconds, offset_minutes })
}

#[test]
fn days_have_dates() {
    assert_eq!(civil_from_days(0), (1970, 1, 1));
    assert_eq!(civil_from_days(-1), (1969, 12, 31));
    assert_eq!(civil_from_days(59), (1970, 3, 1));
    // Leap days: 2000 has one, 1900 and 2100 do not.
    assert_eq!(civil_from_days(11_016), (2000, 2, 29));
    assert_eq!(civil_from_days(11_017), (2000, 3, 1));
    assert_eq!(civil_from_days(-25_509), (1900, 2, 28));
    assert_eq!(civil_from_days(-25_508), (1900, 3, 1));
    assert_eq!(civil_from_days(47_541), (2100, 3, 1));
    assert_eq!(civil_from_days(-719_468), (0, 3, 1));
    assert_eq!(civil_from_days(-719_528), (0, 1, 1));
    assert_eq!(civil_from_days(-719_529), (-1, 12, 31));
}

#[test]
fn days_count_up_without_gaps() {
    let (mut y, mut m, mut d) = civil_from_days(-800_000);
    for z in -799_999..800_000 {
        let leap = y % 4 == 0 && (y % 100 != 0 || y % 400 == 0);
        let len = match m {
            2 => 28 + leap as u32,
            4 | 6 | 9 | 11 => 30,
            _ => 31,
        };
        if d < len {
            d += 1;
        } else if m < 12 {
            (m, d) = (m + 1, 1);
        } else {
            (y, m, d) = (y + 1, 1, 1);
        }
        assert_eq!(civil_from_days(z), (y, m, d));
    }
}

#[test]
fn times_are_shown_by_the_authors_clock() {
    assert_eq!(shown(0, 0), "1970-01-01 00:00 +0000");
    assert_eq!(shown(1_700_000_000, 0), "2023-11-14 22:13 +0000");
    assert_eq!(shown(1_700_000_000, 120), "2023-11-15 00:13 +0200");
    assert_eq!(shown(1_700_000_000, -330), "2023-11-14 16:43 -0530");
    assert_eq!(shown(-1, 0), "1969-12-31 23:59 +0000");
}

#[test]
fn years_have_at_least_four_characters() {
    assert_eq!(shown(-62_167_219_200, 0), "0000-01-01 00:00 +0000");
    assert_eq!(shown(-62_167_219_201, 0), "-001-12-31 23:59 +0000");
    assert_eq!(shown(253_402_300_800, 0), "10000-01-01 00:00 +0000");
}

#[test]
fn the_ends_of_time_fit() {
    assert!(time_fits(&Time { seconds: i64::MAX, offset_minutes: 0 }));
    assert!(!time_fits(&Time { seconds: i64::MAX, offset_minutes: 1 }));
    assert!(!time_fits(&Time { seconds: 0, offset_minutes: i32::MIN }));
    assert_eq!(shown(i64::MIN, 0), "-292277022657-01-27 08:29 +0000");
    assert_eq!(shown(i64::MAX, 0), "292277026596-12-04 15:30 +0000");
}
