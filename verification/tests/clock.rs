use snowrun::clock::{parse_date, DateFault, DateTime, DATE_FORMAT};

fn at(year: i32, month: u32, day: u32, hour: u32, minute: u32, second: u32) -> DateTime {
    DateTime { year, month, day, hour, minute, second, nanosecond: 0 }
}

#[test]
fn plain_dates_read_back() {
    assert_eq!(parse_date("1996-01-01 12:00:00"), Ok(at(1996, 1, 1, 12, 0, 0)));
    assert_eq!(parse_date("2000-02-29 23:59:59"), Ok(at(2000, 2, 29, 23, 59, 59)));
    assert_eq!(parse_date("0000-12-31 00:00:00"), Ok(at(0, 12, 31, 0, 0, 0)));
    assert_eq!(parse_date("9999-04-30 01:02:03"), Ok(at(9999, 4, 30, 1, 2, 3)));
    for month in 1..=12 {
        for day in 1..=28 {
            let t = at(1904, month, day, day % 24, month, day);
            let text = format!("1904-{month:02}-{day:02} {:02}:{month:02}:{day:02}", day % 24);
            assert_eq!(parse_date(&text), Ok(t));
        }
    }
}

#[test]
fn a_leap_second_is_read() {
    let t = DateTime { nanosecond: 1_000_000_000, ..at(2015, 6, 30, 23, 59, 59) };
    assert_eq!(parse_date("2015-06-30 23:59:60"), Ok(t));
}

#[test]
fn dates_that_do_not_exist_are_refused() {
    assert_eq!(parse_date("1999-02-29 12:00:00"), Err(DateFault::OutOfRange));
    assert_eq!(parse_date("1996-13-01 12:00:00"), Err(DateFault::OutOfRange));
    assert_eq!(parse_date("1996-01-01 24:00:00"), Err(DateFault::OutOfRange));
}

#[test]
fn texts_that_are_no_dates_are_refused() {
    assert_eq!(parse_date(""), Err(DateFault::TooShort));
    assert_eq!(parse_date("1996-01-01"), Err(DateFault::TooShort));
    assert_eq!(parse_date("today"), Err(DateFault::Invalid));
    assert_eq!(parse_date("1996-01-01 12:00:00 Z"), Err(DateFault::TooLong));
}

#[test]
fn faults_say_what_chrono_says() {
    for text in ["", "today", "1996-01-01 12:00:00 Z", "1999-02-29 12:00:00"] {
        let theirs = chrono::NaiveDateTime::parse_from_str(text, DATE_FORMAT).unwrap_err();
        assert_eq!(parse_date(text).unwrap_err().message(), theirs.to_string());
    }
    assert_eq!(DateFault::Impossible.message(), "no possible date and time matching input");
    assert_eq!(DateFault::NotEnough.message(), "input is not enough for unique date and time");
    assert_eq!(DateFault::BadFormat.message(), "bad or unsupported format string");
    assert_eq!(DateFault::Other.message(), "unreadable date and time");
}
