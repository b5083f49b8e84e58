use ai_pool::clock::Duration;
use ai_pool::http::retry_after::{parse_http_date, retry_after, HttpDate};

const EXAMPLE: &str = "Wed, 21 Oct 2015 07:28:00 GMT";

fn wait(header: &str, unix_secs: u64) -> u128 {
    retry_after(
        &Some(header.to_string()),
        Duration::from_secs(unix_secs),
        Duration::from_secs(30),
    )
    .as_millis()
}

#[test]
fn seconds_are_taken_as_they_are() {
    assert_eq!(wait("60", 0), 60_000);
    assert_eq!(wait(" 120 ", 0), 120_000);
    assert_eq!(wait("+5", 0), 5_000);
    assert_eq!(wait("0", 0), 0);
}

#[test]
fn dates_are_counted_from_now() {
    assert_eq!(wait(EXAMPLE, 1_445_412_480 - 90), 90_000);
    // Fractions of a second count.
    let now = Duration::from_millis(1_445_412_479_250);
    let left = retry_after(&Some(EXAMPLE.to_string()), now, Duration::from_secs(30));
    assert_eq!(left.as_millis(), 750);
    // The date has passed.
    assert_eq!(wait(EXAMPLE, 1_445_412_480), 0);
    assert_eq!(wait(EXAMPLE, 2_000_000_000), 0);
    assert_eq!(wait("Sun, 01 Jan 1950 00:00:00 GMT", 0), 0);
}

#[test]
fn odd_values_are_held_at_one_hour() {
    assert_eq!(wait("3600", 0), 3_600_000);
    assert_eq!(wait("3601", 0), 3_600_000);
    assert_eq!(wait("18446744073709551615", 0), 3_600_000);
    assert_eq!(wait(EXAMPLE, 0), 3_600_000);
}

#[test]
fn anything_else_falls_back() {
    for bad in [
        "",
        "soon",
        "-1",
        "1.5",
        "18446744073709551616",
        "Wed, 21 Oct 2015 07:28:00",
        "Wed, 21 Oct 2015 07:28:00 UTC",
        "wed, 21 Oct 2015 07:28:00 GMT",
        "Wed, 31 Feb 2015 07:28:00 GMT",
        "Wed, 00 Oct 2015 07:28:00 GMT",
        "Wed, 21 Oct 2015 24:00:00 GMT",
        "Wed, 21 Oct 2015 07:60:00 GMT",
        "Wed, 21 Oct 2015 07:28:61 GMT",
        "Wednesday, 21-Oct-15 07:28:00 GMT",
        "Wed Oct 21 07:28:00 2015",
    ] {
        assert_eq!(wait(bad, 1_445_412_400), 30_000, "{bad}");
    }
    let none = retry_after(&None, Duration::from_secs(0), Duration::from_secs(7_200));
    // The fallback is the caller's own and is not held back.
    assert_eq!(none.as_millis(), 7_200_000);
}

#[test]
fn dates_have_their_parts() {
    let date = parse_http_date(EXAMPLE).unwrap();
    assert_eq!(
        date,
        HttpDate {
            weekday: 2,
            day: 21,
            month: 10,
            year: 2015,
            hour: 7,
            minute: 28,
            second: 0
        }
    );
    assert_eq!(date.to_unix_seconds(), 1_445_412_480);
}

#[test]
fn calendar_is_the_gregorian_one() {
    let secs = |text: &str| parse_http_date(text).unwrap().to_unix_seconds();
    assert_eq!(secs("Thu, 01 Jan 1970 00:00:00 GMT"), 0);
    assert_eq!(secs("Wed, 31 Dec 1969 23:59:59 GMT"), -1);
    assert_eq!(secs("Sun, 06 Nov 1994 08:49:37 GMT"), 784_111_777);
    assert_eq!(secs("Tue, 29 Feb 2000 12:00:00 GMT"), 951_825_600);
    assert_eq!(secs("Fri, 31 Dec 9999 23:59:59 GMT"), 253_402_300_799);
    assert!(parse_http_date("Thu, 29 Feb 1900 12:00:00 GMT").is_none());
    assert!(parse_http_date("Thu, 29 Feb 2023 12:00:00 GMT").is_none());
    // A leap second is the first second of the next minute.
    assert_eq!(
        secs("Sat, 31 Dec 2016 23:59:60 GMT"),
        secs("Sun, 01 Jan 2017 00:00:00 GMT")
    );
}

#[test]
fn every_month_and_day_name_is_known() {
    for (i, name) in [
        "Jan", "Feb", "Mar", "Apr", "May", "Jun", "Jul", "Aug", "Sep", "Oct", "Nov", "Dec",
    ]
    .iter()
    .enumerate()
    {
        let date = parse_http_date(&format!("Mon, 01 {name} 2024 00:00:00 GMT")).unwrap();
        assert_eq!(date.month as usize, i + 1);
    }
    for (i, name) in ["Mon", "Tue", "Wed", "Thu", "Fri", "Sat", "Sun"].iter().enumerate() {
        let date = parse_http_date(&format!("{name}, 01 Jan 2024 00:00:00 GMT")).unwrap();
        assert_eq!(date.weekday as usize, i);
    }
}
