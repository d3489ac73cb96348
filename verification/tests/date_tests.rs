use http_codec::date::{turn_system_time_to_http_date, http_date_to_timestamp};

#[test]
fn epoch_encodes_to_template() {
    let s = turn_system_time_to_http_date(0);
    assert_eq!(s, "Thu, 01 Jan 1970 00:00:00 GMT");
    assert_eq!(s.len(), 29);
    assert!(s.is_ascii());
}

#[test]
fn one_second_past_epoch() {
    assert_eq!(turn_system_time_to_http_date(1), "Thu, 01 Jan 1970 00:00:01 GMT");
}

#[test]
fn rfc_example_date() {
    assert_eq!(turn_system_time_to_http_date(784111777), "Sun, 06 Nov 1994 08:49:37 GMT");
}

#[test]
fn leap_day_of_a_400_year_cycle() {
    assert_eq!(turn_system_time_to_http_date(951782400), "Tue, 29 Feb 2000 00:00:00 GMT");
}

#[test]
fn last_supported_second() {
    assert_eq!(turn_system_time_to_http_date(253402300799), "Fri, 31 Dec 9999 23:59:59 GMT");
}

#[test]
fn every_encoding_is_29_ascii_chars() {
    let samples: [u64; 8] = [
        0,
        86399,
        86400,
        951782400,
        951868799,
        784111777,
        4102444800,
        253402300799,
    ];
    for &t in samples.iter() {
        let s = turn_system_time_to_http_date(t);
        assert_eq!(s.len(), 29);
        assert!(s.is_ascii());
        let b = s.as_bytes();
        assert_eq!(b[3], b',');
        assert_eq!(b[4], b' ');
        assert_eq!(&b[25..29], b" GMT");
        assert_eq!(b[19], b':');
        assert_eq!(b[22], b':');
    }
}

#[test]
fn decode_recovers_the_timestamp() {
    let samples: [u64; 9] = [
        0,
        1,
        86399,
        86400,
        951782400,
        951868799,
        784111777,
        4102444800,
        253402300799,
    ];
    for &t in samples.iter() {
        let s = turn_system_time_to_http_date(t);
        assert_eq!(http_date_to_timestamp(&s), Some(t));
    }
}

#[test]
fn decoder_does_not_check_the_weekday_name() {
    // the weekday is redundant information; the digits decide
    assert_eq!(http_date_to_timestamp("Xxx, 01 Jan 1970 00:00:00 GMT"), Some(0));
}

#[test]
fn decode_rejects_malformed_strings() {
    assert_eq!(http_date_to_timestamp(""), None);
    assert_eq!(http_date_to_timestamp("Thu, 01 Jan 1970 00:00:00 GM"), None);
    assert_eq!(http_date_to_timestamp("Thu, 01 Xyz 1970 00:00:00 GMT"), None);
    assert_eq!(http_date_to_timestamp("Thu, 0a Jan 1970 00:00:00 GMT"), None);
    assert_eq!(http_date_to_timestamp("Thu, 01 Jan 1970 25:00:00 GMT"), None);
    assert_eq!(http_date_to_timestamp("Thu; 01 Jan 1970 00:00:00 GMT"), None);
}
