use stories::time::{day_of_timestamp, local_offset_seconds, parse_rfc3339_timestamp};

#[test]
fn rfc3339_parses_to_the_epoch_second() {
    assert_eq!(parse_rfc3339_timestamp("2024-01-02T10:00:00Z"), Some(1704189600));
    assert_eq!(parse_rfc3339_timestamp("1970-01-01T00:00:00Z"), Some(0));
    assert_eq!(parse_rfc3339_timestamp("2024-01-02T10:00:00+01:00"), Some(1704186000));
}

#[test]
fn malformed_texts_do_not_parse() {
    assert_eq!(parse_rfc3339_timestamp("yesterday around noon"), None);
    assert_eq!(parse_rfc3339_timestamp("2024-01-02"), None);
    assert_eq!(parse_rfc3339_timestamp(""), None);
}

#[test]
fn days_count_from_the_epoch() {
    assert_eq!(day_of_timestamp(0, 0), 0);
    assert_eq!(day_of_timestamp(1704189600, 0), 19724);
    assert_eq!(day_of_timestamp(-1, 0), -1);
    assert_eq!(day_of_timestamp(86399, 3600), 1);
}

#[test]
fn the_local_offset_is_a_sane_number_of_seconds() {
    let off = local_offset_seconds(1704189600);
    assert!(-86400 < off && off < 86400);
}
