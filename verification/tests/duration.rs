use azure_pim_cli::duration::DurationError;
use azure_pim_cli::format_duration;

#[test]
fn test_format_duration() {
    assert!(format_duration(0).is_err());

    for (secs, parsed) in [
        (1, "PT1S"),
        (60, "PT1M"),
        (61, "PT1M1S"),
        (3600, "PT1H"),
        (86400, "PT24H"),
        (86401, "PT24H1S"),
        (86460, "PT24H1M"),
        (86520, "PT24H2M"),
        (90061, "PT25H1M1S"),
    ] {
        assert_eq!(format_duration(secs).unwrap(), parsed);
    }
}

#[test]
fn duration_of_an_hour_a_minute_and_a_second() {
    assert_eq!(format_duration(3661).unwrap(), "PT1H1M1S");
}

#[test]
fn duration_of_zero_is_refused() {
    assert_eq!(format_duration(0), Err(DurationError::Empty));
    assert_eq!(DurationError::Empty.message(), "duration must be at least 1 second");
}

#[test]
fn duration_at_the_largest_count() {
    assert_eq!(format_duration(u64::MAX).unwrap(), "PT5124095576030431H15S");
}
