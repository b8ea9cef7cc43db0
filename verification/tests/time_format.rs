use oclock::render::format_time_interval;

#[test]
fn it_works() {}

#[test]
fn server_test_time_format() {
    assert_eq!(format_time_interval(&0), "00:00:00");
    assert_eq!(format_time_interval(&1), "00:00:01");
    assert_eq!(format_time_interval(&60), "00:01:00");
    assert_eq!(format_time_interval(&3600), "01:00:00");

    assert_eq!(format_time_interval(&45296), "12:34:56");
}

#[test]
fn handler_test_time_format() {
    assert_eq!(format_time_interval(&0), "00:00:00");
    assert_eq!(format_time_interval(&1), "00:00:01");
    assert_eq!(format_time_interval(&60), "00:01:00");
    assert_eq!(format_time_interval(&3600), "01:00:00");

    assert_eq!(format_time_interval(&45296), "12:34:56");
}
