use mdev::log_filter;

#[test]
fn log_filter_follows_the_verbosity() {
    assert_eq!(log_filter(0), "info");
    assert_eq!(log_filter(1), "warn");
    assert_eq!(log_filter(2), "debug");
    assert_eq!(log_filter(255), "debug");
}
