use termviai::preferences::{
    check_keepalive, parse_keepalive, stored_keepalive, PreferenceError, DEFAULT_SSH_KEEPALIVE_INTERVAL,
    MAX_SSH_KEEPALIVE_INTERVAL,
};

#[test]
fn keepalive_defaults_to_thirty_seconds_and_accepts_disabled() {
    assert_eq!(stored_keepalive(None), DEFAULT_SSH_KEEPALIVE_INTERVAL);
    assert!(DEFAULT_SSH_KEEPALIVE_INTERVAL <= MAX_SSH_KEEPALIVE_INTERVAL);
}

#[test]
fn stored_intervals_outside_a_day_fall_back_to_the_default() {
    assert_eq!(stored_keepalive(Some(0)), 0);
    assert_eq!(stored_keepalive(Some(86_400)), 86_400);
    assert_eq!(stored_keepalive(Some(86_401)), 30);
}

#[test]
fn typed_intervals_are_whole_seconds_within_a_day() {
    assert_eq!(parse_keepalive(" 45 "), Ok(45));
    assert_eq!(parse_keepalive("+0"), Ok(0));
    assert_eq!(parse_keepalive("18446744073709551615"), Ok(u64::MAX));
    assert_eq!(parse_keepalive("18446744073709551616"), Err(PreferenceError::KeepaliveNotNumber));
    assert_eq!(parse_keepalive("4.5"), Err(PreferenceError::KeepaliveNotNumber));
    assert_eq!(parse_keepalive(""), Err(PreferenceError::KeepaliveNotNumber));
    assert_eq!(check_keepalive(86_400), Ok(()));
    assert_eq!(check_keepalive(86_401), Err(PreferenceError::KeepaliveOutOfRange));
    assert_eq!(
        PreferenceError::KeepaliveOutOfRange.message(),
        "SSH keepalive interval must be between 0 and 86400 seconds."
    );
}

#[test]
fn an_unreadable_settings_file_gives_the_default_keepalive() {
    assert_eq!(termviai::preferences::loaded_keepalive(None), 30);
    assert_eq!(termviai::preferences::loaded_keepalive(Some(None)), 30);
    assert_eq!(termviai::preferences::loaded_keepalive(Some(Some(45))), 45);
    assert_eq!(termviai::preferences::loaded_keepalive(Some(Some(0))), 0);
    assert_eq!(termviai::preferences::loaded_keepalive(Some(Some(86_401))), 30);
}
