use protontweaks::appid::extract;

#[test]
fn extract_finds_the_identifier() {
    assert_eq!(
        extract("reaper SteamLaunch AppId=644930 -- game.exe"),
        Some("644930".to_string())
    );
}

#[test]
fn extract_finds_nothing_in_a_plain_command() {
    assert_eq!(extract("echo hello"), None);
}

#[test]
fn extract_takes_the_first_of_several() {
    assert_eq!(extract("AppId=1 AppId=2"), Some("1".to_string()));
}

#[test]
fn extract_skips_a_marker_without_digits() {
    assert_eq!(extract("AppId=x AppId=7"), Some("7".to_string()));
}

#[test]
fn extract_stops_at_the_first_non_digit() {
    assert_eq!(extract("cmd AppId=123abc"), Some("123".to_string()));
}

#[test]
fn extract_works_mid_token() {
    assert_eq!(extract("wrapperAppId=99wrapper"), Some("99".to_string()));
}

#[test]
fn extract_needs_the_exact_marker() {
    assert_eq!(extract("appid=644930"), None);
    assert_eq!(extract("AppId644930"), None);
}
