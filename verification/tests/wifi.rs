use temp_monitor::credentials::{Credentials, KEY_PW, KEY_SSID, NAMESPACE};
use temp_monitor::wifi_settings::{
    access_point_settings, ap_ssid, station_settings, AuthMethod, SettingsError, AP_CHANNEL,
    AP_IP, AP_MAX_CONNECTIONS,
};

#[test]
fn ap_name_uses_last_two_mac_bytes() {
    assert_eq!(ap_ssid([0x24, 0x6F, 0x28, 0x01, 0xAB, 0x12]), "PoolMon-AB12");
    assert_eq!(ap_ssid([0, 0, 0, 0, 0x00, 0x0F]), "PoolMon-000F");
    assert_eq!(ap_ssid([9, 9, 9, 9, 0xFF, 0xA0]), "PoolMon-FFA0");
}

#[test]
fn access_point_is_open_and_visible() {
    let s = access_point_settings(ap_ssid([1, 2, 3, 4, 5, 6])).unwrap();
    assert_eq!(s.ssid, "PoolMon-0506");
    assert_eq!(s.auth_method, AuthMethod::Open);
    assert!(!s.ssid_hidden);
    assert_eq!(s.channel, 1);
    assert_eq!(s.channel, AP_CHANNEL);
    assert_eq!(s.max_connections, 4);
    assert_eq!(s.max_connections, AP_MAX_CONNECTIONS);
    assert_eq!(AP_IP, [192, 168, 71, 1]);
}

#[test]
fn access_point_name_limit() {
    assert!(access_point_settings("a".repeat(32)).is_ok());
    assert_eq!(access_point_settings("a".repeat(33)).err(), Some(SettingsError::SsidTooLong));
    // 16 two-byte characters are 32 bytes; 17 are 34.
    assert!(access_point_settings("\u{e9}".repeat(16)).is_ok());
    assert_eq!(access_point_settings("\u{e9}".repeat(17)).err(), Some(SettingsError::SsidTooLong));
}

fn creds(ssid: &str, password: &str) -> Credentials {
    Credentials { ssid: ssid.to_string(), password: password.to_string() }
}

#[test]
fn station_uses_wpa2_with_saved_credentials() {
    let s = station_settings(&creds("Home", "secret")).unwrap();
    assert_eq!(s.ssid, "Home");
    assert_eq!(s.password, "secret");
    assert_eq!(s.auth_method, AuthMethod::Wpa2Personal);
}

#[test]
fn station_limits() {
    assert!(station_settings(&creds(&"s".repeat(32), &"p".repeat(64))).is_ok());
    assert_eq!(
        station_settings(&creds(&"s".repeat(33), "p")).err(),
        Some(SettingsError::SsidTooLong)
    );
    assert_eq!(
        station_settings(&creds("s", &"p".repeat(65))).err(),
        Some(SettingsError::PasswordTooLong)
    );
    assert_eq!(
        station_settings(&creds(&"s".repeat(40), &"p".repeat(70))).err(),
        Some(SettingsError::SsidTooLong)
    );
}

#[test]
fn stored_ssid_requires_a_non_empty_value() {
    assert_eq!(Credentials::stored_ssid(None), None);
    assert_eq!(Credentials::stored_ssid(Some("")), None);
    assert_eq!(Credentials::stored_ssid(Some("Home")), Some("Home".to_string()));
}

#[test]
fn stored_password_defaults_to_empty() {
    let c = Credentials::with_stored_password("Home".to_string(), None);
    assert_eq!(c.ssid, "Home");
    assert_eq!(c.password, "");
    let c = Credentials::with_stored_password("Home".to_string(), Some("pw"));
    assert_eq!(c.password, "pw");
}

#[test]
fn storage_keys() {
    assert_eq!(NAMESPACE, "wifi");
    assert_eq!(KEY_SSID, "ssid");
    assert_eq!(KEY_PW, "pw");
}
