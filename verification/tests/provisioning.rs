use temp_monitor::credentials::Credentials;
use temp_monitor::provisioning::{boot_step, BootAction, BootEvent, BootStep};

fn creds() -> Credentials {
    Credentials { ssid: "Home".to_string(), password: "pw".to_string() }
}

#[test]
fn saved_credentials_connect_as_station() {
    let (s, a) = boot_step(BootStep::LoadingCredentials, BootEvent::CredentialsLoaded(Some(creds())));
    assert_eq!(s, BootStep::ConnectingStation);
    match a {
        BootAction::ConnectStation(c) => {
            assert_eq!(c.ssid, "Home");
            assert_eq!(c.password, "pw");
        }
        _ => panic!("expected a station connect"),
    }
    let (s, a) = boot_step(s, BootEvent::StationConnected);
    assert_eq!(s, BootStep::Station);
    assert!(matches!(a, BootAction::RunStation));
}

#[test]
fn no_credentials_start_the_portal() {
    let (s, a) = boot_step(BootStep::LoadingCredentials, BootEvent::CredentialsLoaded(None));
    assert_eq!(s, BootStep::StartingAccessPoint);
    assert!(matches!(a, BootAction::StartAccessPoint));
    let (s, a) = boot_step(s, BootEvent::AccessPointStarted);
    assert_eq!(s, BootStep::StartingDns);
    assert!(matches!(a, BootAction::StartDns));
    let (s, a) = boot_step(s, BootEvent::DnsStarted);
    assert_eq!(s, BootStep::StartingHttp);
    assert!(matches!(a, BootAction::StartHttp));
    let (s, a) = boot_step(s, BootEvent::HttpStarted);
    assert_eq!(s, BootStep::Provisioning);
    assert!(matches!(a, BootAction::RunProvisioning));
}

#[test]
fn failed_station_wipes_credentials_then_starts_the_portal() {
    let (s, _) = boot_step(BootStep::LoadingCredentials, BootEvent::CredentialsLoaded(Some(creds())));
    let (s, a) = boot_step(s, BootEvent::StationFailed);
    assert_eq!(s, BootStep::ClearingCredentials);
    assert!(matches!(a, BootAction::ClearCredentials));
    let (s, a) = boot_step(s, BootEvent::CredentialsCleared);
    assert_eq!(s, BootStep::StartingAccessPoint);
    assert!(matches!(a, BootAction::StartAccessPoint));
}

#[test]
fn unreadable_store_starts_the_portal() {
    let (s, a) = boot_step(BootStep::LoadingCredentials, BootEvent::LoadFailed);
    assert_eq!(s, BootStep::StartingAccessPoint);
    assert!(matches!(a, BootAction::StartAccessPoint));
}

#[test]
fn failures_end_the_sequence() {
    for (step, event) in [
        (BootStep::StartingAccessPoint, BootEvent::AccessPointFailed),
        (BootStep::StartingDns, BootEvent::DnsFailed),
        (BootStep::StartingHttp, BootEvent::HttpFailed),
    ] {
        let (s, a) = boot_step(step, event);
        assert_eq!(s, BootStep::Failed);
        assert!(matches!(a, BootAction::Fail));
    }
}
