use temp_monitor::sensor::{is_ds18b20_address, BusScan, ScanAction, ScanEvent};

const PROBE_A: u64 = 0x8A00_0011_25DC_9D28;
const PROBE_B: u64 = 0x1200_0000_0000_0128;
const OTHER: u64 = 0x0500_0000_0000_0010;

#[test]
fn family_code_is_the_low_byte() {
    assert!(is_ds18b20_address(PROBE_A));
    assert!(is_ds18b20_address(0x28));
    assert!(!is_ds18b20_address(OTHER));
    assert!(!is_ds18b20_address(0x2800));
}

#[test]
fn scan_reads_every_ds18b20_and_skips_others() {
    let mut scan = BusScan::new();
    assert_eq!(scan.step(ScanEvent::ConversionStarted), ScanAction::WaitForMeasurement);
    assert_eq!(scan.step(ScanEvent::MeasurementTimeElapsed), ScanAction::SearchNext);
    assert_eq!(scan.step(ScanEvent::DeviceFound(PROBE_A)), ScanAction::ReadDevice(PROBE_A));
    assert_eq!(scan.step(ScanEvent::DeviceRead), ScanAction::SearchNext);
    assert_eq!(scan.step(ScanEvent::DeviceFound(OTHER)), ScanAction::SearchNext);
    assert_eq!(scan.step(ScanEvent::DeviceFound(PROBE_B)), ScanAction::ReadDevice(PROBE_B));
    assert_eq!(scan.step(ScanEvent::DeviceRead), ScanAction::SearchNext);
    assert_eq!(scan.step(ScanEvent::SearchExhausted), ScanAction::Finish);
    assert_eq!(scan.addresses_read(), &vec![PROBE_A, PROBE_B]);
}

#[test]
fn empty_bus_finishes_with_nothing() {
    let mut scan = BusScan::new();
    scan.step(ScanEvent::ConversionStarted);
    scan.step(ScanEvent::MeasurementTimeElapsed);
    assert_eq!(scan.step(ScanEvent::SearchExhausted), ScanAction::Finish);
    assert!(scan.addresses_read().is_empty());
}

#[test]
fn bus_errors_abort() {
    let mut scan = BusScan::new();
    assert_eq!(scan.step(ScanEvent::BusError), ScanAction::Abort);

    let mut scan = BusScan::new();
    scan.step(ScanEvent::ConversionStarted);
    scan.step(ScanEvent::MeasurementTimeElapsed);
    scan.step(ScanEvent::DeviceFound(PROBE_A));
    assert_eq!(scan.step(ScanEvent::BusError), ScanAction::Abort);
    assert!(scan.addresses_read().is_empty());
}
