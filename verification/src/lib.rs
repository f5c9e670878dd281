//! Verified core of a pool-temperature monitor's firmware.
//!
//! The firmware reads DS18B20 sensors on a 1-Wire bus and joins Wi-Fi with
//! credentials provisioned through a captive portal. This library holds the
//! decisions and data handling of those services; the hardware and network
//! plumbing that drives them lives with the firmware binary.
//!
//! - [`sensor`]: one scan of the 1-Wire bus, as a state machine.
//! - [`provisioning`]: the Wi-Fi start-up sequence, as a state machine.
//! - [`credentials`]: saved credentials and how they are read back.
//! - [`wifi_settings`]: access point and station settings.
//! - [`dns`]: the captive portal's DNS answers.
//! - [`form`]: the provisioning form and its percent-decoding.
//! - [`form_laws`]: what a submitted form reads back as.
//! - [`api`]: the backend client (not implemented yet).

mod text;

pub mod api;
pub mod credentials;
pub mod dns;
pub mod form;
pub mod form_laws;
pub mod provisioning;
pub mod sensor;
pub mod wifi_settings;
