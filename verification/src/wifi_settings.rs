//! Radio settings for the two Wi-Fi modes.
//!
//! Provisioning runs an open access point named `PoolMon-XXXX`, where `XXXX`
//! is the last two bytes of the access point's MAC address in upper-case
//! hex. Station mode joins the saved network with WPA2-Personal. Network
//! names hold at most 32 bytes of UTF-8 and passwords at most 64.

use vstd::prelude::*;
use vstd::string::StringSliceAdditionalSpecFns;
use vstd::utf8::{encode_utf8, is_ascii_chars, is_ascii_chars_encode_utf8};

use crate::credentials::Credentials;
use crate::text::push_char;

verus! {

/// Address of the device on its own access point's network.
pub const AP_IP: [u8; 4] = [192, 168, 71, 1];

/// Longest network name, in bytes.
pub const MAX_SSID_LEN: usize = 32;

/// Longest password, in bytes.
pub const MAX_PASSWORD_LEN: usize = 64;

/// Radio channel of the provisioning access point.
pub const AP_CHANNEL: u8 = 1;

/// Most clients the provisioning access point admits at once.
pub const AP_MAX_CONNECTIONS: u16 = 4;

/// How a network authenticates its clients.
#[derive(Debug, Clone, Copy, PartialEq, Eq)]
pub enum AuthMethod {
    /// No password: anyone in range may join.
    Open,
    /// WPA2 with a pre-shared key.
    Wpa2Personal,
}

/// Why settings could not be built.
#[derive(Debug, Clone, Copy, PartialEq, Eq)]
pub enum SettingsError {
    /// The network name is longer than `MAX_SSID_LEN` bytes.
    SsidTooLong,
    /// The password is longer than `MAX_PASSWORD_LEN` bytes.
    PasswordTooLong,
}

/// Settings of the provisioning access point.
pub struct AccessPointSettings {
    pub ssid: String,
    pub auth_method: AuthMethod,
    pub ssid_hidden: bool,
    pub channel: u8,
    pub max_connections: u16,
}

/// Settings for joining a network as a client.
pub struct StationSettings {
    pub ssid: String,
    pub password: String,
    pub auth_method: AuthMethod,
}

/// Length in bytes of the UTF-8 encoding of `s`.
pub open spec fn utf8_len(s: Seq<char>) -> nat {
    encode_utf8(s).len()
}

/// Upper-case hexadecimal digit for `n` (below 16).
pub open spec fn hex_upper(n: u8) -> char {
    if n < 10 {
        (48 + n) as char
    } else {
        (55 + n) as char
    }
}

/// The two upper-case hex digits of a byte.
pub open spec fn hex_byte(b: u8) -> Seq<char> {
    seq![hex_upper(b / 16), hex_upper(b % 16)]
}

/// The fixed start of the access point's name.
pub open spec fn ssid_prefix() -> Seq<char> {
    seq!['P', 'o', 'o', 'l', 'M', 'o', 'n', '-']
}

/// The access point's name for the MAC address `mac`: `PoolMon-` and the
/// hex digits of its last two bytes.
pub open spec fn ap_ssid_for(mac: Seq<u8>) -> Seq<char> {
    ssid_prefix() + hex_byte(mac[4]) + hex_byte(mac[5])
}

fn hex_upper_exec(n: u8) -> (c: char)
    requires
        n < 16,
    ensures
        c == hex_upper(n),
{
    if n < 10 {
        ((48 + n) as u8) as char
    } else {
        ((55 + n) as u8) as char
    }
}

/// The access point's name, `PoolMon-XXXX`, where `XXXX` is the last two
/// bytes of the MAC address in upper-case hex.
pub fn ap_ssid(mac: [u8; 6]) -> (ssid: String)
    ensures
        ssid@ == ap_ssid_for(mac@),
{
    let prefix: [char; 8] = ['P', 'o', 'o', 'l', 'M', 'o', 'n', '-'];
    let mut ssid = String::new();
    let mut k: usize = 0;
    while k < 8
        invariant
            k <= 8,
            prefix@ == ssid_prefix(),
            ssid@ == ssid_prefix().subrange(0, k as int),
        decreases 8 - k,
    {
        push_char(&mut ssid, prefix[k]);
        k = k + 1;
        assert(ssid@ =~= ssid_prefix().subrange(0, k as int));
    }
    push_char(&mut ssid, hex_upper_exec(mac[4] / 16));
    push_char(&mut ssid, hex_upper_exec(mac[4] % 16));
    push_char(&mut ssid, hex_upper_exec(mac[5] / 16));
    push_char(&mut ssid, hex_upper_exec(mac[5] % 16));
    assert(ssid@ =~= ap_ssid_for(mac@));
    ssid
}

/// Settings of the provisioning access point named `ssid`: open, visible,
/// on channel `AP_CHANNEL`, for at most `AP_MAX_CONNECTIONS` clients.
pub fn access_point_settings(ssid: String) -> (res: Result<AccessPointSettings, SettingsError>)
    requires
        utf8_len(ssid@) <= usize::MAX,
    ensures
        utf8_len(ssid@) > MAX_SSID_LEN ==> res matches Err(SettingsError::SsidTooLong),
        utf8_len(ssid@) <= MAX_SSID_LEN ==> (res matches Ok(s) && s.ssid == ssid && s.auth_method
            == AuthMethod::Open && !s.ssid_hidden && s.channel == AP_CHANNEL && s.max_connections
            == AP_MAX_CONNECTIONS),
{
    if ssid.as_str().len() > MAX_SSID_LEN {
        return Err(SettingsError::SsidTooLong);
    }
    Ok(
        AccessPointSettings {
            ssid,
            auth_method: AuthMethod::Open,
            ssid_hidden: false,
            channel: AP_CHANNEL,
            max_connections: AP_MAX_CONNECTIONS,
        },
    )
}

/// Settings for joining the saved network with WPA2-Personal. The name is
/// checked first, then the password.
pub fn station_settings(creds: &Credentials) -> (res: Result<StationSettings, SettingsError>)
    requires
        utf8_len(creds.ssid@) <= usize::MAX,
        utf8_len(creds.password@) <= usize::MAX,
    ensures
        utf8_len(creds.ssid@) > MAX_SSID_LEN ==> res matches Err(SettingsError::SsidTooLong),
        utf8_len(creds.ssid@) <= MAX_SSID_LEN && utf8_len(creds.password@) > MAX_PASSWORD_LEN
            ==> res matches Err(SettingsError::PasswordTooLong),
        utf8_len(creds.ssid@) <= MAX_SSID_LEN && utf8_len(creds.password@) <= MAX_PASSWORD_LEN
            ==> (res matches Ok(s) && s.ssid@ == creds.ssid@ && s.password@ == creds.password@
            && s.auth_method == AuthMethod::Wpa2Personal),
{
    if creds.ssid.as_str().len() > MAX_SSID_LEN {
        return Err(SettingsError::SsidTooLong);
    }
    if creds.password.as_str().len() > MAX_PASSWORD_LEN {
        return Err(SettingsError::PasswordTooLong);
    }
    Ok(
        StationSettings {
            ssid: creds.ssid.clone(),
            password: creds.password.clone(),
            auth_method: AuthMethod::Wpa2Personal,
        },
    )
}

/// The number an upper-case hexadecimal digit character stands for.
pub open spec fn upper_hex_value(c: char) -> Option<int> {
    if '0' <= c <= '9' {
        Some(c as int - '0' as int)
    } else if 'A' <= c <= 'F' {
        Some(c as int - 'A' as int + 10)
    } else {
        None
    }
}

/// Each nibble is written as the upper-case hex digit that stands for it:
/// `0`–`9` for 0 to 9 and `A`–`F` for 10 to 15.
pub proof fn lemma_hex_upper_digit(n: u8)
    requires
        n < 16,
    ensures
        upper_hex_value(hex_upper(n)) == Some(n as int),
        n < 10 ==> '0' <= hex_upper(n) <= '9',
        10 <= n ==> 'A' <= hex_upper(n) <= 'F',
{
}

/// The access point's name is `PoolMon-` followed by four upper-case hex
/// digits that read back as the MAC address's last two bytes, high nibble
/// first.
pub proof fn lemma_ap_ssid_reads_back(mac: Seq<u8>)
    requires
        mac.len() == 6,
    ensures
        ({
            let s = ap_ssid_for(mac);
            &&& s.len() == 12
            &&& s.subrange(0, 8) == seq!['P', 'o', 'o', 'l', 'M', 'o', 'n', '-']
            &&& upper_hex_value(s[8]) matches Some(h4) && upper_hex_value(s[9]) matches Some(l4)
                && h4 * 16 + l4 == mac[4] as int
            &&& upper_hex_value(s[10]) matches Some(h5) && upper_hex_value(s[11]) matches Some(l5)
                && h5 * 16 + l5 == mac[5] as int
        }),
{
    let s = ap_ssid_for(mac);
    lemma_hex_upper_digit(mac[4] / 16);
    lemma_hex_upper_digit(mac[4] % 16);
    lemma_hex_upper_digit(mac[5] / 16);
    lemma_hex_upper_digit(mac[5] % 16);
    assert(s[8] == hex_upper(mac[4] / 16));
    assert(s[9] == hex_upper(mac[4] % 16));
    assert(s[10] == hex_upper(mac[5] / 16));
    assert(s[11] == hex_upper(mac[5] % 16));
    assert(s.subrange(0, 8) =~= seq!['P', 'o', 'o', 'l', 'M', 'o', 'n', '-']);
}

/// Every access point name derived from a MAC address is twelve ASCII
/// characters, so it always fits the network-name limit.
pub proof fn lemma_ap_ssid_fits(mac: Seq<u8>)
    requires
        mac.len() == 6,
    ensures
        ap_ssid_for(mac).len() == 12,
        is_ascii_chars(ap_ssid_for(mac)),
        utf8_len(ap_ssid_for(mac)) == 12,
        utf8_len(ap_ssid_for(mac)) <= MAX_SSID_LEN,
{
    let s = ap_ssid_for(mac);
    assert(is_ascii_chars(s)) by {
        assert forall|i| 0 <= i < s.len() implies '\0' <= #[trigger] s[i] <= '\u{7f}' by {
            if i >= 8 {
                let b = if i < 10 { mac[4] } else { mac[5] };
                assert(s[i] == hex_upper(b / 16) || s[i] == hex_upper(b % 16));
            }
        }
    }
    is_ascii_chars_encode_utf8(s);
}

} // verus!
