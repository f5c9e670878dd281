//! Saved Wi-Fi credentials and how they are read back from storage.
//!
//! They live in the non-volatile key-value store under the namespace
//! `wifi`, as two text keys: `ssid` and `pw`. No encryption at rest.

use vstd::prelude::*;

verus! {

/// Storage namespace that holds the credentials.
pub const NAMESPACE: &'static str = "wifi";

/// Storage key of the network name.
pub const KEY_SSID: &'static str = "ssid";

/// Storage key of the password.
pub const KEY_PW: &'static str = "pw";

/// Size of the buffer the stored network name is read into.
pub const SSID_BUF_LEN: usize = 64;

/// Size of the buffer the stored password is read into.
pub const PW_BUF_LEN: usize = 128;

/// Plain-text Wi-Fi credentials.
pub struct Credentials {
    pub ssid: String,
    pub password: String,
}

impl Credentials {
    /// The saved network name, given what the `ssid` key reads: the device is
    /// provisioned only when the key is present and not empty.
    pub fn stored_ssid(raw: Option<&str>) -> (res: Option<String>)
        ensures
            match raw {
                Some(s) if s@.len() > 0 => res matches Some(r) && r@ == s@,
                _ => res is None,
            },
    {
        match raw {
            Some(s) => {
                if s.is_empty() {
                    None
                } else {
                    Some(s.to_owned())
                }
            },
            None => None,
        }
    }

    /// The credentials of a provisioned device, given its network name and
    /// what the `pw` key reads (an absent password is empty).
    pub fn with_stored_password(ssid: String, raw_password: Option<&str>) -> (res: Credentials)
        ensures
            res.ssid == ssid,
            res.password@ == match raw_password {
                Some(p) => p@,
                None => Seq::<char>::empty(),
            },
    {
        let password = match raw_password {
            Some(p) => p.to_owned(),
            None => String::new(),
        };
        Credentials { ssid, password }
    }
}

} // verus!
