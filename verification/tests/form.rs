use temp_monitor::form::{
    body_capacity, parse_form, parse_save_body, url_decode, FormError, MAX_BODY_LEN,
};

#[test]
fn plus_becomes_space() {
    assert_eq!(url_decode("my+home+net"), "my home net");
}

#[test]
fn percent_escapes_are_decoded() {
    assert_eq!(url_decode("a%20b%21"), "a b!");
    assert_eq!(url_decode("%41%62"), "Ab");
    assert_eq!(url_decode("%2B"), "+");
}

#[test]
fn bad_escape_keeps_the_percent() {
    assert_eq!(url_decode("%zz"), "%zz");
    assert_eq!(url_decode("100%"), "100%");
    assert_eq!(url_decode("%4"), "%4");
    assert_eq!(url_decode("ab%4"), "ab%4");
}

#[test]
fn a_sign_is_no_hex_digit() {
    assert_eq!(url_decode("%+1"), "% 1");
    assert_eq!(url_decode("%+a"), "% a");
    assert_eq!(url_decode("%1+"), "%1 ");
}

#[test]
fn decoded_bytes_read_as_utf8() {
    assert_eq!(url_decode("caf%C3%A9"), "caf\u{e9}");
    assert_eq!(url_decode("caf%c3%a9"), "caf\u{e9}");
    assert_eq!(url_decode("%E2%82%AC+5"), "\u{20ac} 5");
}

#[test]
fn unescaped_characters_stay_as_they_are() {
    assert_eq!(url_decode("\u{e9}"), "\u{e9}");
    assert_eq!(url_decode("Caf\u{e9} \u{1f30a}"), "Caf\u{e9} \u{1f30a}");
    assert_eq!(url_decode("%a\u{e9}"), "%a\u{e9}");
}

#[test]
fn invalid_utf8_becomes_replacement_characters() {
    assert_eq!(url_decode("%FF"), "\u{fffd}");
    assert_eq!(url_decode("a%C3"), "a\u{fffd}");
    assert_eq!(url_decode("%C3%A9%FFz"), "\u{e9}\u{fffd}z");
}

#[test]
fn plain_text_is_unchanged() {
    assert_eq!(url_decode("PoolNet-5G_x.y"), "PoolNet-5G_x.y");
    assert_eq!(url_decode(""), "");
}

#[test]
fn form_with_both_fields() {
    let (ssid, pw) = parse_form("ssid=Home+Net&password=s3cr%21t").unwrap();
    assert_eq!(ssid, "Home Net");
    assert_eq!(pw, "s3cr!t");
}

#[test]
fn form_without_password() {
    let (ssid, pw) = parse_form("ssid=Home").unwrap();
    assert_eq!(ssid, "Home");
    assert_eq!(pw, "");
}

#[test]
fn form_field_order_does_not_matter() {
    let (ssid, pw) = parse_form("password=pw&ssid=Home").unwrap();
    assert_eq!(ssid, "Home");
    assert_eq!(pw, "pw");
}

#[test]
fn last_field_wins() {
    let (ssid, pw) = parse_form("ssid=a&password=1&ssid=b&password=2").unwrap();
    assert_eq!(ssid, "b");
    assert_eq!(pw, "2");
}

#[test]
fn unknown_fields_are_ignored() {
    let (ssid, pw) = parse_form("x=1&ssid=Home&submit&password=p=q").unwrap();
    assert_eq!(ssid, "Home");
    assert_eq!(pw, "p=q");
}

#[test]
fn missing_ssid_is_refused() {
    assert_eq!(parse_form("password=x"), Err(FormError::MissingSsid));
    assert_eq!(parse_form(""), Err(FormError::MissingSsid));
    assert_eq!(parse_form("SSID=Home"), Err(FormError::MissingSsid));
}

#[test]
fn empty_ssid_is_refused() {
    assert_eq!(parse_form("ssid=&password=x"), Err(FormError::EmptySsid));
    assert_eq!(parse_form("ssid"), Err(FormError::EmptySsid));
    assert_eq!(parse_form("ssid=a&ssid="), Err(FormError::EmptySsid));
}

#[test]
fn save_body_must_be_utf8() {
    assert_eq!(parse_save_body(&[b's', 0xFF, b'=']), Err(FormError::InvalidUtf8));
    let (ssid, pw) = parse_save_body(b"ssid=Pool&password=abc").unwrap();
    assert_eq!((ssid.as_str(), pw.as_str()), ("Pool", "abc"));
    assert_eq!(parse_save_body(b"password=abc"), Err(FormError::MissingSsid));
}

#[test]
fn body_capacity_follows_content_length() {
    assert_eq!(body_capacity(None), 0);
    assert_eq!(body_capacity(Some("42")), 42);
    assert_eq!(body_capacity(Some("+7")), 7);
    assert_eq!(body_capacity(Some("1024")), 1024);
    assert_eq!(body_capacity(Some("5000")), MAX_BODY_LEN);
}

#[test]
fn body_capacity_of_unreadable_header_is_zero() {
    assert_eq!(body_capacity(Some("")), 0);
    assert_eq!(body_capacity(Some("+")), 0);
    assert_eq!(body_capacity(Some("-3")), 0);
    assert_eq!(body_capacity(Some(" 12")), 0);
    assert_eq!(body_capacity(Some("12a")), 0);
    assert_eq!(body_capacity(Some("99999999999999999999999999")), 0);
}

/// Form encoding as a browser does it: a space as `+`, letters, digits and
/// `*-._` as they are, every other UTF-8 byte as `%XY`.
fn form_encode(s: &str) -> String {
    s.bytes()
        .map(|b| match b {
            b' ' => "+".to_string(),
            b'a'..=b'z' | b'A'..=b'Z' | b'0'..=b'9' | b'*' | b'-' | b'.' | b'_' => {
                (b as char).to_string()
            }
            _ => format!("%{:02X}", b),
        })
        .collect()
}

#[test]
fn form_encoded_text_decodes_back() {
    for t in ["", "plain", "My Wi-Fi & co", "p@ss=word+1%", "Caf\u{e9} \u{20ac}\u{1f30a}"] {
        assert_eq!(url_decode(&form_encode(t)), t);
    }
}

#[test]
fn submitted_form_reads_back_as_typed() {
    let body = format!(
        "ssid={}&password={}",
        form_encode("Caf\u{e9} & Co"),
        form_encode("p@ss=w\u{f6}rd+1")
    );
    let (ssid, pw) = parse_form(&body).unwrap();
    assert_eq!(ssid, "Caf\u{e9} & Co");
    assert_eq!(pw, "p@ss=w\u{f6}rd+1");
    let body = format!("ssid={}&password={}", form_encode(""), form_encode("x"));
    assert_eq!(parse_form(&body), Err(FormError::EmptySsid));
}
