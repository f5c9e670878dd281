use temp_monitor::api::{ApiClient, ApiError};

#[test]
fn client_keeps_its_base_url() {
    let c = ApiClient::new("https://webhook.site/abc");
    assert_eq!(c.base_url(), "https://webhook.site/abc");
}

#[test]
fn posting_is_not_implemented_yet() {
    let c = ApiClient::new("https://example.invalid");
    assert_eq!(c.post_reading(&42.5f32), Err(ApiError::NotImplemented));
}
