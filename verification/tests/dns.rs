use temp_monitor::dns::build_response;

const PORTAL_IP: [u8; 4] = [192, 168, 71, 1];

/// A standard A query for `apple.com` with transaction ID 0xBEEF.
fn apple_query() -> Vec<u8> {
    let mut q = vec![0xBE, 0xEF, 0x01, 0x00, 0x00, 0x01, 0x00, 0x00, 0x00, 0x00, 0x00, 0x00];
    q.extend_from_slice(&[5, b'a', b'p', b'p', b'l', b'e', 3, b'c', b'o', b'm', 0]);
    q.extend_from_slice(&[0x00, 0x01, 0x00, 0x01]);
    q
}

#[test]
fn answers_a_query_with_the_portal_address() {
    let q = apple_query();
    let r = build_response(&q, PORTAL_IP).expect("well-formed query");
    let mut expected = vec![0xBE, 0xEF, 0x85, 0x80, 0x00, 0x01, 0x00, 0x01, 0x00, 0x00, 0x00, 0x00];
    expected.extend_from_slice(&q[12..]);
    expected.extend_from_slice(&[0xC0, 0x0C, 0x00, 0x01, 0x00, 0x01, 0x00, 0x00, 0x00, 0x3C, 0x00, 0x04]);
    expected.extend_from_slice(&PORTAL_IP);
    assert_eq!(r, expected);
    assert_eq!(r.len(), q.len() + 16);
}

#[test]
fn reply_echoes_id_and_ends_with_address() {
    let mut q = apple_query();
    q[0] = 0x12;
    q[1] = 0x34;
    let r = build_response(&q, [10, 0, 0, 7]).unwrap();
    assert_eq!(&r[..2], &[0x12, 0x34]);
    assert_eq!(&r[r.len() - 4..], &[10, 0, 0, 7]);
}

#[test]
fn reply_question_parses_like_the_query() {
    let q = apple_query();
    let r = build_response(&q, PORTAL_IP).unwrap();
    // The reply's own question section is found at the same place.
    let again = build_response(&r, PORTAL_IP).unwrap();
    assert_eq!(&again[12..again.len() - 16], &q[12..]);
}

#[test]
fn non_a_queries_get_the_same_answer() {
    let mut q = apple_query();
    let n = q.len();
    q[n - 3] = 0x1C; // AAAA
    let r = build_response(&q, PORTAL_IP).unwrap();
    assert_eq!(&r[12..n], &q[12..]);
    assert_eq!(&r[r.len() - 4..], &PORTAL_IP);
}

#[test]
fn short_packet_is_ignored() {
    let q = apple_query();
    assert_eq!(build_response(&q[..16], PORTAL_IP), None);
    assert_eq!(build_response(&[], PORTAL_IP), None);
}

#[test]
fn shortest_query_is_answered() {
    let mut q = vec![0u8; 12];
    q.extend_from_slice(&[0, 0, 1, 0, 1]);
    let r = build_response(&q, PORTAL_IP).unwrap();
    assert_eq!(r.len(), 17 + 16);
}

#[test]
fn label_running_past_the_end_is_ignored() {
    let mut q = vec![0u8; 12];
    q.extend_from_slice(&[30, b'a', b'b', b'c', b'd', 0, 0, 1, 0, 1]);
    assert_eq!(build_response(&q, PORTAL_IP), None);
}

#[test]
fn missing_type_and_class_is_ignored() {
    let mut q = vec![0u8; 12];
    q.extend_from_slice(&[3, b'a', b'b', b'c', 0, 0, 1, 0]);
    assert_eq!(build_response(&q, PORTAL_IP), None);
}

#[test]
fn unterminated_name_is_ignored() {
    let mut q = vec![0u8; 12];
    q.extend_from_slice(&[1, b'a', 1, b'b', 1, b'c']);
    assert_eq!(build_response(&q, PORTAL_IP), None);
}
