use wmproxy_core::{
    read_short_string, write_short_string, ProtError, ProtFrameHeader, ProtToken, HEADER_LEN,
    KIND_TOKEN,
};

fn encoded(username: &str, password: &str) -> Vec<u8> {
    let mut buf = Vec::new();
    let token = ProtToken::new(username.to_string(), password.to_string());
    token.encode(&mut buf).unwrap();
    buf
}

#[test]
fn token_round_trip() {
    let buf = encoded("admin", "s3cret");
    let header = ProtFrameHeader::decode(&buf).unwrap();
    assert_eq!(header.kind, KIND_TOKEN);
    assert_eq!(header.flag, 0);
    let token = ProtToken::parse(header, &buf[HEADER_LEN..]).unwrap();
    assert_eq!(token.username(), "admin");
    assert_eq!(token.password(), "s3cret");
}

#[test]
fn token_round_trip_non_ascii_and_empty() {
    let buf = encoded("üser名", "");
    let header = ProtFrameHeader::decode(&buf).unwrap();
    let token = ProtToken::parse(header, &buf[HEADER_LEN..]).unwrap();
    assert_eq!(token.username(), "üser名");
    assert_eq!(token.password(), "");
}

#[test]
fn token_encode_exact_bytes() {
    let mut buf = vec![9u8];
    let n = ProtToken::new("ab".to_string(), "c".to_string()).encode(&mut buf).unwrap();
    assert_eq!(n, 11);
    assert_eq!(buf, vec![9, KIND_TOKEN, 0, 0, 0, 0, 5, 2, b'a', b'b', 1, b'c']);
}

#[test]
fn token_length_matches_body() {
    let buf = encoded("user", "password");
    let header = ProtFrameHeader::decode(&buf).unwrap();
    assert_eq!(header.length as usize, buf.len() - HEADER_LEN);
    assert_eq!(header.length, 4 + 1 + 8 + 1);
    let (_, n) = read_short_string(&buf, HEADER_LEN).unwrap();
    let (_, m) = read_short_string(&buf, n).unwrap();
    assert_eq!(m, buf.len());
}

#[test]
fn token_encode_too_long_writes_nothing() {
    let mut buf = vec![1u8, 2];
    let long = "x".repeat(256);
    let r = ProtToken::new(long, "p".to_string()).encode(&mut buf);
    assert_eq!(r, Err(ProtError::TooLong));
    assert_eq!(buf, vec![1u8, 2]);
    let r = ProtToken::new("u".to_string(), "y".repeat(300)).encode(&mut buf);
    assert_eq!(r, Err(ProtError::TooLong));
    assert_eq!(buf, vec![1u8, 2]);
}

#[test]
fn token_longest_fields_fit() {
    let buf = encoded(&"u".repeat(255), &"p".repeat(255));
    let header = ProtFrameHeader::decode(&buf).unwrap();
    assert_eq!(header.length, 512);
    let token = ProtToken::parse(header, &buf[HEADER_LEN..]).unwrap();
    assert_eq!(token.username().len(), 255);
    assert_eq!(token.password().len(), 255);
}

#[test]
fn token_parse_truncated() {
    let buf = encoded("admin", "s3cret");
    let header = ProtFrameHeader::decode(&buf).unwrap();
    let r = ProtToken::parse(header, &buf[HEADER_LEN..buf.len() - 1]);
    assert_eq!(r.err(), Some(ProtError::Malformed));
}

#[test]
fn token_parse_length_mismatch() {
    let buf = encoded("admin", "s3cret");
    let mut header = ProtFrameHeader::decode(&buf).unwrap();
    header.length += 1;
    let mut body = buf[HEADER_LEN..].to_vec();
    body.push(0);
    assert_eq!(ProtToken::parse(header, &body).err(), Some(ProtError::Malformed));
    header.length -= 2;
    assert_eq!(ProtToken::parse(header, &body).err(), Some(ProtError::Malformed));
}

#[test]
fn token_parse_invalid_utf8() {
    let body = vec![2u8, 0xff, 0xfe, 1, b'p'];
    let header = ProtFrameHeader::new(KIND_TOKEN, 0, 5);
    assert_eq!(ProtToken::parse(header, &body).err(), Some(ProtError::Malformed));
}

#[test]
fn header_exact_bytes_and_decode() {
    let mut buf = Vec::new();
    let h = ProtFrameHeader::new(3, 0x80, 0x0102_0304);
    assert_eq!(h.encode(&mut buf), HEADER_LEN);
    assert_eq!(buf, vec![3, 0x80, 1, 2, 3, 4]);
    assert_eq!(ProtFrameHeader::decode(&buf), Ok(h));
    assert_eq!(ProtFrameHeader::decode(&buf[..5]), Err(ProtError::Malformed));
}

#[test]
fn short_string_write_and_read() {
    let mut buf = Vec::new();
    assert_eq!(write_short_string(&mut buf, "héllo"), Ok(7));
    assert_eq!(buf, vec![6, b'h', 0xc3, 0xa9, b'l', b'l', b'o']);
    let (s, p) = read_short_string(&buf, 0).unwrap();
    assert_eq!(s, "héllo");
    assert_eq!(p, 7);
    assert_eq!(read_short_string(&buf, 7), Err(ProtError::Malformed));
    assert_eq!(read_short_string(&buf[..6], 0), Err(ProtError::Malformed));
    assert_eq!(write_short_string(&mut buf, &"z".repeat(256)), Err(ProtError::TooLong));
    assert_eq!(buf.len(), 7);
}

#[test]
fn check_succ_wildcards() {
    let t = ProtToken::new("alice".to_string(), "pw".to_string());
    assert!(t.is_check_succ(&None, &None));
    assert!(t.is_check_succ(&Some("alice".to_string()), &None));
    assert!(!t.is_check_succ(&Some("bob".to_string()), &None));
    assert!(t.is_check_succ(&None, &Some("pw".to_string())));
    assert!(!t.is_check_succ(&None, &Some("PW".to_string())));
    assert!(t.is_check_succ(&Some("alice".to_string()), &Some("pw".to_string())));
    assert!(!t.is_check_succ(&Some("alice".to_string()), &Some("x".to_string())));
    assert!(!t.is_check_succ(&Some("x".to_string()), &Some("pw".to_string())));
}

#[test]
fn token_control_stream() {
    let t = ProtToken::new("a".to_string(), "b".to_string());
    assert_eq!(t.sock_map(), 0);
}
