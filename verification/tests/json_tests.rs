use join_helper::json::parse_join_request;

fn parsed(body: &[u8]) -> Option<(Vec<u8>, Vec<u8>)> {
    parse_join_request(body)
}

#[test]
fn plain_object_parses() {
    let r = parsed(b"{\"device_id\": \"abc\", \"helper_psk\": \"secret\"}").unwrap();
    assert_eq!(r.0, b"abc".to_vec());
    assert_eq!(r.1, b"secret".to_vec());
}

#[test]
fn field_order_does_not_matter() {
    let r = parsed(b"{\"helper_psk\": \"secret\", \"device_id\": \"abc\"}").unwrap();
    assert_eq!(r.0, b"abc".to_vec());
    assert_eq!(r.1, b"secret".to_vec());
}

#[test]
fn surrounding_whitespace_is_ignored() {
    let r = parsed(b" \t\r\n {  \"device_id\" : \"a\" ,\n \"helper_psk\" :\t\"b\" } \n").unwrap();
    assert_eq!(r.0, b"a".to_vec());
    assert_eq!(r.1, b"b".to_vec());
}

#[test]
fn unknown_members_are_skipped() {
    let body = b"{\"x\": [1, -2.5e+10, true, null, {\"y\": [[]]}, \"s\"], \"device_id\": \"a\", \"extra\": {\"k\": false}, \"helper_psk\": \"b\"}";
    let r = parsed(body).unwrap();
    assert_eq!(r.0, b"a".to_vec());
    assert_eq!(r.1, b"b".to_vec());
}

#[test]
fn escapes_are_decoded() {
    let r = parsed(b"{\"device_id\": \"a\\\"\\\\\\/\\b\\f\\n\\r\\t\", \"helper_psk\": \"\\u0041\\u00e9\\u20ac\\ud834\\udd1e\"}")
        .unwrap();
    assert_eq!(r.0, b"a\"\\/\x08\x0c\n\r\t".to_vec());
    // A, e-acute, euro sign, musical G clef: their UTF-8 encodings.
    assert_eq!(r.1, vec![0x41, 0xC3, 0xA9, 0xE2, 0x82, 0xAC, 0xF0, 0x9D, 0x84, 0x9E]);
}

#[test]
fn escaped_key_is_the_same_key() {
    let r = parsed(b"{\"device\\u005fid\": \"a\", \"helper_psk\": \"b\"}").unwrap();
    assert_eq!(r.0, b"a".to_vec());
}

#[test]
fn raw_utf8_in_strings_is_kept() {
    let body = "{\"device_id\": \"a\", \"helper_psk\": \"caf\u{e9}\u{20ac}\"}".as_bytes();
    let r = parsed(body).unwrap();
    assert_eq!(r.1, "caf\u{e9}\u{20ac}".as_bytes().to_vec());
}

#[test]
fn invalid_json_is_rejected() {
    for body in [
        &b"not json"[..],
        b"",
        b"   ",
        b"{",
        b"{\"device_id\": \"a\", \"helper_psk\": \"b\"",
        b"{\"device_id\": \"a\" \"helper_psk\": \"b\"}",
        b"{\"device_id\": \"a\",, \"helper_psk\": \"b\"}",
        b"{\"device_id\": \"a\", \"helper_psk\": \"b\",}",
        b"{\"device_id\" \"a\", \"helper_psk\": \"b\"}",
        b"{device_id: \"a\", helper_psk: \"b\"}",
    ] {
        assert!(parsed(body).is_none(), "accepted: {:?}", body);
        assert!(serde_json::from_slice::<serde_json::Value>(body).is_err());
    }
}

#[test]
fn non_object_bodies_are_rejected() {
    for body in [&b"null"[..], b"true", b"17", b"\"s\"", b"[{\"device_id\": \"a\", \"helper_psk\": \"b\"}]"] {
        assert!(parsed(body).is_none(), "accepted: {:?}", body);
    }
}

#[test]
fn missing_members_are_rejected() {
    assert!(parsed(b"{}").is_none());
    assert!(parsed(b"{\"device_id\": \"a\"}").is_none());
    assert!(parsed(b"{\"helper_psk\": \"b\"}").is_none());
    assert!(parsed(b"{\"other\": \"c\"}").is_none());
}

#[test]
fn wrongly_typed_members_are_rejected() {
    assert!(parsed(b"{\"device_id\": 5, \"helper_psk\": \"b\"}").is_none());
    assert!(parsed(b"{\"device_id\": \"a\", \"helper_psk\": null}").is_none());
    assert!(parsed(b"{\"device_id\": [\"a\"], \"helper_psk\": \"b\"}").is_none());
}

#[test]
fn repeated_tracked_members_are_rejected() {
    assert!(parsed(b"{\"device_id\": \"a\", \"device_id\": \"a\", \"helper_psk\": \"b\"}").is_none());
    assert!(parsed(b"{\"device_id\": \"a\", \"helper_psk\": \"b\", \"helper_psk\": \"b\"}").is_none());
    // A repeated unknown member is no error.
    assert!(parsed(b"{\"x\": 1, \"x\": 2, \"device_id\": \"a\", \"helper_psk\": \"b\"}").is_some());
}

#[test]
fn trailing_content_is_rejected() {
    assert!(parsed(b"{\"device_id\": \"a\", \"helper_psk\": \"b\"} extra").is_none());
    assert!(parsed(b"{\"device_id\": \"a\", \"helper_psk\": \"b\"}{}").is_none());
    assert!(parsed(b"{\"device_id\": \"a\", \"helper_psk\": \"b\"} \n ").is_some());
}

#[test]
fn bad_strings_are_rejected() {
    // Unescaped control character, unknown escape, broken unicode escapes,
    // lone surrogates, ill-formed UTF-8.
    assert!(parsed(b"{\"device_id\": \"a\x01\", \"helper_psk\": \"b\"}").is_none());
    assert!(parsed(b"{\"device_id\": \"\\x\", \"helper_psk\": \"b\"}").is_none());
    assert!(parsed(b"{\"device_id\": \"\\u12\", \"helper_psk\": \"b\"}").is_none());
    assert!(parsed(b"{\"device_id\": \"\\u12gz\", \"helper_psk\": \"b\"}").is_none());
    assert!(parsed(b"{\"device_id\": \"\\ud800\", \"helper_psk\": \"b\"}").is_none());
    assert!(parsed(b"{\"device_id\": \"\\udc00\", \"helper_psk\": \"b\"}").is_none());
    assert!(parsed(b"{\"device_id\": \"\\ud800\\ud800\", \"helper_psk\": \"b\"}").is_none());
    assert!(parsed(b"{\"device_id\": \"\xff\", \"helper_psk\": \"b\"}").is_none());
    assert!(parsed(b"{\"device_id\": \"\xc3\", \"helper_psk\": \"b\"}").is_none());
    assert!(parsed(b"{\"device_id\": \"\xe2\x82\", \"helper_psk\": \"b\"}").is_none());
    assert!(parsed(b"{\"device_id\": \"\xed\xa0\x80\", \"helper_psk\": \"b\"}").is_none());
}

#[test]
fn bad_numbers_are_rejected() {
    assert!(parsed(b"{\"x\": 01, \"device_id\": \"a\", \"helper_psk\": \"b\"}").is_none());
    assert!(parsed(b"{\"x\": -, \"device_id\": \"a\", \"helper_psk\": \"b\"}").is_none());
    assert!(parsed(b"{\"x\": 1., \"device_id\": \"a\", \"helper_psk\": \"b\"}").is_none());
    assert!(parsed(b"{\"x\": 1e, \"device_id\": \"a\", \"helper_psk\": \"b\"}").is_none());
    assert!(parsed(b"{\"x\": .5, \"device_id\": \"a\", \"helper_psk\": \"b\"}").is_none());
    assert!(parsed(b"{\"x\": 1.5e-3, \"device_id\": \"a\", \"helper_psk\": \"b\"}").is_some());
    assert!(parsed(b"{\"x\": -0, \"device_id\": \"a\", \"helper_psk\": \"b\"}").is_some());
}
