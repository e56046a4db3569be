use join_helper::handler::{handle, response_for_controller_status, Config, ControllerCall, Decision};

const UUID: &str = "123e4567-e89b-12d3-a456-426614174000";

fn config() -> Config {
    Config {
        expected_psk: b"correct".to_vec(),
        api_token: "tok-123".to_string(),
        controller_url: "https://controller.example".to_string(),
    }
}

fn expect_respond(d: Decision) -> (u16, String, String) {
    match d {
        Decision::Respond(r) => (r.status, r.content_type, r.body),
        Decision::CallController(_) => panic!("expected a response, got an outbound call"),
    }
}

fn expect_call(d: Decision) -> ControllerCall {
    match d {
        Decision::Respond(r) => panic!("expected an outbound call, got status {}", r.status),
        Decision::CallController(c) => c,
    }
}

fn assert_400(d: Decision) {
    let (status, content_type, body) = expect_respond(d);
    assert_eq!(status, 400);
    assert_eq!(content_type, "application/json");
    assert_eq!(body, "{\"error\": \"Invalid request body\"}");
}

#[test]
fn unparseable_body_gets_400() {
    assert_400(handle(b"not json", &config()));
    assert_400(handle(b"", &config()));
    assert_400(handle(b"[1, 2]", &config()));
}

#[test]
fn missing_members_get_400() {
    assert_400(handle(b"{}", &config()));
    assert_400(handle(b"{\"device_id\": \"123e4567-e89b-12d3-a456-426614174000\"}", &config()));
    assert_400(handle(b"{\"helper_psk\": \"correct\"}", &config()));
}

#[test]
fn malformed_uuid_gets_400() {
    assert_400(handle(b"{\"device_id\": \"not-a-uuid\", \"helper_psk\": \"correct\"}", &config()));
    assert_400(handle(b"{\"device_id\": \"123e4567-e89b-12d3-a456-42661417400\", \"helper_psk\": \"correct\"}", &config()));
    assert_400(handle(b"{\"device_id\": \"\", \"helper_psk\": \"correct\"}", &config()));
}

#[test]
fn wrong_psk_gets_403() {
    let body = "{\"device_id\": \"123e4567-e89b-12d3-a456-426614174000\", \"helper_psk\": \"wrong\"}";
    let (status, content_type, resp_body) = expect_respond(handle(body.as_bytes(), &config()));
    assert_eq!(status, 403);
    assert_eq!(content_type, "application/json");
    assert_eq!(resp_body, "{\"error\": \"Invalid helper_psk\"}");
}

#[test]
fn psk_comparison_is_exact() {
    for psk in ["correct ", " correct", "Correct", "correc", "correct\\u0000"] {
        let body = format!("{{\"device_id\": \"{}\", \"helper_psk\": \"{}\"}}", UUID, psk);
        let (status, _, _) = expect_respond(handle(body.as_bytes(), &config()));
        assert_eq!(status, 403, "psk {:?} was accepted", psk);
    }
}

#[test]
fn psk_mismatch_beats_any_device_id() {
    let body = "{\"device_id\": \"00000000-0000-0000-0000-000000000000\", \"helper_psk\": \"wrong\"}";
    let (status, _, _) = expect_respond(handle(body.as_bytes(), &config()));
    assert_eq!(status, 403);
}

#[test]
fn valid_request_is_forwarded() {
    let body = format!("{{\"device_id\": \"{}\", \"helper_psk\": \"correct\"}}", UUID);
    let c = expect_call(handle(body.as_bytes(), &config()));
    assert_eq!(c.url, "https://controller.example/-net/api/v0/device/state");
    assert_eq!(c.auth_header, "Basic tok-123");
    assert_eq!(c.content_type, "application/json");
    assert_eq!(
        c.body,
        format!("{{\"devices\": [{{\"id\": \"{}\", \"state\": \"accepted\"}}]}}", UUID)
    );
}

#[test]
fn outbound_body_is_well_formed_json() {
    let body = format!("{{\"device_id\": \"{}\", \"helper_psk\": \"correct\"}}", UUID);
    let c = expect_call(handle(body.as_bytes(), &config()));
    let v: serde_json::Value = serde_json::from_str(&c.body).unwrap();
    let device = &v.get("devices").unwrap().as_array().unwrap()[0];
    assert_eq!(device.get("id").unwrap().as_str().unwrap(), UUID);
    assert_eq!(device.get("state").unwrap().as_str().unwrap(), "accepted");
}

#[test]
fn uuid_forms_are_normalized() {
    // Simple, braced, URN and upper-case forms all denote the same device,
    // and the forwarded identifier is the hyphenated lower-case form.
    for id in [
        "123e4567e89b12d3a456426614174000",
        "{123e4567-e89b-12d3-a456-426614174000}",
        "urn:uuid:123e4567-e89b-12d3-a456-426614174000",
        "123E4567-E89B-12D3-A456-426614174000",
    ] {
        let body = format!("{{\"device_id\": \"{}\", \"helper_psk\": \"correct\"}}", id);
        let c = expect_call(handle(body.as_bytes(), &config()));
        assert!(c.body.contains(UUID), "form {:?} was not normalized: {}", id, c.body);
    }
}

#[test]
fn escaped_body_is_decoded_before_the_checks() {
    let body = "{\"device\\u005fid\": \"123e4567-e89b-12d3-a456-426614174000\", \"helper_psk\": \"\\u0063orrect\"}";
    let c = expect_call(handle(body.as_bytes(), &config()));
    assert!(c.body.contains(UUID));
}

#[test]
fn unicode_psk_matches_its_bytes() {
    let cfg = Config { expected_psk: "caf\u{e9}".as_bytes().to_vec(), ..config() };
    let escaped = "{\"device_id\": \"123e4567-e89b-12d3-a456-426614174000\", \"helper_psk\": \"caf\\u00e9\"}";
    expect_call(handle(escaped.as_bytes(), &cfg));
    let raw = "{\"device_id\": \"123e4567-e89b-12d3-a456-426614174000\", \"helper_psk\": \"caf\u{e9}\"}";
    expect_call(handle(raw.as_bytes(), &cfg));
}

#[test]
fn controller_rejection_is_relayed() {
    let r = response_for_controller_status(503);
    assert_eq!(r.status, 503);
    assert_eq!(r.content_type, "application/json");
    assert_eq!(r.body, "{\"error\": \"Failed to join device\"}");
}

#[test]
fn controller_success_is_a_html_200() {
    let r = response_for_controller_status(200);
    assert_eq!(r.status, 200);
    assert_eq!(r.content_type, "text/html");
    assert_eq!(r.body, "Device Accepted\n");
}

#[test]
fn status_classes_follow_the_2xx_rule() {
    for status in [200u16, 201, 204, 299] {
        let r = response_for_controller_status(status);
        assert_eq!(r.status, 200);
        assert_eq!(r.body, "Device Accepted\n");
    }
    for status in [100u16, 199, 300, 302, 403, 404, 500, 503] {
        let r = response_for_controller_status(status);
        assert_eq!(r.status, status);
        assert_eq!(r.body, "{\"error\": \"Failed to join device\"}");
    }
}

#[test]
fn identical_requests_forward_identical_calls() {
    // No deduplication: a repeated request is forwarded again, unchanged.
    let body = format!("{{\"device_id\": \"{}\", \"helper_psk\": \"correct\"}}", UUID);
    let c1 = expect_call(handle(body.as_bytes(), &config()));
    let c2 = expect_call(handle(body.as_bytes(), &config()));
    assert_eq!(c1.url, c2.url);
    assert_eq!(c1.auth_header, c2.auth_header);
    assert_eq!(c1.body, c2.body);
}

#[test]
fn end_to_end_example() {
    let body = "{\"device_id\": \"123e4567-e89b-12d3-a456-426614174000\", \"helper_psk\": \"correct\"}";
    let cfg = Config {
        expected_psk: b"correct".to_vec(),
        api_token: "token".to_string(),
        controller_url: "https://controller.example".to_string(),
    };
    let c = expect_call(handle(body.as_bytes(), &cfg));
    assert_eq!(c.url, "https://controller.example/-net/api/v0/device/state");
    let r = response_for_controller_status(200);
    assert_eq!(r.status, 200);
    assert_eq!(r.content_type, "text/html");
    assert_eq!(r.body, "Device Accepted\n");
}
