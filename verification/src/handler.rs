//! The join-request handler.
//!
//! One invocation is a single linear flow: parse the inbound body, compare
//! the pre-shared key, and either answer the caller at once or forward one
//! state-change call to the controller; the controller's status code is then
//! mapped to the caller's response. The host performs the network I/O: it
//! hands the raw body and the configuration to [`handle`], carries out the
//! returned decision, and maps the controller's status through
//! [`response_for_controller_status`].

use vstd::prelude::*;
use vstd::string::StringExecFns;
use crate::device::{parse_uuid, uuid_of, uuid_text_of, uuid_to_string};
use crate::json::{bytes_eq, parse_join_request, spec_parse_join};

verus! {

/// The three required configuration values, read by the host at startup.
pub struct Config {
    /// The expected value of `helper_psk`, as UTF-8 bytes.
    pub expected_psk: Vec<u8>,
    /// The credential sent on the outbound call.
    pub api_token: String,
    /// The base URL of the controller.
    pub controller_url: String,
}

/// A response for the original caller.
pub struct HttpResponse {
    pub status: u16,
    pub content_type: String,
    pub body: String,
}

/// The one outbound call: a POST of `body` to `url` with the two headers.
pub struct ControllerCall {
    pub url: String,
    pub auth_header: String,
    pub content_type: String,
    pub body: String,
}

/// What one invocation decides: answer the caller at once, or forward the
/// state change to the controller.
pub enum Decision {
    Respond(HttpResponse),
    CallController(ControllerCall),
}

/// The response body for a request that does not parse.
pub open spec fn invalid_body_text() -> Seq<char> {
    "{\"error\": \"Invalid request body\"}"@
}

/// The response body for a wrong pre-shared key.
pub open spec fn invalid_psk_text() -> Seq<char> {
    "{\"error\": \"Invalid helper_psk\"}"@
}

/// The response body when the controller rejects the state change.
pub open spec fn join_failed_text() -> Seq<char> {
    "{\"error\": \"Failed to join device\"}"@
}

/// The response body for a joined device.
pub open spec fn accepted_text() -> Seq<char> {
    "Device Accepted\n"@
}

pub open spec fn json_content_type() -> Seq<char> {
    "application/json"@
}

pub open spec fn html_content_type() -> Seq<char> {
    "text/html"@
}

/// The controller's device-state endpoint under the configured base URL.
pub open spec fn controller_endpoint(base: Seq<char>) -> Seq<char> {
    base + "/-net/api/v0/device/state"@
}

/// The authorization header: the scheme name `Basic` followed directly by the
/// raw token, a deliberate quirk of the controller API.
pub open spec fn basic_auth(token: Seq<char>) -> Seq<char> {
    "Basic "@ + token
}

/// The outbound payload: one device, in the given textual form, moved to the
/// state `accepted`.
pub open spec fn update_body_text(id: Seq<char>) -> Seq<char> {
    "{\"devices\": [{\"id\": \""@ + id + "\", \"state\": \"accepted\"}]}"@
}

/// The mathematical value of an [`HttpResponse`].
pub struct ResponseModel {
    pub status: u16,
    pub content_type: Seq<char>,
    pub body: Seq<char>,
}

/// The mathematical value of a [`Decision`].
pub enum DecisionModel {
    Respond(ResponseModel),
    Forward { url: Seq<char>, auth: Seq<char>, content_type: Seq<char>, body: Seq<char> },
}

pub open spec fn response_model(r: HttpResponse) -> ResponseModel {
    ResponseModel { status: r.status, content_type: r.content_type@, body: r.body@ }
}

pub open spec fn decision_model(d: Decision) -> DecisionModel {
    match d {
        Decision::Respond(r) => DecisionModel::Respond(response_model(r)),
        Decision::CallController(c) => DecisionModel::Forward {
            url: c.url@,
            auth: c.auth_header@,
            content_type: c.content_type@,
            body: c.body@,
        },
    }
}

/// The decision for a request, as a function of the raw body and the three
/// configuration values alone: a body that does not parse as a join request
/// (or whose `device_id` is no UUID) is answered 400; a wrong `helper_psk` is
/// answered 403; otherwise the state change is forwarded to the controller.
pub open spec fn spec_handle(
    body: Seq<u8>,
    expected_psk: Seq<u8>,
    token: Seq<char>,
    base: Seq<char>,
) -> DecisionModel {
    match spec_parse_join(body) {
        None => DecisionModel::Respond(
            ResponseModel { status: 400, content_type: json_content_type(), body: invalid_body_text() },
        ),
        Some(dk) => match uuid_of(dk.0) {
            None => DecisionModel::Respond(
                ResponseModel {
                    status: 400,
                    content_type: json_content_type(),
                    body: invalid_body_text(),
                },
            ),
            Some(u) => {
                if dk.1 != expected_psk {
                    DecisionModel::Respond(
                        ResponseModel {
                            status: 403,
                            content_type: json_content_type(),
                            body: invalid_psk_text(),
                        },
                    )
                } else {
                    DecisionModel::Forward {
                        url: controller_endpoint(base),
                        auth: basic_auth(token),
                        content_type: json_content_type(),
                        body: update_body_text(uuid_text_of(u)),
                    }
                }
            },
        },
    }
}

/// The 400 response for a body that does not parse as a join request.
pub fn invalid_body_response() -> (r: HttpResponse)
    ensures
        response_model(r) == (ResponseModel {
            status: 400,
            content_type: json_content_type(),
            body: invalid_body_text(),
        }),
{
    HttpResponse {
        status: 400,
        content_type: "application/json".to_owned(),
        body: "{\"error\": \"Invalid request body\"}".to_owned(),
    }
}

/// Decide one invocation from the raw request body and the configuration.
pub fn handle(body: &[u8], config: &Config) -> (d: Decision)
    ensures
        decision_model(d) == spec_handle(
            body@,
            config.expected_psk@,
            config.api_token@,
            config.controller_url@,
        ),
{
    match parse_join_request(body) {
        None => Decision::Respond(invalid_body_response()),
        Some(t) => match parse_uuid(t.0.as_slice()) {
            None => Decision::Respond(invalid_body_response()),
            Some(u) => {
                if !bytes_eq(t.1.as_slice(), config.expected_psk.as_slice()) {
                    Decision::Respond(
                        HttpResponse {
                            status: 403,
                            content_type: "application/json".to_owned(),
                            body: "{\"error\": \"Invalid helper_psk\"}".to_owned(),
                        },
                    )
                } else {
                    let id = uuid_to_string(u);
                    let mut url = config.controller_url.clone();
                    url.append("/-net/api/v0/device/state");
                    let mut auth = String::from_str("Basic ");
                    auth.append(config.api_token.as_str());
                    let mut payload = String::from_str("{\"devices\": [{\"id\": \"");
                    payload.append(id.as_str());
                    payload.append("\", \"state\": \"accepted\"}]}");
                    Decision::CallController(
                        ControllerCall {
                            url,
                            auth_header: auth,
                            content_type: "application/json".to_owned(),
                            body: payload,
                        },
                    )
                }
            },
        },
    }
}

pub open spec fn is_success_status(status: u16) -> bool {
    200 <= status < 300
}

/// The response owed for a controller status: a 2xx status means the device
/// was accepted; any other status is relayed unchanged with a generic error
/// body.
pub open spec fn spec_status_response(status: u16) -> ResponseModel {
    if is_success_status(status) {
        ResponseModel { status: 200, content_type: html_content_type(), body: accepted_text() }
    } else {
        ResponseModel { status, content_type: json_content_type(), body: join_failed_text() }
    }
}

/// Map the status code of the controller's answer to the response for the
/// original caller.
pub fn response_for_controller_status(status: u16) -> (r: HttpResponse)
    ensures
        response_model(r) == spec_status_response(status),
{
    if 200 <= status && status < 300 {
        HttpResponse {
            status: 200,
            content_type: "text/html".to_owned(),
            body: "Device Accepted\n".to_owned(),
        }
    } else {
        HttpResponse {
            status,
            content_type: "application/json".to_owned(),
            body: "{\"error\": \"Failed to join device\"}".to_owned(),
        }
    }
}

/// The decision depends on the request body and the configuration alone, and
/// the library keeps no state between invocations: a repeated identical
/// request is mapped to an identical outbound call, never suppressed or
/// deduplicated.
pub proof fn lemma_no_deduplication(
    d1: Decision,
    d2: Decision,
    body: Seq<u8>,
    expected_psk: Seq<u8>,
    token: Seq<char>,
    base: Seq<char>,
)
    requires
        decision_model(d1) == spec_handle(body, expected_psk, token, base),
        decision_model(d2) == spec_handle(body, expected_psk, token, base),
    ensures
        decision_model(d1) == decision_model(d2),
{
}

} // verus!

