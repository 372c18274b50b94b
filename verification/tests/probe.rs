use bluebubbles::api::client::ApiClient;
use bluebubbles::api::error::ApiError;
use bluebubbles::api::http::{Header, Method, Request, Response};
use bluebubbles::api::probe::{read_token, token_of, LivenessStep, TokenStep};
use bluebubbles::document::Document;

fn document(text: &str) -> Document {
    let response = Response { status: 200, body: format!("[{}]", text) };
    let (_, mut items) = ApiClient::new().conversations(Ok(response)).unwrap();
    items.remove(0)
}

fn answered(status: u16, body: &str) -> Result<Response, String> {
    Ok(Response { status, body: body.to_string() })
}

fn unreachable_with(message: &str) -> Result<Response, String> {
    Err(message.to_string())
}

fn attempted_url(step: &LivenessStep<'_>) -> Option<String> {
    match step {
        LivenessStep::Attempt(request) => Some(request.url.clone()),
        _ => None,
    }
}

fn login_url(step: &TokenStep<'_>) -> Option<String> {
    match step {
        TokenStep::Attempt(request) => Some(request.url.clone()),
        _ => None,
    }
}

#[test]
fn ping_tries_the_third_candidate_after_the_first_two() {
    let client = ApiClient::new();
    let mut probe = client.ping("http://host/", None, None);
    assert_eq!(attempted_url(&probe.step()), Some("http://host/api/v1/ping".to_string()));
    probe.record(unreachable_with("refused"));
    assert_eq!(attempted_url(&probe.step()), Some("http://host/api/ping".to_string()));
    probe.record(unreachable_with("timeout"));
    assert_eq!(attempted_url(&probe.step()), Some("http://host".to_string()));
    probe.record(answered(404, "not found"));
    assert!(matches!(probe.step(), LivenessStep::Reached(404)));
}

#[test]
fn ping_stops_at_the_first_candidate_that_answers() {
    let client = ApiClient::new();
    let mut probe = client.ping("http://host", None, None);
    probe.record(answered(500, ""));
    assert!(matches!(probe.step(), LivenessStep::Reached(500)));
    probe.record(answered(200, ""));
    assert!(matches!(probe.step(), LivenessStep::Reached(500)));
    probe.record(unreachable_with("late"));
    assert!(matches!(probe.step(), LivenessStep::Reached(500)));
}

#[test]
fn ping_fails_with_the_last_transport_error() {
    let client = ApiClient::new();
    let mut probe = client.ping("http://host", None, None);
    probe.record(unreachable_with("one"));
    probe.record(unreachable_with("two"));
    probe.record(unreachable_with("three"));
    match probe.step() {
        LivenessStep::Unreachable(e) => assert_eq!(e, ApiError::Connectivity("three".to_string())),
        _ => panic!("the probe should have given up"),
    }
    probe.record(answered(200, ""));
    assert!(matches!(probe.step(), LivenessStep::Unreachable(_)));
}

#[test]
fn ping_requests_carry_the_credentials() {
    let client = ApiClient::new();
    let probe = client.ping("http://host/api", Some("tok"), Some("pw"));
    match probe.step() {
        LivenessStep::Attempt(request) => assert_eq!(
            request,
            &Request {
                method: Method::Get,
                url: "http://host/api/v1/ping".to_string(),
                headers: vec![
                    Header { name: "Authorization".to_string(), value: "Bearer tok".to_string() },
                    Header { name: "password".to_string(), value: "pw".to_string() },
                ],
                body: None,
            }
        ),
        _ => panic!("a fresh probe asks for its first candidate"),
    }
}

#[test]
fn obtain_token_tries_the_candidates_in_order() {
    let client = ApiClient::new();
    let mut probe = client.obtain_token("http://host/", "pw");
    assert_eq!(login_url(&probe.step()), Some("http://host/api/v1/login".to_string()));
    probe.record(unreachable_with("refused"));
    assert_eq!(login_url(&probe.step()), Some("http://host/api/v1/auth".to_string()));
    probe.record(answered(404, ""));
    assert_eq!(login_url(&probe.step()), Some("http://host/api/login".to_string()));
    probe.record(answered(200, r#"{"user":"u"}"#));
    assert_eq!(login_url(&probe.step()), Some("http://host/api/auth".to_string()));
    probe.record(answered(200, r#"{"accessToken":"abc"}"#));
    match probe.step() {
        TokenStep::Granted(token) => assert_eq!(token, "abc"),
        _ => panic!("the fourth candidate gave a token"),
    }
}

#[test]
fn obtain_token_requests_are_posts_with_the_password() {
    let client = ApiClient::new();
    let probe = client.obtain_token("http://host", "pw");
    match probe.step() {
        TokenStep::Attempt(request) => assert_eq!(
            request,
            &Request {
                method: Method::Post,
                url: "http://host/api/v1/login".to_string(),
                headers: vec![Header { name: "password".to_string(), value: "pw".to_string() }],
                body: None,
            }
        ),
        _ => panic!("a fresh probe asks for its first candidate"),
    }
}

#[test]
fn obtain_token_fails_with_what_the_last_candidate_failed_with() {
    let client = ApiClient::new();
    let mut probe = client.obtain_token("http://host", "pw");
    probe.record(unreachable_with("refused"));
    probe.record(answered(200, "not json"));
    probe.record(answered(200, "{}"));
    probe.record(answered(503, ""));
    match probe.step() {
        TokenStep::Refused(e) => {
            assert_eq!(e, ApiError::Auth("HTTP 503 Service Unavailable".to_string()))
        }
        _ => panic!("no candidate gave a token"),
    }
    let mut other = client.obtain_token("http://host", "pw");
    other.record(answered(503, ""));
    other.record(answered(503, ""));
    other.record(answered(503, ""));
    other.record(answered(200, r#"{"token":7}"#));
    match other.step() {
        TokenStep::Refused(e) => {
            assert_eq!(e, ApiError::Auth("Token not found in response".to_string()))
        }
        _ => panic!("no candidate gave a token"),
    }
}

#[test]
fn token_of_reads_what_one_candidate_gives() {
    assert_eq!(token_of(answered(200, r#"{"token":"t","accessToken":"a"}"#)), Ok("t".to_string()));
    assert_eq!(token_of(answered(201, r#"{"token":null,"accessToken":"a"}"#)), Ok("a".to_string()));
    assert_eq!(token_of(answered(200, r#"{"token":""}"#)), Err("Token not found in response".to_string()));
    assert_eq!(token_of(answered(200, r#"{"token":"","accessToken":"a"}"#)), Ok("a".to_string()));
    assert_eq!(token_of(answered(200, "[]")), Err("Token not found in response".to_string()));
    assert_eq!(token_of(answered(401, r#"{"token":"t"}"#)), Err("HTTP 401 Unauthorized".to_string()));
    assert_eq!(token_of(unreachable_with("refused")), Err("refused".to_string()));
    assert!(token_of(answered(200, "{")).is_err());
}

#[test]
fn read_token_looks_under_both_names() {
    assert_eq!(read_token(&document(r#"{"accessToken":"a"}"#)), Some("a".to_string()));
    assert_eq!(read_token(&document(r#"{"token":"t"}"#)), Some("t".to_string()));
    assert_eq!(read_token(&document(r#"{"Token":"t"}"#)), None);
    assert_eq!(read_token(&document(r#"{"token":"t","accessToken":"a"}"#)), Some("t".to_string()));
    assert_eq!(read_token(&document(r#"{"token":"","accessToken":"a"}"#)), Some("a".to_string()));
    assert_eq!(read_token(&document(r#"{"token":7,"accessToken":""}"#)), None);
}
