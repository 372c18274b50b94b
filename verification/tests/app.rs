use bluebubbles::api::http::Response;
use bluebubbles::app::AppState;

fn stored(base_url: &str) -> AppState {
    AppState { base_url: base_url.to_string(), password: "pw".to_string(), token: Some("t".to_string()) }
}

#[test]
fn a_new_state_is_blank() {
    assert_eq!(AppState::new(), AppState { base_url: String::new(), password: String::new(), token: None });
    assert!(!AppState::new().is_configured());
}

#[test]
fn a_state_is_configured_with_address_and_password() {
    assert!(stored("http://host").is_configured());
    assert!(!stored("").is_configured());
    let without_password = AppState { base_url: "http://host".to_string(), password: String::new(), token: None };
    assert!(!without_password.is_configured());
}

#[test]
fn select_prefers_the_new_file() {
    assert_eq!(AppState::select(Some(stored("new")), Some(stored("old"))), (stored("new"), false));
    assert_eq!(AppState::select(Some(stored("new")), None), (stored("new"), false));
    assert_eq!(AppState::select(None, Some(stored("old"))), (stored("old"), true));
    assert_eq!(AppState::select(None, None), (AppState::new(), false));
}

#[test]
fn signing_in_clears_the_token() {
    let state = stored("old").signed_in("https://new".to_string(), "secret".to_string());
    assert_eq!(
        state,
        AppState { base_url: "https://new".to_string(), password: "secret".to_string(), token: None }
    );
}

#[test]
fn login_notes() {
    assert_eq!(AppState::login_note(&Ok(Response { status: 200, body: String::new() })), "Connected");
    assert_eq!(
        AppState::login_note(&Ok(Response { status: 403, body: String::new() })),
        "Saved (server info unavailable)"
    );
    assert_eq!(AppState::login_note(&Err("refused".to_string())), "Saved (server unreachable)");
}
