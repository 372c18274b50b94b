//! The credentials of a session, and the choices that the start of the
//! program makes with them.

use crate::api::client::outcome_view;
use crate::api::http::{success, Response};
use vstd::prelude::*;

verus! {

/// The credentials of a session.
#[derive(Debug, Clone, PartialEq, Eq)]
pub struct AppState {
    pub base_url: String,
    pub password: String,
    pub token: Option<String>,
}

/// The value of an `AppState`.
pub struct AppStateView {
    pub base_url: Seq<char>,
    pub password: Seq<char>,
    pub token: Option<Seq<char>>,
}

impl View for AppState {
    type V = AppStateView;

    open spec fn view(&self) -> AppStateView {
        AppStateView {
            base_url: self.base_url@,
            password: self.password@,
            token: match self.token {
                Some(t) => Some(t@),
                None => None,
            },
        }
    }
}

/// The credentials of someone who has not signed in.
pub open spec fn blank() -> AppStateView {
    AppStateView { base_url: Seq::empty(), password: Seq::empty(), token: None }
}

impl AppStateView {
    /// Whether there is a server to talk to and a password to show it.
    pub open spec fn configured(self) -> bool {
        self.base_url.len() > 0 && self.password.len() > 0
    }
}

/// What a stored state gives at the start: the credentials to use, and
/// whether they came from the old file and are to be saved to the new one.
pub open spec fn chosen(preferred: Option<AppState>, legacy: Option<AppState>) -> (AppStateView, bool) {
    match preferred {
        Some(state) => (state@, false),
        None => match legacy {
            Some(state) => (state@, true),
            None => (blank(), false),
        },
    }
}

/// What a login tells the user after it has asked the server about itself.
/// The credentials are kept whatever the answer was.
pub open spec fn login_note(outcome: Result<(u16, Seq<char>), Seq<char>>) -> Seq<char> {
    match outcome {
        Ok((status, body)) => if success(status) {
            "Connected"@
        } else {
            "Saved (server info unavailable)"@
        },
        Err(message) => "Saved (server unreachable)"@,
    }
}

impl AppState {
    /// The credentials of someone who has not signed in.
    pub fn new() -> (r: AppState)
        ensures
            r@ == blank(),
    {
        AppState { base_url: String::new(), password: String::new(), token: None }
    }

    /// Whether there is a server to talk to and a password to show it. The
    /// program opens its main window if so, and asks for a login if not.
    pub fn is_configured(&self) -> (r: bool)
        ensures
            r == self@.configured(),
    {
        !self.base_url.as_str().is_empty() && !self.password.as_str().is_empty()
    }

    /// Chooses the credentials at the start: those of the preferred file
    /// where it could be read, else those of the old file, which are then to
    /// be saved to the preferred one, else none.
    pub fn select(preferred: Option<AppState>, legacy: Option<AppState>) -> (r: (AppState, bool))
        ensures
            (r.0@, r.1) == chosen(preferred, legacy),
    {
        match preferred {
            Some(state) => (state, false),
            None => match legacy {
                Some(state) => (state, true),
                None => (AppState::new(), false),
            },
        }
    }

    /// The credentials after a login: the new address and password, and no
    /// token, since an old one belongs to the old ones.
    pub fn signed_in(self, base_url: String, password: String) -> (r: AppState)
        ensures
            r@ == (AppStateView { base_url: base_url@, password: password@, token: None }),
    {
        AppState { base_url, password, token: None }
    }

    /// What a login tells the user after it has asked the server about
    /// itself.
    pub fn login_note(outcome: &Result<Response, String>) -> (r: &'static str)
        ensures
            r@ == login_note(outcome_view(*outcome)),
    {
        match outcome {
            Ok(response) => if response.is_success() {
                "Connected"
            } else {
                "Saved (server info unavailable)"
            },
            Err(_) => "Saved (server unreachable)",
        }
    }
}

} // verus!
