//! The endpoint resolver. A server's layout is not known in advance, so the
//! client holds an ordered list of candidate requests and tries them one
//! after the other. A probe is the state of such a run: it says which request
//! to send next, takes the outcome of sending it, and says when the run is
//! over and how it ended.

use crate::api::client::{
    api_root, authorized, bare, origin, outcome_view, owned_text_view, text_view, ApiClient,
};
use crate::api::error::{status_message, status_text, ApiError, ApiFailure};
use crate::api::http::{success, Header, HeaderView, Method, Request, RequestView, Response};
use crate::document::{decode, decoded, Document, Json};
use crate::seqs::views;
use crate::text::joined;
use vstd::prelude::*;

verus! {

/// The state of a liveness probe: the candidates in the order of trying, how
/// many of them have failed to complete, the last transport error, and the
/// status of the candidate that completed, once one has.
pub struct LivenessView {
    pub requests: Seq<RequestView>,
    pub failed: nat,
    pub last_error: Option<Seq<char>>,
    pub reached: Option<u16>,
}

/// What a liveness probe asks for next.
pub enum LivenessNext {
    /// Send this request and record the outcome.
    Attempt(RequestView),
    /// The server was reached and answered with this status.
    Reached(u16),
    /// Every candidate failed to complete.
    Unreachable(ApiFailure),
}

impl LivenessView {
    /// The state before any candidate was tried.
    pub open spec fn fresh(requests: Seq<RequestView>) -> LivenessView {
        LivenessView { requests, failed: 0, last_error: None, reached: None }
    }

    /// What the probe asks for in this state.
    pub open spec fn next(self) -> LivenessNext {
        match self.reached {
            Some(status) => LivenessNext::Reached(status),
            None => if self.failed < self.requests.len() {
                LivenessNext::Attempt(self.requests[self.failed as int])
            } else {
                LivenessNext::Unreachable(
                    ApiFailure::Connectivity(
                        match self.last_error {
                            Some(m) => m,
                            None => "Failed to reach any endpoint"@,
                        },
                    ),
                )
            },
        }
    }

    /// The state after the outcome of the request that was asked for. A
    /// response with any status ends the run; a transport error leads to the
    /// next candidate. A probe that asked for nothing stays as it is.
    pub open spec fn after(self, outcome: Result<(u16, Seq<char>), Seq<char>>) -> LivenessView {
        if self.next() is Attempt {
            match outcome {
                Ok((status, body)) => LivenessView { reached: Some(status), ..self },
                Err(message) => LivenessView {
                    failed: self.failed + 1,
                    last_error: Some(message),
                    ..self
                },
            }
        } else {
            self
        }
    }

    /// The state after one transport error for each of `failures`, in order.
    pub open spec fn after_failures(self, failures: Seq<Seq<char>>) -> LivenessView
        decreases failures.len(),
    {
        if failures.len() == 0 {
            self
        } else {
            self.after_failures(failures.drop_last()).after(
                Err::<(u16, Seq<char>), Seq<char>>(failures.last()),
            )
        }
    }
}

/// A fresh probe that has seen `failures` transport errors, no more than it
/// has candidates, has counted them and holds the last.
pub proof fn lemma_liveness_failures(requests: Seq<RequestView>, failures: Seq<Seq<char>>)
    requires
        failures.len() <= requests.len(),
    ensures
        LivenessView::fresh(requests).after_failures(failures) == (LivenessView {
            requests,
            failed: failures.len(),
            last_error: if failures.len() == 0 {
                None
            } else {
                Some(failures.last())
            },
            reached: None,
        }),
    decreases failures.len(),
{
    if failures.len() > 0 {
        lemma_liveness_failures(requests, failures.drop_last());
    }
}

/// The candidates are tried in order, each only after every one before it
/// has failed to complete, and the first that completes decides: after `k`
/// transport errors a fresh probe asks for candidate `k`, and a response to
/// it, whatever its status, ends the run with that status.
pub proof fn lemma_liveness_order(
    requests: Seq<RequestView>,
    failures: Seq<Seq<char>>,
    status: u16,
    body: Seq<char>,
)
    requires
        failures.len() < requests.len(),
    ensures
        LivenessView::fresh(requests).after_failures(failures).next() == LivenessNext::Attempt(
            requests[failures.len() as int],
        ),
        LivenessView::fresh(requests).after_failures(failures).after(
            Ok::<(u16, Seq<char>), Seq<char>>((status, body)),
        ).next() == LivenessNext::Reached(status),
{
    lemma_liveness_failures(requests, failures);
}

/// Where every candidate fails to complete, the run ends as unreachable with
/// the last transport error.
pub proof fn lemma_liveness_exhausted(requests: Seq<RequestView>, failures: Seq<Seq<char>>)
    requires
        failures.len() == requests.len(),
        requests.len() > 0,
    ensures
        LivenessView::fresh(requests).after_failures(failures).next() == LivenessNext::Unreachable(
            ApiFailure::Connectivity(failures.last()),
        ),
{
    lemma_liveness_failures(requests, failures);
}

/// A run of liveness checks against one server.
pub struct LivenessProbe {
    requests: Vec<Request>,
    failed: usize,
    last_error: Option<String>,
    reached: Option<u16>,
}

impl View for LivenessProbe {
    type V = LivenessView;

    closed spec fn view(&self) -> LivenessView {
        LivenessView {
            requests: views(self.requests@),
            failed: self.failed as nat,
            last_error: owned_text_view(self.last_error),
            reached: self.reached,
        }
    }
}

/// What a liveness probe asks its caller to do.
pub enum LivenessStep<'a> {
    /// Send this request and record the outcome.
    Attempt(&'a Request),
    /// The server was reached and answered with this status.
    Reached(u16),
    /// Every candidate failed to complete.
    Unreachable(ApiError),
}

impl<'a> View for LivenessStep<'a> {
    type V = LivenessNext;

    open spec fn view(&self) -> LivenessNext {
        match self {
            LivenessStep::Attempt(request) => LivenessNext::Attempt(request@),
            LivenessStep::Reached(status) => LivenessNext::Reached(*status),
            LivenessStep::Unreachable(e) => LivenessNext::Unreachable(e@),
        }
    }
}

impl LivenessProbe {
    /// What to do next.
    pub fn step(&self) -> (r: LivenessStep<'_>)
        ensures
            r@ == self@.next(),
    {
        match self.reached {
            Some(status) => LivenessStep::Reached(status),
            None => {
                if self.failed < self.requests.len() {
                    LivenessStep::Attempt(&self.requests[self.failed])
                } else {
                    let message = match &self.last_error {
                        Some(m) => m.clone(),
                        None => "Failed to reach any endpoint".to_owned(),
                    };
                    LivenessStep::Unreachable(ApiError::Connectivity(message))
                }
            },
        }
    }

    /// Takes the outcome of the request that `step` asked for.
    pub fn record(&mut self, outcome: Result<Response, String>)
        ensures
            final(self)@ == old(self)@.after(outcome_view(outcome)),
    {
        if self.reached.is_none() && self.failed < self.requests.len() {
            match outcome {
                Ok(response) => {
                    self.reached = Some(response.status);
                },
                Err(message) => {
                    self.failed = self.failed + 1;
                    self.last_error = Some(message);
                },
            }
        }
    }
}

/// The addresses of the liveness candidates: the versioned ping path, the
/// unversioned one, and the origin itself.
pub open spec fn ping_urls(base_url: Seq<char>) -> Seq<Seq<char>> {
    seq![api_root(base_url) + "/v1/ping"@, api_root(base_url) + "/ping"@, origin(base_url)]
}

/// The liveness candidates: a `GET` to each address, with the credentials
/// given.
pub open spec fn ping_requests(
    base_url: Seq<char>,
    token: Option<Seq<char>>,
    password: Option<Seq<char>>,
) -> Seq<RequestView> {
    Seq::new(
        ping_urls(base_url).len(),
        |i: int| authorized(bare(Method::Get, ping_urls(base_url)[i]), token, password),
    )
}

/// The names under which an answer may carry the token.
pub open spec fn token_keys() -> Seq<Seq<char>> {
    seq!["token"@, "accessToken"@]
}

/// The first non-empty string under `token`, then `accessToken`.
pub open spec fn token_in(json: Json) -> Option<Seq<char>> {
    json.first_text(token_keys())
}

/// What one login candidate gives: the token, or the message of what it
/// failed with.
pub open spec fn token_outcome(outcome: Result<(u16, Seq<char>), Seq<char>>) -> Result<
    Seq<char>,
    Seq<char>,
> {
    match outcome {
        Err(message) => Err(message),
        Ok((status, body)) => if !success(status) {
            Err(status_message(status))
        } else {
            match decoded(body) {
                Err(message) => Err(message),
                Ok(json) => match token_in(json) {
                    Some(token) => Ok(token),
                    None => Err("Token not found in response"@),
                },
            }
        },
    }
}

/// The state of a token probe: the candidates in the order of trying, how
/// many of them gave no token, what the last of those failed with, and the
/// token, once one was given.
pub struct TokenView {
    pub requests: Seq<RequestView>,
    pub failed: nat,
    pub last_error: Option<Seq<char>>,
    pub token: Option<Seq<char>>,
}

/// What a token probe asks for next.
pub enum TokenNext {
    /// Send this request and record the outcome.
    Attempt(RequestView),
    /// A candidate gave this token.
    Granted(Seq<char>),
    /// No candidate gave a token.
    Refused(ApiFailure),
}

impl TokenView {
    /// The state before any candidate was tried.
    pub open spec fn fresh(requests: Seq<RequestView>) -> TokenView {
        TokenView { requests, failed: 0, last_error: None, token: None }
    }

    /// What the probe asks for in this state.
    pub open spec fn next(self) -> TokenNext {
        match self.token {
            Some(token) => TokenNext::Granted(token),
            None => if self.failed < self.requests.len() {
                TokenNext::Attempt(self.requests[self.failed as int])
            } else {
                TokenNext::Refused(
                    ApiFailure::Auth(
                        match self.last_error {
                            Some(m) => m,
                            None => "Failed to obtain token"@,
                        },
                    ),
                )
            },
        }
    }

    /// The state after what the candidate that was asked for has given: a
    /// token ends the run, a failure leads to the next candidate. A probe
    /// that asked for nothing stays as it is.
    pub open spec fn after(self, given: Result<Seq<char>, Seq<char>>) -> TokenView {
        if self.next() is Attempt {
            match given {
                Ok(token) => TokenView { token: Some(token), ..self },
                Err(message) => TokenView {
                    failed: self.failed + 1,
                    last_error: Some(message),
                    ..self
                },
            }
        } else {
            self
        }
    }

    /// The state after one failure for each of `failures`, in order.
    pub open spec fn after_failures(self, failures: Seq<Seq<char>>) -> TokenView
        decreases failures.len(),
    {
        if failures.len() == 0 {
            self
        } else {
            self.after_failures(failures.drop_last()).after(
                Err::<Seq<char>, Seq<char>>(failures.last()),
            )
        }
    }
}

/// A fresh probe that has seen `failures` candidates fail, no more than it
/// has, has counted them and holds what the last failed with.
pub proof fn lemma_token_failures(requests: Seq<RequestView>, failures: Seq<Seq<char>>)
    requires
        failures.len() <= requests.len(),
    ensures
        TokenView::fresh(requests).after_failures(failures) == (TokenView {
            requests,
            failed: failures.len(),
            last_error: if failures.len() == 0 {
                None
            } else {
                Some(failures.last())
            },
            token: None,
        }),
    decreases failures.len(),
{
    if failures.len() > 0 {
        lemma_token_failures(requests, failures.drop_last());
    }
}

/// The login candidates are tried in order, and the first that gives a token
/// decides; where none does, the run ends with what the last failed with.
pub proof fn lemma_token_order(
    requests: Seq<RequestView>,
    failures: Seq<Seq<char>>,
    token: Seq<char>,
)
    requires
        failures.len() <= requests.len(),
    ensures
        failures.len() < requests.len() ==> TokenView::fresh(requests).after_failures(
            failures,
        ).next() == TokenNext::Attempt(requests[failures.len() as int]),
        failures.len() < requests.len() ==> TokenView::fresh(requests).after_failures(
            failures,
        ).after(Ok::<Seq<char>, Seq<char>>(token)).next() == TokenNext::Granted(token),
        failures.len() == requests.len() && requests.len() > 0 ==> TokenView::fresh(
            requests,
        ).after_failures(failures).next() == TokenNext::Refused(
            ApiFailure::Auth(failures.last()),
        ),
{
    lemma_token_failures(requests, failures);
}

/// A run of logins against one server.
pub struct TokenProbe {
    requests: Vec<Request>,
    failed: usize,
    last_error: Option<String>,
    token: Option<String>,
}

impl View for TokenProbe {
    type V = TokenView;

    closed spec fn view(&self) -> TokenView {
        TokenView {
            requests: views(self.requests@),
            failed: self.failed as nat,
            last_error: owned_text_view(self.last_error),
            token: owned_text_view(self.token),
        }
    }
}

/// What a token probe asks its caller to do.
pub enum TokenStep<'a> {
    /// Send this request and record the outcome.
    Attempt(&'a Request),
    /// A candidate gave this token.
    Granted(String),
    /// No candidate gave a token.
    Refused(ApiError),
}

impl<'a> View for TokenStep<'a> {
    type V = TokenNext;

    open spec fn view(&self) -> TokenNext {
        match self {
            TokenStep::Attempt(request) => TokenNext::Attempt(request@),
            TokenStep::Granted(token) => TokenNext::Granted(token@),
            TokenStep::Refused(e) => TokenNext::Refused(e@),
        }
    }
}

/// The first non-empty string under `token`, then `accessToken`.
pub fn read_token(doc: &Document) -> (r: Option<String>)
    ensures
        owned_text_view(r) == token_in(doc@),
{
    let keys = vec!["token", "accessToken"];
    assert(views(keys@) =~= token_keys());
    match doc.first_text(&keys) {
        Some(token) => Some(token.to_owned()),
        None => None,
    }
}

/// What one login candidate gives: the token, or the message of what it
/// failed with.
pub fn token_of(outcome: Result<Response, String>) -> (r: Result<String, String>)
    ensures
        match r {
            Ok(token) => token_outcome(outcome_view(outcome)) == Ok::<Seq<char>, Seq<char>>(token@),
            Err(message) => token_outcome(outcome_view(outcome)) == Err::<Seq<char>, Seq<char>>(
                message@,
            ),
        },
{
    match outcome {
        Err(message) => Err(message),
        Ok(response) => {
            if !response.is_success() {
                Err(status_text(response.status))
            } else {
                match decode(response.body.as_str()) {
                    Err(message) => Err(message),
                    Ok(doc) => match read_token(&doc) {
                        Some(token) => Ok(token),
                        None => Err("Token not found in response".to_owned()),
                    },
                }
            }
        },
    }
}

impl TokenProbe {
    /// What to do next.
    pub fn step(&self) -> (r: TokenStep<'_>)
        ensures
            r@ == self@.next(),
    {
        match &self.token {
            Some(token) => TokenStep::Granted(token.clone()),
            None => {
                if self.failed < self.requests.len() {
                    TokenStep::Attempt(&self.requests[self.failed])
                } else {
                    let message = match &self.last_error {
                        Some(m) => m.clone(),
                        None => "Failed to obtain token".to_owned(),
                    };
                    TokenStep::Refused(ApiError::Auth(message))
                }
            },
        }
    }

    /// Takes the outcome of the request that `step` asked for.
    pub fn record(&mut self, outcome: Result<Response, String>)
        ensures
            final(self)@ == old(self)@.after(token_outcome(outcome_view(outcome))),
    {
        if self.token.is_none() && self.failed < self.requests.len() {
            match token_of(outcome) {
                Ok(token) => {
                    self.token = Some(token);
                },
                Err(message) => {
                    self.failed = self.failed + 1;
                    self.last_error = Some(message);
                },
            }
        }
    }
}

/// The addresses of the login candidates: two names for the endpoint, each
/// versioned and unversioned, the versioned ones first.
pub open spec fn login_urls(base_url: Seq<char>) -> Seq<Seq<char>> {
    seq![
        api_root(base_url) + "/v1/login"@,
        api_root(base_url) + "/v1/auth"@,
        api_root(base_url) + "/login"@,
        api_root(base_url) + "/auth"@,
    ]
}

/// The login candidates: a `POST` to each address, with the password in a
/// header.
pub open spec fn token_requests(base_url: Seq<char>, password: Seq<char>) -> Seq<RequestView> {
    Seq::new(
        login_urls(base_url).len(),
        |i: int|
            RequestView {
                method: Method::Post,
                url: login_urls(base_url)[i],
                headers: seq![HeaderView { name: "password"@, value: password }],
                body: None,
            },
    )
}

fn login_request(url: String, password: &str) -> (r: Request)
    ensures
        r@ == (RequestView {
            method: Method::Post,
            url: url@,
            headers: seq![HeaderView { name: "password"@, value: password@ }],
            body: None,
        }),
{
    let headers = vec![Header { name: "password".to_owned(), value: password.to_owned() }];
    let r = Request { method: Method::Post, url, headers, body: None };
    assert(r@.headers =~= seq![HeaderView { name: "password"@, value: password@ }]);
    r
}

fn ping_request(url: String, token: Option<&str>, password: Option<&str>) -> (r: Request)
    ensures
        r@ == authorized(bare(Method::Get, url@), text_view(token), text_view(password)),
{
    let request = Request { method: Method::Get, url, headers: Vec::new(), body: None };
    assert(request@.headers =~= Seq::<HeaderView>::empty());
    ApiClient::with_auth(request, token, password)
}

impl ApiClient {
    /// Starts a liveness check of the server at `base_url`: a probe over the
    /// three candidates, none of them tried yet.
    pub fn ping(&self, base_url: &str, token: Option<&str>, password: Option<&str>) -> (r:
        LivenessProbe)
        ensures
            r@ == LivenessView::fresh(
                ping_requests(base_url@, text_view(token), text_view(password)),
            ),
    {
        let root = ApiClient::base_api(base_url);
        let requests = vec![
            ping_request(joined(root.as_str(), "/v1/ping"), token, password),
            ping_request(joined(root.as_str(), "/ping"), token, password),
            ping_request(crate::text::trim_end_matches(base_url, '/').to_owned(), token, password),
        ];
        assert(views(requests@) =~= ping_requests(
            base_url@,
            text_view(token),
            text_view(password),
        ));
        LivenessProbe { requests, failed: 0, last_error: None, reached: None }
    }

    /// Starts the acquisition of a token from the server at `base_url`: a
    /// probe over the four login candidates, none of them tried yet.
    pub fn obtain_token(&self, base_url: &str, password: &str) -> (r: TokenProbe)
        ensures
            r@ == TokenView::fresh(token_requests(base_url@, password@)),
    {
        let root = ApiClient::base_api(base_url);
        let requests = vec![
            login_request(joined(root.as_str(), "/v1/login"), password),
            login_request(joined(root.as_str(), "/v1/auth"), password),
            login_request(joined(root.as_str(), "/login"), password),
            login_request(joined(root.as_str(), "/auth"), password),
        ];
        assert(views(requests@) =~= token_requests(base_url@, password@));
        TokenProbe { requests, failed: 0, last_error: None, token: None }
    }
}

} // verus!
