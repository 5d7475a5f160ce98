//! How the agent gets and keeps its tokens.
use vstd::prelude::*;
use vstd::string::*;

use crate::common::EdgepacerError;
use crate::config::app::AppConfig;
use crate::delivery::ErrorClass;
use crate::json::Json;
use crate::text::concat;

verus! {

/// What the control plane answers to an authentication.
#[derive(Debug)]
pub struct AuthResponse {
    pub access_token: String,
    pub refresh_token: String,
    /// How long the access token lasts, in seconds.
    pub expires_in: i64,
    /// The token that a server can register with from now on.
    pub server_bootstrap_token: Option<String>,
    pub telemetry_config: Option<Json>,
}

/// Whether an error says that the token is no good: trying it again is no use.
pub open spec fn refuses_token(error: EdgepacerError) -> bool {
    match error {
        EdgepacerError::AuthFailure(_) => true,
        EdgepacerError::ClientError(_) => true,
        EdgepacerError::PayloadTooLarge(_) => true,
        EdgepacerError::Http { class, .. } => class != ErrorClass::Retryable,
        _ => false,
    }
}

/// Whether an error comes of the configuration.
pub open spec fn blames_config(error: EdgepacerError) -> bool {
    error is ConfigError || error is MissingConfig
}

/// Whether the stored refresh token has to be let go of after an error.
pub fn invalidates_persisted_refresh_token(error: &EdgepacerError) -> (r: bool)
    ensures
        r == refuses_token(*error),
{
    match error {
        EdgepacerError::AuthFailure(_) => true,
        EdgepacerError::ClientError(_) => true,
        EdgepacerError::PayloadTooLarge(_) => true,
        EdgepacerError::Http { class, .. } => *class != ErrorClass::Retryable,
        _ => false,
    }
}

// ---------------------------------------------------------------------------
// The first authentication
// ---------------------------------------------------------------------------

/// What to do after the stored refresh token was tried.
#[derive(Debug)]
pub enum ResumeDecision {
    /// The session goes on; the new refresh token is stored.
    Resumed(AuthResponse),
    /// Register anew. The stored token is let go of if it was refused.
    Bootstrap { forget_refresh_token: bool },
    /// Give up, for the reason given.
    Abort(String),
}

/// What to do after the stored refresh token was tried.
pub fn resume_decision(result: Result<AuthResponse, EdgepacerError>) -> (r: ResumeDecision)
    ensures
        match result {
            Ok(response) => r == ResumeDecision::Resumed(response),
            Err(e) => if refuses_token(e) || e.retryable() {
                r == (ResumeDecision::Bootstrap { forget_refresh_token: refuses_token(e) })
            } else if blames_config(e) {
                r is Abort && r->Abort_0@ == "refresh token config error: "@ + e.text()
            } else {
                r is Abort && r->Abort_0@ == e.text()
            },
        },
{
    let error = match result {
        Ok(response) => {
            return ResumeDecision::Resumed(response);
        },
        Err(error) => error,
    };
    if invalidates_persisted_refresh_token(&error) {
        return ResumeDecision::Bootstrap { forget_refresh_token: true };
    }
    if error.is_retryable() {
        return ResumeDecision::Bootstrap { forget_refresh_token: false };
    }
    let text = error.message();
    match error {
        EdgepacerError::ConfigError(_) => ResumeDecision::Abort(
            concat("refresh token config error: ", text.as_str()),
        ),
        EdgepacerError::MissingConfig { .. } => ResumeDecision::Abort(
            concat("refresh token config error: ", text.as_str()),
        ),
        _ => ResumeDecision::Abort(text),
    }
}

/// What a token is stored under, and the token.
pub open spec fn stored_pair(pair: (String, String)) -> (Seq<char>, Seq<char>) {
    (pair.0@, pair.1@)
}

/// What tokens are stored under, and the tokens.
pub open spec fn stored_pairs(pairs: Seq<(String, String)>) -> Seq<(Seq<char>, Seq<char>)> {
    pairs.map_values(|p: (String, String)| stored_pair(p))
}

/// Adds the refresh token to what has to be stored.
pub fn persist_refresh_token(response: &AuthResponse, to_store: &mut Vec<(String, String)>)
    ensures
        stored_pairs(final(to_store)@) == stored_pairs(old(to_store)@).push(
            ("refresh_token"@, response.refresh_token@),
        ),
{
    let pair = ("refresh_token".to_owned(), response.refresh_token.clone());
    to_store.push(pair);
    assert(stored_pairs(to_store@) =~= stored_pairs(old(to_store)@).push(
        ("refresh_token"@, response.refresh_token@),
    ));
}

/// Adds the token that the server can register with from now on to what has to be
/// stored, where an account's token was used and the answer holds one.
pub fn persist_server_bootstrap_token_if_needed(
    app_config: &AppConfig,
    response: &AuthResponse,
    to_store: &mut Vec<(String, String)>,
)
    ensures
        stored_pairs(final(to_store)@) == if app_config.is_account_token
            && response.server_bootstrap_token is Some {
            stored_pairs(old(to_store)@).push(
                ("server_bootstrap_token"@, response.server_bootstrap_token->0@),
            )
        } else {
            stored_pairs(old(to_store)@)
        },
{
    if !app_config.is_account_token {
        return;
    }
    if let Some(token) = &response.server_bootstrap_token {
        let pair = ("server_bootstrap_token".to_owned(), token.clone());
        to_store.push(pair);
        assert(stored_pairs(to_store@) =~= stored_pairs(old(to_store)@).push(
            ("server_bootstrap_token"@, token@),
        ));
    }
}

/// What has been done towards authentication, and how it ended.
pub enum AuthEvent {
    /// The stored refresh token, if there is one, was read.
    TokenLoaded(Option<String>),
    /// The stored refresh token was tried.
    RefreshTried(Result<AuthResponse, EdgepacerError>),
    /// The bootstrap token was tried.
    ExchangeTried(Result<AuthResponse, EdgepacerError>),
}

/// What authentication does next.
pub enum AuthAction {
    /// Try this refresh token.
    Refresh(String),
    /// Try the bootstrap token.
    Exchange,
    /// The agent is authenticated.
    Finish(AuthResponse),
    /// Give up, for the reason given.
    Fail(String),
}

/// What authentication does next, and what it does to the stored tokens before.
pub struct AuthStep {
    pub action: AuthAction,
    /// The tokens to store, each with what it is stored under.
    pub to_store: Vec<(String, String)>,
    /// Whether the stored refresh token is let go of.
    pub forget_refresh_token: bool,
}

/// The tokens that an answer to the bootstrap token has to be stored.
pub open spec fn tokens_of_exchange(is_account_token: bool, response: AuthResponse) -> Seq<
    (Seq<char>, Seq<char>),
> {
    let refresh = ("refresh_token"@, response.refresh_token@);
    match response.server_bootstrap_token {
        Some(token) => if is_account_token {
            seq![refresh, ("server_bootstrap_token"@, token@)]
        } else {
            seq![refresh]
        },
        None => seq![refresh],
    }
}

/// How many attempts can still follow an action.
pub open spec fn attempts_left(action: AuthAction) -> nat {
    match action {
        AuthAction::Refresh(_) => 2,
        AuthAction::Exchange => 1,
        AuthAction::Finish(_) => 0,
        AuthAction::Fail(_) => 0,
    }
}

/// What authentication does next, after what has happened. A stored refresh token
/// is tried first. Where there is none, or where it did not help, the bootstrap
/// token is; a refresh token that was refused is let go of, one that could not be
/// tried is kept. What an answer holds is stored.
pub fn authenticate(app_config: &AppConfig, event: AuthEvent) -> (r: AuthStep)
    ensures
        attempts_left(r.action) <= match event {
            AuthEvent::TokenLoaded(_) => 2,
            AuthEvent::RefreshTried(_) => 1,
            AuthEvent::ExchangeTried(_) => 0int,
        },
        match event {
            AuthEvent::TokenLoaded(Some(token)) => {
                &&& r.action == AuthAction::Refresh(token)
                &&& stored_pairs(r.to_store@) == Seq::<(Seq<char>, Seq<char>)>::empty()
                &&& !r.forget_refresh_token
            },
            AuthEvent::TokenLoaded(None) => {
                &&& r.action is Exchange
                &&& stored_pairs(r.to_store@) == Seq::<(Seq<char>, Seq<char>)>::empty()
                &&& !r.forget_refresh_token
            },
            AuthEvent::RefreshTried(Ok(response)) => {
                &&& r.action == AuthAction::Finish(response)
                &&& stored_pairs(r.to_store@) == seq![("refresh_token"@, response.refresh_token@)]
                &&& !r.forget_refresh_token
            },
            AuthEvent::RefreshTried(Err(e)) => {
                &&& stored_pairs(r.to_store@) == Seq::<(Seq<char>, Seq<char>)>::empty()
                &&& r.forget_refresh_token == refuses_token(e)
                &&& if refuses_token(e) || e.retryable() {
                    r.action is Exchange
                } else if blames_config(e) {
                    r.action is Fail && r.action->Fail_0@ == "refresh token config error: "@
                        + e.text()
                } else {
                    r.action is Fail && r.action->Fail_0@ == e.text()
                }
            },
            AuthEvent::ExchangeTried(Ok(response)) => {
                &&& r.action == AuthAction::Finish(response)
                &&& stored_pairs(r.to_store@) == tokens_of_exchange(
                    app_config.is_account_token,
                    response,
                )
                &&& !r.forget_refresh_token
            },
            AuthEvent::ExchangeTried(Err(e)) => {
                &&& r.action is Fail
                &&& r.action->Fail_0@ == "authentication failed: "@ + e.text()
                &&& stored_pairs(r.to_store@) == Seq::<(Seq<char>, Seq<char>)>::empty()
                &&& !r.forget_refresh_token
            },
        },
{
    let mut to_store: Vec<(String, String)> = Vec::new();
    assert(stored_pairs(to_store@) =~= seq![]);
    let mut forget_refresh_token = false;
    let action = match event {
        AuthEvent::TokenLoaded(Some(token)) => AuthAction::Refresh(token),
        AuthEvent::TokenLoaded(None) => AuthAction::Exchange,
        AuthEvent::RefreshTried(result) => match resume_decision(result) {
            ResumeDecision::Resumed(response) => {
                persist_refresh_token(&response, &mut to_store);
                AuthAction::Finish(response)
            },
            ResumeDecision::Bootstrap { forget_refresh_token: forget } => {
                forget_refresh_token = forget;
                AuthAction::Exchange
            },
            ResumeDecision::Abort(reason) => AuthAction::Fail(reason),
        },
        AuthEvent::ExchangeTried(Ok(response)) => {
            persist_refresh_token(&response, &mut to_store);
            persist_server_bootstrap_token_if_needed(app_config, &response, &mut to_store);
            assert(stored_pairs(to_store@) =~= tokens_of_exchange(
                app_config.is_account_token,
                response,
            ));
            AuthAction::Finish(response)
        },
        AuthEvent::ExchangeTried(Err(e)) => {
            let text = e.message();
            AuthAction::Fail(concat("authentication failed: ", text.as_str()))
        },
    };
    AuthStep { action, to_store, forget_refresh_token }
}

// ---------------------------------------------------------------------------
// Refreshing
// ---------------------------------------------------------------------------

/// What to do after the access token was refreshed, or could not be.
#[derive(Debug)]
pub enum RefreshDecision {
    /// The new refresh token is stored.
    Refreshed(AuthResponse),
    /// Register anew.
    Reauthenticate,
    /// Try again when the time comes round.
    RetryLater,
}

/// What to do after the access token was refreshed, or could not be. An error that
/// says nothing of the token is handed on.
pub fn refresh_decision(result: Result<AuthResponse, EdgepacerError>) -> (r: Result<
    RefreshDecision,
    EdgepacerError,
>)
    ensures
        match result {
            Ok(response) => r == Ok::<RefreshDecision, EdgepacerError>(
                RefreshDecision::Refreshed(response),
            ),
            Err(e) => if e.retryable() {
                r == Ok::<RefreshDecision, EdgepacerError>(RefreshDecision::RetryLater)
            } else if refuses_token(e) {
                r == Ok::<RefreshDecision, EdgepacerError>(RefreshDecision::Reauthenticate)
            } else {
                r == Err::<RefreshDecision, EdgepacerError>(e)
            },
        },
{
    match result {
        Ok(response) => Ok(RefreshDecision::Refreshed(response)),
        Err(error) => if error.is_retryable() {
            Ok(RefreshDecision::RetryLater)
        } else if invalidates_persisted_refresh_token(&error) {
            Ok(RefreshDecision::Reauthenticate)
        } else {
            Err(error)
        },
    }
}

/// What has been done towards a fresh access token, and how it ended.
pub enum RefreshEvent {
    /// The stored refresh token, if there is one, was read.
    TokenLoaded(Option<String>),
    /// The stored refresh token was tried.
    RefreshTried(Result<AuthResponse, EdgepacerError>),
    /// The bootstrap token was tried.
    ExchangeTried(Result<AuthResponse, EdgepacerError>),
}

/// What a round of refreshing does next.
pub enum RefreshAction {
    /// Try this refresh token.
    Refresh(String),
    /// Try the bootstrap token.
    Exchange,
    /// The round is over. The refresh token to store, if there is a new one.
    Sleep(Option<String>),
    /// The round is over without a token, for the reason given.
    Fail(String),
}

/// What a round of refreshing does next, after what has happened. Without a stored
/// refresh token the round is left out. A refresh token that was refused is given
/// up for the bootstrap token; one that could not be tried waits for the next
/// round. Whatever happens, there is a next round.
pub fn refresh_or_reauthenticate(event: RefreshEvent) -> (r: RefreshAction)
    ensures
        match event {
            RefreshEvent::TokenLoaded(Some(token)) => r == RefreshAction::Refresh(token),
            RefreshEvent::TokenLoaded(None) => r == RefreshAction::Sleep(None),
            RefreshEvent::RefreshTried(Ok(response)) => {
                r is Sleep && r->Sleep_0 is Some && r->Sleep_0->0@ == response.refresh_token@
            },
            RefreshEvent::RefreshTried(Err(e)) => if e.retryable() {
                r == RefreshAction::Sleep(None)
            } else if refuses_token(e) {
                r is Exchange
            } else {
                r is Fail && r->Fail_0@ == e.text()
            },
            RefreshEvent::ExchangeTried(Ok(response)) => {
                r is Sleep && r->Sleep_0 is Some && r->Sleep_0->0@ == response.refresh_token@
            },
            RefreshEvent::ExchangeTried(Err(e)) => {
                r is Fail && r->Fail_0@ == "bootstrap re-authentication failed: "@ + e.text()
            },
        },
{
    match event {
        RefreshEvent::TokenLoaded(Some(token)) => RefreshAction::Refresh(token),
        RefreshEvent::TokenLoaded(None) => RefreshAction::Sleep(None),
        RefreshEvent::RefreshTried(result) => match refresh_decision(result) {
            Ok(RefreshDecision::Refreshed(response)) => RefreshAction::Sleep(
                Some(response.refresh_token),
            ),
            Ok(RefreshDecision::Reauthenticate) => RefreshAction::Exchange,
            Ok(RefreshDecision::RetryLater) => RefreshAction::Sleep(None),
            Err(e) => RefreshAction::Fail(e.message()),
        },
        RefreshEvent::ExchangeTried(Ok(response)) => RefreshAction::Sleep(
            Some(response.refresh_token),
        ),
        RefreshEvent::ExchangeTried(Err(e)) => {
            let text = e.message();
            RefreshAction::Fail(concat("bootstrap re-authentication failed: ", text.as_str()))
        },
    }
}

/// Four fifths of a token's life, but a minute at least.
pub open spec fn refresh_wait(expires_in: int) -> int {
    if expires_in * 4 / 5 < 60 {
        60
    } else {
        expires_in * 4 / 5
    }
}

/// How long to wait before the access token is refreshed, in seconds: four fifths
/// of its life, but a minute at least.
pub fn refresh_interval_secs(expires_in: i64) -> (r: u64)
    requires
        0 <= expires_in <= u64::MAX / 4,
    ensures
        r == refresh_wait(expires_in as int),
{
    let secs = expires_in as u64 * 4 / 5;
    if secs < 60 {
        60
    } else {
        secs
    }
}

// ---------------------------------------------------------------------------
// Laws
// ---------------------------------------------------------------------------

/// A token is never let go of for an error that is worth trying again.
pub proof fn transient_errors_keep_the_token(error: EdgepacerError)
    requires
        error.retryable(),
    ensures
        !refuses_token(error),
{
}

/// A token that lasts more than 75 seconds is refreshed before it runs out.
pub proof fn tokens_are_refreshed_in_time(expires_in: int)
    requires
        expires_in > 75,
    ensures
        0 < refresh_wait(expires_in) < expires_in,
{
}

} // verus!
