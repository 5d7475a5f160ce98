use edgepacer::auth_session::{
    authenticate, invalidates_persisted_refresh_token, persist_refresh_token,
    persist_server_bootstrap_token_if_needed, refresh_decision, refresh_interval_secs,
    refresh_or_reauthenticate, resume_decision, AuthAction, AuthEvent, AuthResponse,
    RefreshAction, RefreshDecision, RefreshEvent, ResumeDecision,
};
use edgepacer::common::{
    accepts_control_plane, bearer_header, is_loopback_host, new_request_id, truncate_body,
    user_agent, validate_control_plane_url, EdgepacerError, UrlError,
};
use edgepacer::config::AppConfig;
use edgepacer::delivery::ErrorClass;

#[test]
fn control_plane_url_accepts_https() {
    assert!(validate_control_plane_url("https://app.logpacer.com").is_ok());
}

#[test]
fn control_plane_url_accepts_loopback_http() {
    assert!(validate_control_plane_url("http://localhost:3000").is_ok());
    assert!(validate_control_plane_url("http://127.0.0.1:3000").is_ok());
    assert!(validate_control_plane_url("http://[::1]:3000").is_ok());
}

#[test]
fn control_plane_url_rejects_remote_http() {
    assert!(validate_control_plane_url("http://app.logpacer.com").is_err());
    assert_eq!(
        validate_control_plane_url("http://app.logpacer.com"),
        Err(UrlError::Insecure)
    );
    assert_eq!(
        UrlError::Insecure.message("http://app.logpacer.com"),
        "control-plane URL must use HTTPS except for localhost: http://app.logpacer.com"
    );
}

#[test]
fn what_is_no_url_is_refused() {
    assert_eq!(validate_control_plane_url("not a url"), Err(UrlError::Unreadable));
    assert_eq!(validate_control_plane_url(""), Err(UrlError::Unreadable));
    assert_eq!(UrlError::Unreadable.message("not a url"), "relative URL without a base");
    assert_eq!(UrlError::Unreadable.message("https://"), "empty host");
    assert_eq!(UrlError::Unreadable.message("http://a:port"), "invalid port number");
}

#[test]
fn schemes_and_hosts_are_told_apart() {
    assert!(accepts_control_plane("https", None));
    assert!(accepts_control_plane("http", Some("dev.localhost")));
    assert!(!accepts_control_plane("http", None));
    assert!(!accepts_control_plane("ftp", Some("localhost")));
    assert!(validate_control_plane_url("HTTP://LOCALHOST:1").is_ok());
    assert!(is_loopback_host("[::1]"));
    assert!(!is_loopback_host("localhost.example.com"));
}

#[test]
fn bearer_header_trims_secret_file_newline() {
    let value = bearer_header("token-from-secret\n").unwrap();

    assert_eq!(value, "Bearer token-from-secret");
}

#[test]
fn bearer_header_rejects_blank_token() {
    assert!(bearer_header(" \n\t").is_none());
}

#[test]
fn bearer_header_rejects_what_no_header_can_hold() {
    assert!(bearer_header("to\nken").is_none());
    assert!(bearer_header("to\u{7f}ken").is_none());
    assert_eq!(bearer_header("to\tken").unwrap(), "Bearer to\tken");
}

#[test]
fn http_status_maps_to_retry_semantics() {
    let e = EdgepacerError::from_http_status(429, "ship", "slow down");
    assert!(e.is_retryable());
    assert_eq!(e.http_status(), Some(429));
    assert!(EdgepacerError::from_http_status(503, "ship", "").is_retryable());
    let e = EdgepacerError::from_http_status(401, "ship", "");
    assert!(!e.is_retryable());
    assert_eq!(e.http_status(), Some(401));
    assert!(matches!(e, EdgepacerError::Http { class: ErrorClass::Auth, .. }));
    let e = EdgepacerError::from_http_status(400, "ship", "bad");
    assert!(!e.is_retryable());
    assert_eq!(e.http_status(), Some(400));
}

#[test]
fn errors_read_as_they_should() {
    assert_eq!(
        EdgepacerError::from_http_status(503, "ship", "down").message(),
        "ship: 503 (Retryable) - down"
    );
    assert_eq!(EdgepacerError::Retryable("x".into()).message(), "retryable: x");
    assert_eq!(EdgepacerError::AuthFailure("x".into()).message(), "authentication failed: x");
    assert_eq!(EdgepacerError::ClientError("x".into()).message(), "client error: x");
    assert_eq!(EdgepacerError::PayloadTooLarge("x".into()).message(), "payload too large: x");
    assert_eq!(EdgepacerError::PayloadTooLarge("x".into()).http_status(), Some(413));
    assert_eq!(EdgepacerError::ConfigError("x".into()).message(), "config error: x");
    assert_eq!(
        EdgepacerError::MissingConfig { field: "token" }.message(),
        "missing required config field: token"
    );
    assert_eq!(
        EdgepacerError::WireCountTooLarge { field: "entries", len: 5 }.message(),
        "entries count too large for wire u32: 5"
    );
    assert_eq!(
        EdgepacerError::WireEncode { context: "batch", source: "no room".into() }.message(),
        "failed to encode batch: no room"
    );
    assert_eq!(
        EdgepacerError::WireDecode { context: "reply", source: "cut".into() }.message(),
        "reply: cut"
    );
    assert_eq!(
        EdgepacerError::JsonEncode { context: "batch", source: "nan".into() }.message(),
        "failed to encode batch JSON: nan"
    );
    assert_eq!(
        EdgepacerError::InvalidMetricValue { metric: "cpu".into() }.message(),
        "metric 'cpu' is not a finite number"
    );
    assert_eq!(EdgepacerError::Other("plain".into()).message(), "plain");
}

#[test]
fn the_agent_names_itself() {
    assert_eq!(user_agent("1.2.3"), "edgepacer-rust/1.2.3");
}

#[test]
fn request_ids_are_random_uuids() {
    let a = new_request_id();
    let b = new_request_id();
    assert_ne!(a, b);
    assert_eq!(a.len(), 36);
    assert_eq!(&a[14..15], "4");
    assert_eq!(a.matches('-').count(), 4);
    assert!(a.chars().all(|c| c == '-' || c.is_ascii_digit() || ('a'..='f').contains(&c)));
}

#[test]
fn bodies_are_cut_for_messages() {
    assert_eq!(truncate_body("  short\nbody \n"), "short body");
    let long = "x".repeat(300);
    assert_eq!(truncate_body(&long), format!("{}… (300 bytes total)", "x".repeat(256)));
    let wide = "é".repeat(200);
    assert_eq!(truncate_body(&wide), wide);
    let widest = "é".repeat(256);
    assert_eq!(truncate_body(&format!(" {widest}\n")), widest);
    let wider = "é".repeat(257);
    assert_eq!(truncate_body(&wider), format!("{widest}… (514 bytes total)"));
    assert_eq!(truncate_body(&"y".repeat(256)), "y".repeat(256));
    assert_eq!(truncate_body(&"y".repeat(257)), format!("{}… (257 bytes total)", "y".repeat(256)));
}

// ---------------------------------------------------------------------------
// Sessions
// ---------------------------------------------------------------------------

fn test_app_config(is_account_token: bool) -> AppConfig {
    AppConfig {
        resource_id: "agent-123".into(),
        rails_url: "https://rails.example".into(),
        token: Some("account-token".into()),
        is_account_token,
        poll_interval_secs: 30,
        log_level: "info".into(),
        readiness_file: None,
        local_mode: false,
        directive_file: None,
        host_mode: true,
    }
}

fn auth_response(server_bootstrap_token: Option<&str>) -> AuthResponse {
    AuthResponse {
        access_token: "access".into(),
        refresh_token: "refresh".into(),
        expires_in: 3600,
        server_bootstrap_token: server_bootstrap_token.map(str::to_string),
        telemetry_config: None,
    }
}

fn http(status: u16, class: ErrorClass) -> EdgepacerError {
    EdgepacerError::Http { status, class, context: "token refresh", body: "expired".into() }
}

#[test]
fn persists_server_bootstrap_token_when_account_token_used() {
    let mut persisted = Vec::new();
    persist_server_bootstrap_token_if_needed(
        &test_app_config(true),
        &auth_response(Some("server-bootstrap")),
        &mut persisted,
    );

    assert_eq!(
        persisted,
        vec![("server_bootstrap_token".to_string(), "server-bootstrap".to_string())]
    );
}

#[test]
fn a_server_token_persists_no_bootstrap_token() {
    let mut persisted = Vec::new();
    persist_server_bootstrap_token_if_needed(
        &test_app_config(false),
        &auth_response(Some("server-bootstrap")),
        &mut persisted,
    );
    persist_server_bootstrap_token_if_needed(
        &test_app_config(true),
        &auth_response(None),
        &mut persisted,
    );
    assert!(persisted.is_empty());
    persist_refresh_token(&auth_response(None), &mut persisted);
    assert_eq!(persisted, vec![("refresh_token".to_string(), "refresh".to_string())]);
}

#[test]
fn refresh_decision_reauthenticates_after_auth_failure() {
    let action = refresh_decision(Err(EdgepacerError::AuthFailure("expired".into()))).unwrap();
    assert!(matches!(action, RefreshDecision::Reauthenticate));
}

#[test]
fn only_invalid_refresh_errors_delete_persisted_token() {
    assert!(invalidates_persisted_refresh_token(&EdgepacerError::AuthFailure("expired".into())));
    assert!(invalidates_persisted_refresh_token(&EdgepacerError::ClientError("conflict".into())));
    assert!(invalidates_persisted_refresh_token(&EdgepacerError::Http {
        status: 401,
        class: ErrorClass::Auth,
        context: "refresh token",
        body: "expired".into(),
    }));
    assert!(invalidates_persisted_refresh_token(&EdgepacerError::Http {
        status: 400,
        class: ErrorClass::NonRetryable,
        context: "refresh token",
        body: "bad request".into(),
    }));
    assert!(!invalidates_persisted_refresh_token(&EdgepacerError::Retryable(
        "server error".into()
    )));
    assert!(!invalidates_persisted_refresh_token(&EdgepacerError::Http {
        status: 429,
        class: ErrorClass::Retryable,
        context: "refresh token",
        body: "rate limited".into(),
    }));
}

#[test]
fn refresh_decision_reauthenticates_after_client_error() {
    let action = refresh_decision(Err(EdgepacerError::ClientError("mismatch".into()))).unwrap();
    assert!(matches!(action, RefreshDecision::Reauthenticate));
}

#[test]
fn refresh_decision_reauthenticates_after_auth_http_status() {
    let action = refresh_decision(Err(http(401, ErrorClass::Auth))).unwrap();
    assert!(matches!(action, RefreshDecision::Reauthenticate));
}

#[test]
fn refresh_decision_retries_after_server_error() {
    let action = refresh_decision(Err(EdgepacerError::Retryable("server error".into()))).unwrap();
    assert!(matches!(action, RefreshDecision::RetryLater));
}

#[test]
fn refresh_decision_retries_after_rate_limit_http_status() {
    let action = refresh_decision(Err(EdgepacerError::Http {
        status: 429,
        class: ErrorClass::Retryable,
        context: "token refresh",
        body: "slow down".into(),
    }))
    .unwrap();
    assert!(matches!(action, RefreshDecision::RetryLater));
}

#[test]
fn refresh_retryable_error_waits_for_next_interval() {
    let action = refresh_decision(Err(EdgepacerError::Retryable("network".into()))).unwrap();
    assert!(matches!(action, RefreshDecision::RetryLater));
}

#[test]
fn refresh_decision_surfaces_missing_config() {
    let Err(error) = refresh_decision(Err(EdgepacerError::MissingConfig {
        field: "bootstrap_token",
    })) else {
        panic!("expected missing config to fail refresh decision");
    };

    assert!(error.message().contains("bootstrap_token"));
}

#[test]
fn a_refreshed_token_is_handed_on() {
    let action = refresh_decision(Ok(auth_response(None))).unwrap();
    assert!(matches!(action, RefreshDecision::Refreshed(r) if r.refresh_token == "refresh"));
}

#[test]
fn resuming_falls_back_to_bootstrap() {
    assert!(matches!(
        resume_decision(Ok(auth_response(None))),
        ResumeDecision::Resumed(r) if r.access_token == "access"
    ));
    assert!(matches!(
        resume_decision(Err(http(401, ErrorClass::Auth))),
        ResumeDecision::Bootstrap { forget_refresh_token: true }
    ));
    assert!(matches!(
        resume_decision(Err(http(503, ErrorClass::Retryable))),
        ResumeDecision::Bootstrap { forget_refresh_token: false }
    ));
    assert!(matches!(
        resume_decision(Err(EdgepacerError::ConfigError("bad".into()))),
        ResumeDecision::Abort(text) if text == "refresh token config error: config error: bad"
    ));
    assert!(matches!(
        resume_decision(Err(EdgepacerError::Other("odd".into()))),
        ResumeDecision::Abort(text) if text == "odd"
    ));
}

#[test]
fn tokens_are_refreshed_after_four_fifths_of_their_life() {
    assert_eq!(refresh_interval_secs(3600), 2880);
    assert_eq!(refresh_interval_secs(10), 60);
    assert_eq!(refresh_interval_secs(0), 60);
}

#[test]
fn a_stored_token_is_tried_before_the_bootstrap_token() {
    let config = test_app_config(true);
    let step = authenticate(&config, AuthEvent::TokenLoaded(Some("stored".to_string())));
    assert!(matches!(step.action, AuthAction::Refresh(t) if t == "stored"));
    let step = authenticate(&config, AuthEvent::TokenLoaded(None));
    assert!(matches!(step.action, AuthAction::Exchange));

    let step = authenticate(&config, AuthEvent::RefreshTried(Ok(auth_response(None))));
    assert!(matches!(step.action, AuthAction::Finish(_)));
    assert_eq!(step.to_store, vec![("refresh_token".to_string(), "refresh".to_string())]);

    let refused = EdgepacerError::AuthFailure("expired".into());
    let step = authenticate(&config, AuthEvent::RefreshTried(Err(refused)));
    assert!(matches!(step.action, AuthAction::Exchange));
    assert!(step.forget_refresh_token);

    let step = authenticate(
        &config,
        AuthEvent::RefreshTried(Err(http(503, ErrorClass::Retryable))),
    );
    assert!(matches!(step.action, AuthAction::Exchange));
    assert!(!step.forget_refresh_token);

    let broken = EdgepacerError::ConfigError("bad".into());
    let step = authenticate(&config, AuthEvent::RefreshTried(Err(broken)));
    assert!(matches!(
        step.action,
        AuthAction::Fail(reason) if reason.starts_with("refresh token config error: ")
    ));
}

#[test]
fn what_an_exchange_brings_is_stored() {
    let stored = |account: bool, token: Option<&str>| {
        let step = authenticate(
            &test_app_config(account),
            AuthEvent::ExchangeTried(Ok(auth_response(token))),
        );
        assert!(matches!(step.action, AuthAction::Finish(_)));
        step.to_store
    };
    let refresh = ("refresh_token".to_string(), "refresh".to_string());
    let bootstrap = ("server_bootstrap_token".to_string(), "b".to_string());
    assert_eq!(stored(true, Some("b")), vec![refresh.clone(), bootstrap]);
    assert_eq!(stored(false, Some("b")), vec![refresh.clone()]);
    assert_eq!(stored(true, None), vec![refresh]);

    let failed = authenticate(
        &test_app_config(true),
        AuthEvent::ExchangeTried(Err(EdgepacerError::AuthFailure("no".into()))),
    );
    assert!(matches!(
        failed.action,
        AuthAction::Fail(reason) if reason.starts_with("authentication failed: ")
    ));
    assert!(failed.to_store.is_empty());
}

#[test]
fn rounds_of_refreshing_go_on() {
    assert!(matches!(
        refresh_or_reauthenticate(RefreshEvent::TokenLoaded(None)),
        RefreshAction::Sleep(None)
    ));
    assert!(matches!(
        refresh_or_reauthenticate(RefreshEvent::TokenLoaded(Some("t".to_string()))),
        RefreshAction::Refresh(t) if t == "t"
    ));
    assert!(matches!(
        refresh_or_reauthenticate(RefreshEvent::RefreshTried(Ok(auth_response(None)))),
        RefreshAction::Sleep(Some(t)) if t == "refresh"
    ));
    assert!(matches!(
        refresh_or_reauthenticate(RefreshEvent::RefreshTried(Err(http(401, ErrorClass::Auth)))),
        RefreshAction::Exchange
    ));
    assert!(matches!(
        refresh_or_reauthenticate(RefreshEvent::RefreshTried(Err(http(429, ErrorClass::Retryable)))),
        RefreshAction::Sleep(None)
    ));
    assert!(matches!(
        refresh_or_reauthenticate(RefreshEvent::ExchangeTried(Err(EdgepacerError::AuthFailure(
            "no".into()
        )))),
        RefreshAction::Fail(reason) if reason.starts_with("bootstrap re-authentication failed: ")
    ));
}
