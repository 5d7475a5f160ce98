//! The configuration of the process itself: its arguments and its environment.
use vstd::prelude::*;
use vstd::string::*;

use crate::common::{url_error, validate_control_plane_url, UrlError};
use crate::text::{ascii_lowered, opt_str_view, opt_view, str_eq, to_ascii_lowercase, trim, trimmed};

verus! {

/// The arguments of the process.
#[derive(Debug)]
pub struct Cli {
    /// The agent's key; not needed in local mode.
    pub resource: String,
    /// The URL of the control plane; not needed in local mode.
    pub rails: String,
    /// The token that a server registers with.
    pub server_token: Option<String>,
    /// The token that an account registers its first server with.
    pub account_token: Option<String>,
    /// How often the configuration is asked for, in seconds.
    pub poll_interval: u64,
    pub log_level: String,
    /// The file that says that the agent is ready.
    pub readiness_file: Option<String>,
    /// Whether the configuration comes from a file and nobody is asked.
    pub local_mode: bool,
    /// The file that the configuration comes from in local mode.
    pub directive_file: Option<String>,
    /// Accepted and passed over: an older manager sends it.
    pub host_mode: bool,
    /// Accepted and passed over: an older manager sends it.
    pub log_format: Option<String>,
    /// Accepted and passed over: an older manager sends it.
    pub debug: bool,
}

/// The configuration of the process.
#[derive(Debug)]
pub struct AppConfig {
    pub resource_id: String,
    pub rails_url: String,
    pub token: Option<String>,
    /// Whether the token is that of an account.
    pub is_account_token: bool,
    pub poll_interval_secs: u64,
    pub log_level: String,
    pub readiness_file: Option<String>,
    pub local_mode: bool,
    pub directive_file: Option<String>,
    /// Whether the agent looks after the whole host.
    pub host_mode: bool,
}

/// What is wrong with the arguments or the environment.
#[derive(Debug, Clone, Copy, PartialEq, Eq, Structural)]
pub enum AppConfigError {
    /// There are two tokens.
    BothTokens,
    /// The token of the account is blank.
    EmptyAccountToken,
    /// The token of the server is blank.
    EmptyServerToken,
    /// There is no token.
    NoToken,
    /// The environment neither sets nor clears host mode.
    InvalidHostMode,
    /// The URL of the control plane will not do.
    Url(UrlError),
}

impl AppConfigError {
    /// What is wrong, in words.
    pub open spec fn text(&self, rails_url: Seq<char>) -> Seq<char> {
        match self {
            AppConfigError::BothTokens => "cannot set both account and server bootstrap tokens; use only one of EDGEPACER_ACCOUNT_TOKEN or EDGEPACER_SERVER_TOKEN"@,
            AppConfigError::EmptyAccountToken => "account bootstrap token cannot be empty"@,
            AppConfigError::EmptyServerToken => "server bootstrap token cannot be empty"@,
            AppConfigError::NoToken => "no bootstrap token available; set EDGEPACER_ACCOUNT_TOKEN or EDGEPACER_SERVER_TOKEN, or persist server_bootstrap_token to disk"@,
            AppConfigError::InvalidHostMode => "EDGEPACER_HOST_MODE must be true/false, 1/0, yes/no, or on/off"@,
            AppConfigError::Url(e) => e.text(rails_url),
        }
    }

    /// What is wrong, in words; `rails_url` is the URL of the control plane.
    pub fn message(&self, rails_url: &str) -> (r: String)
        ensures
            r@ == self.text(rails_url@),
    {
        match self {
            AppConfigError::BothTokens => "cannot set both account and server bootstrap tokens; use only one of EDGEPACER_ACCOUNT_TOKEN or EDGEPACER_SERVER_TOKEN".to_owned(),
            AppConfigError::EmptyAccountToken => "account bootstrap token cannot be empty".to_owned(),
            AppConfigError::EmptyServerToken => "server bootstrap token cannot be empty".to_owned(),
            AppConfigError::NoToken => "no bootstrap token available; set EDGEPACER_ACCOUNT_TOKEN or EDGEPACER_SERVER_TOKEN, or persist server_bootstrap_token to disk".to_owned(),
            AppConfigError::InvalidHostMode => "EDGEPACER_HOST_MODE must be true/false, 1/0, yes/no, or on/off".to_owned(),
            AppConfigError::Url(e) => e.message(rails_url),
        }
    }
}

/// A token without the white space round it, unless it is blank.
pub open spec fn some_token(token: Seq<char>) -> Option<Seq<char>> {
    if trimmed(token).len() > 0 {
        Some(trimmed(token))
    } else {
        None
    }
}

/// The token to start with, and whether it is that of an account: the one that is
/// given, else none in local mode, else the one that is stored.
pub open spec fn token_of(cli: Cli, stored: Option<Seq<char>>) -> Result<
    (Option<Seq<char>>, bool),
    AppConfigError,
> {
    if cli.account_token is Some && cli.server_token is Some {
        Err(AppConfigError::BothTokens)
    } else if cli.account_token is Some {
        match some_token(cli.account_token->0@) {
            Some(token) => Ok((Some(token), true)),
            None => Err(AppConfigError::EmptyAccountToken),
        }
    } else if cli.server_token is Some {
        match some_token(cli.server_token->0@) {
            Some(token) => Ok((Some(token), false)),
            None => Err(AppConfigError::EmptyServerToken),
        }
    } else if cli.local_mode {
        Ok((None, false))
    } else if stored is Some && some_token(stored->0) is Some {
        Ok((some_token(stored->0), false))
    } else {
        Err(AppConfigError::NoToken)
    }
}

/// What a text says of host mode, whatever its case.
pub open spec fn host_mode_in(value: Seq<char>) -> Option<bool> {
    let v = ascii_lowered(trimmed(value));
    if v == "1"@ || v == "true"@ || v == "yes"@ || v == "on"@ {
        Some(true)
    } else if v == "0"@ || v == "false"@ || v == "no"@ || v == "off"@ {
        Some(false)
    } else {
        None
    }
}

/// Whether the agent looks after the whole host: yes, unless the environment says
/// otherwise. Nothing comes of a text that says neither.
pub open spec fn host_mode_of(env: Option<Seq<char>>) -> Option<bool> {
    match env {
        Some(value) => if trimmed(value).len() > 0 {
            host_mode_in(trimmed(value))
        } else {
            Some(true)
        },
        None => Some(true),
    }
}

/// What is wrong with the arguments or the environment, if something is: the
/// tokens come first, then host mode, then the URL, which local mode does not
/// need.
pub open spec fn app_error(cli: Cli, stored: Option<Seq<char>>, env: Option<Seq<char>>) -> Option<
    AppConfigError,
> {
    if let Err(e) = token_of(cli, stored) {
        Some(e)
    } else if host_mode_of(env) is None {
        Some(AppConfigError::InvalidHostMode)
    } else if !cli.local_mode && url_error(cli.rails@) is Some {
        Some(AppConfigError::Url(url_error(cli.rails@)->0))
    } else {
        None
    }
}

fn normalize_token(token: &str) -> (r: Option<String>)
    ensures
        opt_view(r) == some_token(token@),
{
    let token = trim(token);
    if token.is_empty() {
        None
    } else {
        Some(token.to_owned())
    }
}

/// The token to start with, and whether it is that of an account.
pub fn resolve_bootstrap_token(cli: &Cli, stored_token: Option<&str>) -> (r: Result<
    (Option<String>, bool),
    AppConfigError,
>)
    ensures
        match r {
            Ok(t) => token_of(*cli, opt_str_view(stored_token)) == Ok::<
                (Option<Seq<char>>, bool),
                AppConfigError,
            >((opt_view(t.0), t.1)),
            Err(e) => token_of(*cli, opt_str_view(stored_token)) == Err::<
                (Option<Seq<char>>, bool),
                AppConfigError,
            >(e),
        },
{
    if cli.account_token.is_some() && cli.server_token.is_some() {
        return Err(AppConfigError::BothTokens);
    }
    if let Some(token) = &cli.account_token {
        return match normalize_token(token.as_str()) {
            Some(token) => Ok((Some(token), true)),
            None => Err(AppConfigError::EmptyAccountToken),
        };
    }
    if let Some(token) = &cli.server_token {
        return match normalize_token(token.as_str()) {
            Some(token) => Ok((Some(token), false)),
            None => Err(AppConfigError::EmptyServerToken),
        };
    }
    if cli.local_mode {
        return Ok((None, false));
    }
    match stored_token {
        Some(token) => match normalize_token(token) {
            Some(token) => Ok((Some(token), false)),
            None => Err(AppConfigError::NoToken),
        },
        None => Err(AppConfigError::NoToken),
    }
}

/// What a text says of host mode.
pub fn parse_host_mode(value: &str) -> (r: Result<bool, AppConfigError>)
    ensures
        r == match host_mode_in(value@) {
            Some(b) => Ok::<bool, AppConfigError>(b),
            None => Err(AppConfigError::InvalidHostMode),
        },
{
    let v = to_ascii_lowercase(trim(value));
    let v = v.as_str();
    if str_eq(v, "1") || str_eq(v, "true") || str_eq(v, "yes") || str_eq(v, "on") {
        Ok(true)
    } else if str_eq(v, "0") || str_eq(v, "false") || str_eq(v, "no") || str_eq(v, "off") {
        Ok(false)
    } else {
        Err(AppConfigError::InvalidHostMode)
    }
}

/// Whether the agent looks after the whole host.
pub fn resolve_host_mode(host_mode_env: Option<&str>) -> (r: Result<bool, AppConfigError>)
    ensures
        r == match host_mode_of(opt_str_view(host_mode_env)) {
            Some(b) => Ok::<bool, AppConfigError>(b),
            None => Err(AppConfigError::InvalidHostMode),
        },
{
    match host_mode_env {
        Some(value) => {
            let value = trim(value);
            if value.is_empty() {
                Ok(true)
            } else {
                parse_host_mode(value)
            }
        },
        None => Ok(true),
    }
}

impl AppConfig {
    /// The configuration that arguments, the stored token and the environment
    /// come to. The flags that an older manager sends change nothing.
    pub fn try_from_with_loader_and_host_mode_env(
        cli: Cli,
        stored_token: Option<&str>,
        host_mode_env: Option<&str>,
    ) -> (r: Result<Self, AppConfigError>)
        ensures
            ({
                let stored = opt_str_view(stored_token);
                let env = opt_str_view(host_mode_env);
                match r {
                    Ok(c) => {
                        &&& app_error(cli, stored, env) is None
                        &&& c.resource_id@ == cli.resource@
                        &&& c.rails_url@ == cli.rails@
                        &&& token_of(cli, stored) == Ok::<
                            (Option<Seq<char>>, bool),
                            AppConfigError,
                        >((opt_view(c.token), c.is_account_token))
                        &&& c.poll_interval_secs == cli.poll_interval
                        &&& c.log_level@ == cli.log_level@
                        &&& opt_view(c.readiness_file) == opt_view(cli.readiness_file)
                        &&& c.local_mode == cli.local_mode
                        &&& opt_view(c.directive_file) == opt_view(cli.directive_file)
                        &&& Some(c.host_mode) == host_mode_of(env)
                    },
                    Err(e) => app_error(cli, stored, env) == Some(e),
                }
            }),
    {
        let (token, is_account_token) = match resolve_bootstrap_token(&cli, stored_token) {
            Ok(t) => t,
            Err(e) => {
                return Err(e);
            },
        };
        let host_mode = match resolve_host_mode(host_mode_env) {
            Ok(b) => b,
            Err(e) => {
                return Err(e);
            },
        };
        if !cli.local_mode {
            if let Err(e) = validate_control_plane_url(cli.rails.as_str()) {
                return Err(AppConfigError::Url(e));
            }
        }
        Ok(
            AppConfig {
                resource_id: cli.resource,
                rails_url: cli.rails,
                token,
                is_account_token,
                poll_interval_secs: cli.poll_interval,
                log_level: cli.log_level,
                readiness_file: cli.readiness_file,
                local_mode: cli.local_mode,
                directive_file: cli.directive_file,
                host_mode,
            },
        )
    }
}

// ---------------------------------------------------------------------------
// Laws
// ---------------------------------------------------------------------------

/// What a new manager and an old one send comes to the same.
pub proof fn older_flags_change_nothing(
    cli: Cli,
    host_mode: bool,
    log_format: Option<String>,
    debug: bool,
    stored: Option<Seq<char>>,
    env: Option<Seq<char>>,
)
    ensures
        ({
            let other = Cli { host_mode, log_format, debug, ..cli };
            &&& token_of(other, stored) == token_of(cli, stored)
            &&& app_error(other, stored, env) == app_error(cli, stored, env)
        }),
{
}

/// No token that is used is blank or has white space round it.
pub proof fn tokens_are_trimmed(cli: Cli, stored: Option<Seq<char>>)
    requires
        token_of(cli, stored) is Ok,
        (token_of(cli, stored)->Ok_0).0 is Some,
    ensures
        (token_of(cli, stored)->Ok_0).0->0.len() > 0,
        exists|raw: Seq<char>| (token_of(cli, stored)->Ok_0).0->0 == #[trigger] trimmed(raw),
{
}

} // verus!
