//! What the parts of the agent share: requests to the control plane and their
//! errors.
use vstd::prelude::*;
use vstd::string::*;
use vstd::utf8::encode_utf8;

use crate::delivery::{class_of_status, classify_http_status, ErrorClass};
use crate::text::{
    chars_of, concat, decimal, decimal_of, ends_with, opt_view, str_eq, string_from_chars, trim,
    trimmed,
};

verus! {

/// How the agent names itself to others.
pub fn user_agent(version: &str) -> (r: String)
    ensures
        r@ == "edgepacer-rust/"@ + version@,
{
    concat("edgepacer-rust/", version)
}

/// Whether a character is a hexadecimal digit in lower case.
pub open spec fn is_lower_hex(c: char) -> bool {
    ('0' <= c && c <= '9') || ('a' <= c && c <= 'f')
}

/// Whether a text is a random UUID: five groups of hexadecimal digits with
/// hyphens between them, of version 4 and of the usual variant.
pub open spec fn is_random_uuid(s: Seq<char>) -> bool {
    &&& s.len() == 36
    &&& forall|i: int|
        0 <= i < 36 ==> if i == 8 || i == 13 || i == 18 || i == 23 {
            #[trigger] s[i] == '-'
        } else {
            is_lower_hex(s[i])
        }
    &&& s[14] == '4'
    &&& (s[19] == '8' || s[19] == '9' || s[19] == 'a' || s[19] == 'b')
}

/// A fresh id for a request: `uuid::Uuid::new_v4` written with hyphens. Its form
/// is believed; the digits are random, and nothing is said of them.
#[verifier::external_body]
pub fn new_request_id() -> (r: String)
    ensures
        is_random_uuid(r@),
{
    uuid::Uuid::new_v4().to_string()
}

// ---------------------------------------------------------------------------
// Authorization
// ---------------------------------------------------------------------------

/// Whether a text may stand in a header: it holds no control character but the
/// tab.
pub open spec fn header_text(s: Seq<char>) -> bool {
    forall|i: int|
        0 <= i < s.len() ==> #[trigger] s[i] == '\t' || (s[i] >= ' ' && s[i] != '\u{7f}')
}

/// `reqwest::header::HeaderValue::from_str`: it takes a text unless that holds a
/// control character other than the tab.
#[verifier::external_body]
fn header_accepts(text: &str) -> (r: bool)
    ensures
        r == header_text(text@),
{
    reqwest::header::HeaderValue::from_str(text).is_ok()
}

/// The value of the `Authorization` header for a token, without the white space
/// round it. A token that is blank, or that no header can hold, gives none: the
/// request then goes out without the header.
pub fn bearer_header(token: &str) -> (r: Option<String>)
    ensures
        ({
            let value = "Bearer "@ + trimmed(token@);
            opt_view(r) == if trimmed(token@).len() > 0 && header_text(value) {
                Some(value)
            } else {
                None
            }
        }),
{
    let token = trim(token);
    if token.is_empty() {
        return None;
    }
    let value = concat("Bearer ", token);
    if header_accepts(value.as_str()) {
        Some(value)
    } else {
        None
    }
}

// ---------------------------------------------------------------------------
// The address of the control plane
// ---------------------------------------------------------------------------

/// The scheme and the host of a URL, or why a text is none.
pub uninterp spec fn url_of(raw: Seq<char>) -> Result<
    (Seq<char>, Option<Seq<char>>),
    Seq<char>,
>;

/// `reqwest::Url::parse`, with `scheme` and `host_str` of what it returns, or with
/// the text of its error: the grammar of URLs decides, and the text alone.
#[verifier::external_body]
fn parse_url(raw: &str) -> (r: Result<(String, Option<String>), String>)
    ensures
        match r {
            Ok(url) => url_of(raw@) == Ok::<_, Seq<char>>((url.0@, opt_view(url.1))),
            Err(reason) => url_of(raw@) == Err::<(Seq<char>, Option<Seq<char>>), _>(reason@),
        },
{
    match reqwest::Url::parse(raw) {
        Ok(url) => Ok((url.scheme().to_string(), url.host_str().map(|h| h.to_string()))),
        Err(error) => Err(error.to_string()),
    }
}

/// What is wrong with the address of the control plane.
#[derive(Debug, Clone, Copy, PartialEq, Eq, Structural)]
pub enum UrlError {
    /// It is no URL.
    Unreadable,
    /// It would send tokens over an open line to another machine.
    Insecure,
}

impl UrlError {
    /// What is wrong, in words.
    pub open spec fn text(&self, raw: Seq<char>) -> Seq<char> {
        match self {
            UrlError::Unreadable => match url_of(raw) {
                Ok(_) => ""@,
                Err(reason) => reason,
            },
            UrlError::Insecure => "control-plane URL must use HTTPS except for localhost: "@ + raw,
        }
    }

    /// What is wrong with an address, in words: of one that is no URL, why it is none.
    pub fn message(&self, raw: &str) -> (r: String)
        ensures
            r@ == self.text(raw@),
    {
        match self {
            UrlError::Unreadable => match parse_url(raw) {
                Ok(_) => "".to_owned(),
                Err(reason) => reason,
            },
            UrlError::Insecure => concat(
                "control-plane URL must use HTTPS except for localhost: ",
                raw,
            ),
        }
    }
}

/// Whether a host is this machine.
pub open spec fn loopback_host(host: Seq<char>) -> bool {
    ||| host == "localhost"@
    ||| host == "127.0.0.1"@
    ||| host == "::1"@
    ||| host == "[::1]"@
    ||| ".localhost"@.is_suffix_of(host)
}

/// Whether a host is this machine.
pub fn is_loopback_host(host: &str) -> (r: bool)
    ensures
        r == loopback_host(host@),
{
    str_eq(host, "localhost") || str_eq(host, "127.0.0.1") || str_eq(host, "::1") || str_eq(
        host,
        "[::1]",
    ) || ends_with(host, ".localhost")
}

/// Whether tokens may be sent to a URL with this scheme and host: over TLS, or
/// over an open line to this machine.
pub open spec fn may_carry_tokens(scheme: Seq<char>, host: Option<Seq<char>>) -> bool {
    scheme == "https"@ || (scheme == "http"@ && host is Some && loopback_host(host->0))
}

/// Whether tokens may be sent to a URL with this scheme and host.
pub fn accepts_control_plane(scheme: &str, host: Option<&str>) -> (r: bool)
    ensures
        r == may_carry_tokens(scheme@, crate::text::opt_str_view(host)),
{
    if str_eq(scheme, "https") {
        return true;
    }
    match host {
        Some(host) => str_eq(scheme, "http") && is_loopback_host(host),
        None => false,
    }
}

/// What is wrong with the address of the control plane, if something is.
pub open spec fn url_error(raw: Seq<char>) -> Option<UrlError> {
    match url_of(raw) {
        Ok(url) => if may_carry_tokens(url.0, url.1) {
            None
        } else {
            Some(UrlError::Insecure)
        },
        Err(_) => Some(UrlError::Unreadable),
    }
}

/// Checks the address of the control plane: TLS everywhere but on this machine.
pub fn validate_control_plane_url(raw: &str) -> (r: Result<(), UrlError>)
    ensures
        match r {
            Ok(()) => url_error(raw@) is None,
            Err(e) => url_error(raw@) == Some(e),
        },
{
    match parse_url(raw) {
        Ok((scheme, host)) => {
            let host = match &host {
                Some(host) => Some(host.as_str()),
                None => None,
            };
            if accepts_control_plane(scheme.as_str(), host) {
                Ok(())
            } else {
                Err(UrlError::Insecure)
            }
        },
        Err(_) => Err(UrlError::Unreadable),
    }
}

/// No token ever goes over an open line to another machine.
pub proof fn open_lines_stay_local(raw: Seq<char>)
    requires
        url_error(raw) is None,
    ensures
        url_of(raw) is Ok,
        (url_of(raw)->Ok_0).0 != "https"@ ==> (url_of(raw)->Ok_0).1 is Some && loopback_host(
            (url_of(raw)->Ok_0).1->0,
        ),
{
}

// ---------------------------------------------------------------------------
// Answers
// ---------------------------------------------------------------------------

/// How many characters of an answer are quoted.
pub const MAX_BODY: usize = 256;

/// A text on one line.
pub open spec fn one_line(s: Seq<char>) -> Seq<char> {
    s.map_values(
        |c: char|
            if c == '\n' {
                ' '
            } else {
                c
            },
    )
}

/// An answer as it is quoted: trimmed and on one line. One of too many characters is
/// cut to its first ones, with a note of how many bytes it had.
pub open spec fn quoted_body(body: Seq<char>) -> Seq<char> {
    let s = trimmed(body);
    if s.len() <= MAX_BODY {
        one_line(s)
    } else {
        one_line(s.take(MAX_BODY as int)) + "… ("@ + decimal(encode_utf8(s).len())
            + " bytes total)"@
    }
}

/// An answer of a server, fit to stand in an error message.
pub fn truncate_body(body: &str) -> (r: String)
    ensures
        r@ == quoted_body(body@),
{
    let s = trim(body);
    let bytes = s.as_bytes().len();
    let chars = chars_of(s);
    let n = if chars.len() <= MAX_BODY {
        chars.len()
    } else {
        MAX_BODY
    };
    let ghost cut = s@.take(n as int);
    let mut line: Vec<char> = Vec::new();
    let mut i: usize = 0;
    while i < n
        invariant
            i <= n <= chars@.len(),
            chars@ == s@,
            cut == s@.take(n as int),
            line@ == one_line(cut).take(i as int),
        decreases n - i,
    {
        assert(one_line(cut)[i as int] == if chars@[i as int] == '\n' {
            ' '
        } else {
            chars@[i as int]
        });
        let c = chars[i];
        if c == '\n' {
            line.push(' ');
        } else {
            line.push(c);
        }
        i = i + 1;
        assert(one_line(cut).take(i as int) =~= one_line(cut).take(i - 1).push(
            one_line(cut)[i - 1],
        ));
    }
    assert(one_line(cut).take(i as int) =~= one_line(cut));
    let line = string_from_chars(&line);
    if chars.len() <= MAX_BODY {
        assert(cut =~= s@);
        line
    } else {
        let mut out = concat(line.as_str(), "… (");
        out.append(decimal_of(bytes as u64).as_str());
        out.append(" bytes total)");
        out
    }
}

// ---------------------------------------------------------------------------
// Errors
// ---------------------------------------------------------------------------

/// What can go wrong with a request.
#[derive(Debug)]
pub enum EdgepacerError {
    /// It is worth trying again.
    Retryable(String),
    AuthFailure(String),
    ClientError(String),
    /// The receiver takes no body of this size: the batch has to be cut.
    PayloadTooLarge(String),
    /// An HTTP status other than success.
    Http { status: u16, class: ErrorClass, context: &'static str, body: String },
    ConfigError(String),
    MissingConfig { field: &'static str },
    WireCountTooLarge { field: &'static str, len: usize },
    WireEncode { context: &'static str, source: String },
    WireDecode { context: &'static str, source: String },
    JsonEncode { context: &'static str, source: String },
    InvalidMetricValue { metric: String },
    Other(String),
}

/// The name of a class.
pub open spec fn class_name(class: ErrorClass) -> Seq<char> {
    match class {
        ErrorClass::Retryable => "Retryable"@,
        ErrorClass::NonRetryable => "NonRetryable"@,
        ErrorClass::Auth => "Auth"@,
    }
}

fn name_of_class(class: ErrorClass) -> (r: &'static str)
    ensures
        r@ == class_name(class),
{
    match class {
        ErrorClass::Retryable => "Retryable",
        ErrorClass::NonRetryable => "NonRetryable",
        ErrorClass::Auth => "Auth",
    }
}

impl EdgepacerError {
    /// What went wrong, in words.
    pub open spec fn text(&self) -> Seq<char> {
        match self {
            EdgepacerError::Retryable(s) => "retryable: "@ + s@,
            EdgepacerError::AuthFailure(s) => "authentication failed: "@ + s@,
            EdgepacerError::ClientError(s) => "client error: "@ + s@,
            EdgepacerError::PayloadTooLarge(s) => "payload too large: "@ + s@,
            EdgepacerError::Http { status, class, context, body } => context@ + ": "@ + decimal(
                *status as nat,
            ) + " ("@ + class_name(*class) + ") - "@ + body@,
            EdgepacerError::ConfigError(s) => "config error: "@ + s@,
            EdgepacerError::MissingConfig { field } => "missing required config field: "@ + field@,
            EdgepacerError::WireCountTooLarge { field, len } => field@
                + " count too large for wire u32: "@ + decimal(*len as nat),
            EdgepacerError::WireEncode { context, source } => "failed to encode "@ + context@
                + ": "@ + source@,
            EdgepacerError::WireDecode { context, source } => context@ + ": "@ + source@,
            EdgepacerError::JsonEncode { context, source } => "failed to encode "@ + context@
                + " JSON: "@ + source@,
            EdgepacerError::InvalidMetricValue { metric } => "metric '"@ + metric@
                + "' is not a finite number"@,
            EdgepacerError::Other(s) => s@,
        }
    }

    /// What went wrong, in words.
    pub fn message(&self) -> (r: String)
        ensures
            r@ == self.text(),
    {
        match self {
            EdgepacerError::Retryable(s) => concat("retryable: ", s.as_str()),
            EdgepacerError::AuthFailure(s) => concat("authentication failed: ", s.as_str()),
            EdgepacerError::ClientError(s) => concat("client error: ", s.as_str()),
            EdgepacerError::PayloadTooLarge(s) => concat("payload too large: ", s.as_str()),
            EdgepacerError::Http { status, class, context, body } => {
                let mut out = concat(context, ": ");
                out.append(decimal_of(*status as u64).as_str());
                out.append(" (");
                out.append(name_of_class(*class));
                out.append(") - ");
                out.append(body.as_str());
                out
            },
            EdgepacerError::ConfigError(s) => concat("config error: ", s.as_str()),
            EdgepacerError::MissingConfig { field } => concat(
                "missing required config field: ",
                field,
            ),
            EdgepacerError::WireCountTooLarge { field, len } => {
                let mut out = concat(field, " count too large for wire u32: ");
                out.append(decimal_of(*len as u64).as_str());
                out
            },
            EdgepacerError::WireEncode { context, source } => {
                let mut out = concat("failed to encode ", context);
                out.append(": ");
                out.append(source.as_str());
                out
            },
            EdgepacerError::WireDecode { context, source } => {
                let mut out = concat(context, ": ");
                out.append(source.as_str());
                out
            },
            EdgepacerError::JsonEncode { context, source } => {
                let mut out = concat("failed to encode ", context);
                out.append(" JSON: ");
                out.append(source.as_str());
                out
            },
            EdgepacerError::InvalidMetricValue { metric } => {
                let mut out = concat("metric '", metric.as_str());
                out.append("' is not a finite number");
                out
            },
            EdgepacerError::Other(s) => s.clone(),
        }
    }

    /// Whether the request is worth trying again.
    pub open spec fn retryable(&self) -> bool {
        match self {
            EdgepacerError::Retryable(_) => true,
            EdgepacerError::Http { class, .. } => *class == ErrorClass::Retryable,
            _ => false,
        }
    }

    /// Whether the request is worth trying again.
    #[must_use]
    pub fn is_retryable(&self) -> (r: bool)
        ensures
            r == self.retryable(),
    {
        match self {
            EdgepacerError::Retryable(_) => true,
            EdgepacerError::Http { class, .. } => *class == ErrorClass::Retryable,
            _ => false,
        }
    }

    /// The HTTP status that the error came from, where it came from one.
    #[must_use]
    pub fn http_status(&self) -> (r: Option<u16>)
        ensures
            r == match self {
                EdgepacerError::Http { status, .. } => Some(*status),
                EdgepacerError::PayloadTooLarge(_) => Some(413u16),
                _ => None,
            },
    {
        match self {
            EdgepacerError::Http { status, .. } => Some(*status),
            EdgepacerError::PayloadTooLarge(_) => Some(413),
            _ => None,
        }
    }

    /// The error that an HTTP status is.
    #[must_use]
    pub fn from_http_status(status: u16, context: &'static str, body: &str) -> (r: Self)
        ensures
            r is Http,
            r->status == status,
            r->class == class_of_status(status),
            r->Http_context@ == context@,
            r->body@ == body@,
    {
        EdgepacerError::Http {
            status,
            class: classify_http_status(status),
            context,
            body: body.to_owned(),
        }
    }
}

/// Of the errors that HTTP statuses are, just those of 429 and of 5xx are worth
/// trying again.
pub proof fn rate_limits_and_server_errors_are_retried(e: EdgepacerError)
    requires
        e is Http,
        e->class == class_of_status(e->status),
    ensures
        e.retryable() <==> e->status == 429 || 500 <= e->status <= 599,
{
}

} // verus!
