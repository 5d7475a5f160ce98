//! How a delivery ended, and what that means for reading on and for retrying.
use vstd::prelude::*;

verus! {

/// How an attempt to deliver ended.
#[derive(Debug, Clone, Copy, PartialEq, Eq, Structural)]
pub enum DeliveryResult {
    /// The endpoint confirmed the logs. Only this lets a checkpoint advance.
    Delivered,
    /// The logs stand in the buffer on disk. Reading may go on, but no checkpoint
    /// advances.
    Buffered,
    /// Every retry failed. The logs stay in the buffer, and reading stops.
    Failed,
    /// The buffer is full or the endpoint out of reach. Reading stops until that
    /// is over.
    Blocked,
}

impl DeliveryResult {
    /// Whether more of the source may be read. This says nothing of checkpoints.
    pub fn allows_source_read(&self) -> (r: bool)
        ensures
            r == (*self == DeliveryResult::Delivered || *self == DeliveryResult::Buffered),
    {
        match self {
            DeliveryResult::Delivered => true,
            DeliveryResult::Buffered => true,
            DeliveryResult::Failed => false,
            DeliveryResult::Blocked => false,
        }
    }
}

/// What to do about an error.
#[derive(Debug, Clone, Copy, PartialEq, Eq, Structural)]
pub enum ErrorClass {
    /// Try again later.
    Retryable,
    /// Trying again is no use.
    NonRetryable,
    /// Get another token, then try again.
    Auth,
}

/// The class of an HTTP status: 401 and 403 ask for another token, 429 and every
/// 5xx for another try, and nothing else is worth retrying.
pub open spec fn class_of_status(status: u16) -> ErrorClass {
    if status == 401 || status == 403 {
        ErrorClass::Auth
    } else if status == 429 || 500 <= status <= 599 {
        ErrorClass::Retryable
    } else {
        ErrorClass::NonRetryable
    }
}

/// The class of an HTTP status.
pub fn classify_http_status(status: u16) -> (r: ErrorClass)
    ensures
        r == class_of_status(status),
{
    match status {
        401 | 403 => ErrorClass::Auth,
        429 => ErrorClass::Retryable,
        400..=499 => ErrorClass::NonRetryable,
        500..=599 => ErrorClass::Retryable,
        _ => ErrorClass::NonRetryable,
    }
}

} // verus!
