//! Runtime configuration and the checks made before the runtime starts.
use vstd::prelude::*;

use std::path::PathBuf;

use crate::storage::StorageConfig;

verus! {

pub const DEFAULT_EVENT_QUEUE_CAPACITY: usize = 64;

pub const DEFAULT_ACTION_QUEUE_CAPACITY: usize = 16;

pub const MAX_QUEUE_CAPACITY: usize = 1024;

pub const DEFAULT_HTTP_MAX_CONCURRENCY: usize = 4;

/// Default HTTP request timeout, in nanoseconds (ten seconds).
pub const DEFAULT_HTTP_REQUEST_TIMEOUT_NANOS: u128 = 10_000_000_000;

pub const DEFAULT_HTTP_MAX_RESPONSE_BYTES: usize = 8388608;

pub const MAX_HTTP_CONCURRENCY: usize = 64;

/// Longest accepted HTTP request timeout, in milliseconds.
pub const MAX_HTTP_REQUEST_TIMEOUT_MILLIS: u128 = 120000;

pub const MAX_HTTP_RESPONSE_BYTES: usize = 16777216;

#[verifier::external_type_specification]
#[verifier::external_body]
pub struct ExPathBuf(PathBuf);

pub struct RuntimeConfig {
    pub event_queue_capacity: usize,
    pub action_queue_capacity: usize,
    pub content_directory: PathBuf,
    pub ffmpeg_path: Option<PathBuf>,
    pub http_max_concurrency: usize,
    /// The HTTP request timeout, in nanoseconds.
    pub http_request_timeout_nanos: u128,
    pub http_max_response_bytes: usize,
    pub storage: Option<StorageConfig>,
}

/// `PathBuf::from` on a string slice.
#[verifier::external_body]
fn path_from(value: &str) -> (r: PathBuf) {
    PathBuf::from(value)
}

impl Default for RuntimeConfig {
    /// The defaults: queues of 64 events and 16 actions, content under
    /// `content`, no FFmpeg override, 4 concurrent HTTP requests with a
    /// 10-second timeout and 8 MiB responses, and no storage.
    fn default() -> (r: Self)
        ensures
            r.event_queue_capacity == DEFAULT_EVENT_QUEUE_CAPACITY,
            r.action_queue_capacity == DEFAULT_ACTION_QUEUE_CAPACITY,
            r.ffmpeg_path is None,
            r.http_max_concurrency == DEFAULT_HTTP_MAX_CONCURRENCY,
            r.http_request_timeout_nanos == DEFAULT_HTTP_REQUEST_TIMEOUT_NANOS,
            r.http_max_response_bytes == DEFAULT_HTTP_MAX_RESPONSE_BYTES,
            r.storage is None,
    {
        RuntimeConfig {
            event_queue_capacity: DEFAULT_EVENT_QUEUE_CAPACITY,
            action_queue_capacity: DEFAULT_ACTION_QUEUE_CAPACITY,
            content_directory: path_from("content"),
            ffmpeg_path: None,
            http_max_concurrency: DEFAULT_HTTP_MAX_CONCURRENCY,
            http_request_timeout_nanos: DEFAULT_HTTP_REQUEST_TIMEOUT_NANOS,
            http_max_response_bytes: DEFAULT_HTTP_MAX_RESPONSE_BYTES,
            storage: None,
        }
    }
}

#[derive(Debug)]
pub enum RuntimeError {
    InvalidQueueCapacity { queue: &'static str, capacity: usize, maximum: usize },
    InvalidConfiguration { setting: &'static str, value: u128, maximum: u128 },
    /// An event of another protocol version than the runtime's.
    ProtocolVersion { expected: u32, actual: u32 },
    Content(String),
    CommandRegistration(String),
    Http(String),
    ShuttingDown,
    EventQueueClosed,
    ActionQueueClosed,
    WorkerJoin(String),
    NotificationWorkerJoin(String),
    TaskWorkerJoin(String),
}

/// A queue capacity is accepted when it is between 1 and `MAX_QUEUE_CAPACITY`.
pub fn validate_capacity(queue: &'static str, capacity: usize) -> (r: Result<(), RuntimeError>)
    ensures
        r is Ok <==> 1 <= capacity <= MAX_QUEUE_CAPACITY,
        r matches Err(e) ==> e == (RuntimeError::InvalidQueueCapacity {
            queue,
            capacity,
            maximum: MAX_QUEUE_CAPACITY,
        }),
{
    if 1 <= capacity && capacity <= MAX_QUEUE_CAPACITY {
        return Ok(());
    }
    Err(RuntimeError::InvalidQueueCapacity { queue, capacity, maximum: MAX_QUEUE_CAPACITY })
}

/// A setting is accepted when it is between 1 and its maximum.
pub fn validate_range(setting: &'static str, value: u128, maximum: u128) -> (r: Result<
    (),
    RuntimeError,
>)
    ensures
        r is Ok <==> 1 <= value <= maximum,
        r matches Err(e) ==> e == (RuntimeError::InvalidConfiguration { setting, value, maximum }),
{
    if 1 <= value && value <= maximum {
        return Ok(());
    }
    Err(RuntimeError::InvalidConfiguration { setting, value, maximum })
}

/// The settings are checked in this order, and the first one out of range is
/// reported: event queue, action queue, HTTP concurrency, request timeout (in
/// milliseconds), response size.
pub open spec fn spec_validate_settings(
    event_queue_capacity: usize,
    action_queue_capacity: usize,
    http_max_concurrency: usize,
    timeout_millis: u128,
    http_max_response_bytes: usize,
) -> Result<(), RuntimeError> {
    if !(1 <= event_queue_capacity <= MAX_QUEUE_CAPACITY) {
        Err(RuntimeError::InvalidQueueCapacity {
            queue: "event",
            capacity: event_queue_capacity,
            maximum: MAX_QUEUE_CAPACITY,
        })
    } else if !(1 <= action_queue_capacity <= MAX_QUEUE_CAPACITY) {
        Err(RuntimeError::InvalidQueueCapacity {
            queue: "action",
            capacity: action_queue_capacity,
            maximum: MAX_QUEUE_CAPACITY,
        })
    } else if !(1 <= http_max_concurrency <= MAX_HTTP_CONCURRENCY) {
        Err(RuntimeError::InvalidConfiguration {
            setting: "http max concurrency",
            value: http_max_concurrency as u128,
            maximum: MAX_HTTP_CONCURRENCY as u128,
        })
    } else if !(1 <= timeout_millis <= MAX_HTTP_REQUEST_TIMEOUT_MILLIS) {
        Err(RuntimeError::InvalidConfiguration {
            setting: "HTTP request timeout milliseconds",
            value: timeout_millis,
            maximum: MAX_HTTP_REQUEST_TIMEOUT_MILLIS,
        })
    } else if !(1 <= http_max_response_bytes <= MAX_HTTP_RESPONSE_BYTES) {
        Err(RuntimeError::InvalidConfiguration {
            setting: "HTTP max response bytes",
            value: http_max_response_bytes as u128,
            maximum: MAX_HTTP_RESPONSE_BYTES as u128,
        })
    } else {
        Ok(())
    }
}

/// All the numeric settings are in range.
pub open spec fn settings_valid(
    event_queue_capacity: usize,
    action_queue_capacity: usize,
    http_max_concurrency: usize,
    timeout_millis: u128,
    http_max_response_bytes: usize,
) -> bool {
    &&& 1 <= event_queue_capacity <= MAX_QUEUE_CAPACITY
    &&& 1 <= action_queue_capacity <= MAX_QUEUE_CAPACITY
    &&& 1 <= http_max_concurrency <= MAX_HTTP_CONCURRENCY
    &&& 1 <= timeout_millis <= MAX_HTTP_REQUEST_TIMEOUT_MILLIS
    &&& 1 <= http_max_response_bytes <= MAX_HTTP_RESPONSE_BYTES
}

/// Checks the numeric settings of a runtime configuration and reports the
/// first one out of range.
pub fn validate_settings(
    event_queue_capacity: usize,
    action_queue_capacity: usize,
    http_max_concurrency: usize,
    timeout_millis: u128,
    http_max_response_bytes: usize,
) -> (r: Result<(), RuntimeError>)
    ensures
        r == spec_validate_settings(
            event_queue_capacity,
            action_queue_capacity,
            http_max_concurrency,
            timeout_millis,
            http_max_response_bytes,
        ),
        r is Ok <==> settings_valid(
            event_queue_capacity,
            action_queue_capacity,
            http_max_concurrency,
            timeout_millis,
            http_max_response_bytes,
        ),
{
    validate_capacity("event", event_queue_capacity)?;
    validate_capacity("action", action_queue_capacity)?;
    validate_range("http max concurrency", http_max_concurrency as u128, MAX_HTTP_CONCURRENCY as u128)?;
    validate_range("HTTP request timeout milliseconds", timeout_millis, MAX_HTTP_REQUEST_TIMEOUT_MILLIS)?;
    validate_range("HTTP max response bytes", http_max_response_bytes as u128, MAX_HTTP_RESPONSE_BYTES as u128)?;
    Ok(())
}

impl RuntimeConfig {
    /// Checks the configuration before the runtime starts: the same checks as
    /// `validate_settings`, in the same order, with the timeout taken in
    /// whole milliseconds.
    pub fn validate(&self) -> (r: Result<(), RuntimeError>)
        ensures
            r == spec_validate_settings(
                self.event_queue_capacity,
                self.action_queue_capacity,
                self.http_max_concurrency,
                self.http_request_timeout_nanos / 1_000_000,
                self.http_max_response_bytes,
            ),
            r is Ok <==> settings_valid(
                self.event_queue_capacity,
                self.action_queue_capacity,
                self.http_max_concurrency,
                self.http_request_timeout_nanos / 1_000_000,
                self.http_max_response_bytes,
            ),
    {
        validate_settings(
            self.event_queue_capacity,
            self.action_queue_capacity,
            self.http_max_concurrency,
            self.http_request_timeout_nanos / 1_000_000,
            self.http_max_response_bytes,
        )
    }
}

/// Whether the runtime takes an event: an event of another protocol version
/// is refused first, then every event once the runtime is shutting down.
pub open spec fn spec_admit_event(event_version: u32, expected_version: u32, shutting_down: bool) -> Result<(), RuntimeError> {
    if event_version != expected_version {
        Err(RuntimeError::ProtocolVersion { expected: expected_version, actual: event_version })
    } else if shutting_down {
        Err(RuntimeError::ShuttingDown)
    } else {
        Ok(())
    }
}

pub fn admit_event(event_version: u32, expected_version: u32, shutting_down: bool) -> (r: Result<(), RuntimeError>)
    ensures
        r == spec_admit_event(event_version, expected_version, shutting_down),
{
    if event_version != expected_version {
        return Err(RuntimeError::ProtocolVersion { expected: expected_version, actual: event_version });
    }
    if shutting_down {
        return Err(RuntimeError::ShuttingDown);
    }
    Ok(())
}

/// When the action queue yields nothing more: the end of the actions while
/// the runtime shuts down, else the queue was closed under it.
pub fn action_queue_end(shutting_down: bool) -> (r: Result<(), RuntimeError>)
    ensures
        shutting_down ==> r is Ok,
        !shutting_down ==> r == Err::<(), RuntimeError>(RuntimeError::ActionQueueClosed),
{
    if shutting_down {
        Ok(())
    } else {
        Err(RuntimeError::ActionQueueClosed)
    }
}

} // verus!
