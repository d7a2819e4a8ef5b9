//! Discord-independent bot core: command parsing, data parsing, formatting and
//! notification bookkeeping, with their contracts.
#![allow(unused_imports)]

pub mod text;
pub mod output;
pub mod motion_request;
pub mod notification;
pub mod runtime;
pub mod storage;
pub mod motion_error;
pub mod motion_project;
pub mod gatya;
pub mod gatya_schedule;
pub mod item;
pub mod schedule;
pub mod sale;
pub mod protocol;
pub mod push;
pub mod maint;
pub mod skd;
pub mod skd_format;
pub mod skd_parse;
pub mod stage;
pub mod ut;
pub mod search;
pub mod tut;

pub use notification::NotificationError;
pub use runtime::{
    DEFAULT_ACTION_QUEUE_CAPACITY, DEFAULT_EVENT_QUEUE_CAPACITY, DEFAULT_HTTP_MAX_CONCURRENCY,
    DEFAULT_HTTP_MAX_RESPONSE_BYTES, MAX_QUEUE_CAPACITY, RuntimeConfig, RuntimeError,
};
pub use storage::StorageConfig;
pub mod store_update;
pub mod settings;
pub mod skd_diff;
pub mod skd_history;
pub mod st;
pub mod eventdata;
pub mod ut_index;
pub mod data_parse;
pub mod session;
pub mod command;
pub mod remote;
