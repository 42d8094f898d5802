//! Progress events and their human-readable message texts.

use vstd::prelude::*;
use vstd::string::*;
use crate::text::{decimal_of, to_decimal};

verus! {

/// One progress event: the outcome of a single probe, or the
/// announcement of the version the selection keeps.
pub enum ProgressEvent {
    FetchedVersion { version: usize, url: String },
    FailedUpdateNumber { url: String },
    EmptyState { url: String },
    FailedRead { url: String },
    FailedConnect { url: String },
    TakingLatest { version: usize },
}

/// The message text of a progress event.
pub open spec fn message_of(e: ProgressEvent) -> Seq<char> {
    match e {
        ProgressEvent::FetchedVersion { version, url } => "FETCHED MIRROR VERSION "@ + decimal_of(
            version as nat,
        ) + ": "@ + url@,
        ProgressEvent::FailedUpdateNumber { url } => "FAILED TO READ MIRROR UPDATE NUMBER: "@
            + url@,
        ProgressEvent::EmptyState { url } => "EMPTY MIRROR STATE: "@ + url@,
        ProgressEvent::FailedRead { url } => "FAILED TO READ STATE: "@ + url@,
        ProgressEvent::FailedConnect { url } => "FAILED TO CONNECT: "@ + url@,
        ProgressEvent::TakingLatest { version } => "TAKING MIRRORS WITH LATEST VERSION: "@
            + decimal_of(version as nat),
    }
}

impl ProgressEvent {
    /// Renders the event as its message text.
    pub fn message(&self) -> (r: String)
        ensures
            r@ == message_of(*self),
    {
        match self {
            ProgressEvent::FetchedVersion { version, url } => {
                let mut s = String::from_str("FETCHED MIRROR VERSION ");
                let num = to_decimal(*version);
                s.append(num.as_str());
                s.append(": ");
                s.append(url.as_str());
                s
            },
            ProgressEvent::FailedUpdateNumber { url } => {
                let mut s = String::from_str("FAILED TO READ MIRROR UPDATE NUMBER: ");
                s.append(url.as_str());
                s
            },
            ProgressEvent::EmptyState { url } => {
                let mut s = String::from_str("EMPTY MIRROR STATE: ");
                s.append(url.as_str());
                s
            },
            ProgressEvent::FailedRead { url } => {
                let mut s = String::from_str("FAILED TO READ STATE: ");
                s.append(url.as_str());
                s
            },
            ProgressEvent::FailedConnect { url } => {
                let mut s = String::from_str("FAILED TO CONNECT: ");
                s.append(url.as_str());
                s
            },
            ProgressEvent::TakingLatest { version } => {
                let mut s = String::from_str("TAKING MIRRORS WITH LATEST VERSION: ");
                let num = to_decimal(*version);
                s.append(num.as_str());
                s
            },
        }
    }
}

} // verus!
