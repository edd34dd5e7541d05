//! The SSH keepalive preference: the interval between keepalive messages,
//! in seconds, where 0 switches them off.
use vstd::prelude::*;
use crate::text::{chars_of, parse_u64, parse_u64_spec, trim_chars, trimmed};

verus! {

broadcast use vstd::string::group_string_axioms;

pub const DEFAULT_SSH_KEEPALIVE_INTERVAL: u64 = 30;
pub const MAX_SSH_KEEPALIVE_INTERVAL: u64 = 86_400;

/// Why a keepalive setting was refused.
#[derive(Debug, Clone, Copy, PartialEq, Eq, Structural)]
pub enum PreferenceError {
    KeepaliveNotNumber,
    KeepaliveOutOfRange,
}

impl PreferenceError {
    /// The explanation shown to the user, as text.
    pub open spec fn explanation(&self) -> Seq<char> {
        match self {
            PreferenceError::KeepaliveNotNumber => "Enter the SSH keepalive interval in seconds."@,
            PreferenceError::KeepaliveOutOfRange => "SSH keepalive interval must be between 0 and 86400 seconds."@,
        }
    }

    /// The explanation shown to the user.
    pub fn message(&self) -> (text: &'static str)
        ensures
            text@ == self.explanation(),
    {
        match self {
            PreferenceError::KeepaliveNotNumber => "Enter the SSH keepalive interval in seconds.",
            PreferenceError::KeepaliveOutOfRange => "SSH keepalive interval must be between 0 and 86400 seconds.",
        }
    }
}

/// The interval a stored preference gives: the stored one when it is within
/// range, the default otherwise.
pub fn stored_keepalive(stored: Option<u64>) -> (interval: u64)
    ensures
        interval == match stored {
            Some(v) => if v <= MAX_SSH_KEEPALIVE_INTERVAL { v } else { DEFAULT_SSH_KEEPALIVE_INTERVAL },
            None => DEFAULT_SSH_KEEPALIVE_INTERVAL,
        },
        interval <= MAX_SSH_KEEPALIVE_INTERVAL,
{
    match stored {
        Some(v) => if v <= MAX_SSH_KEEPALIVE_INTERVAL {
            v
        } else {
            DEFAULT_SSH_KEEPALIVE_INTERVAL
        },
        None => DEFAULT_SSH_KEEPALIVE_INTERVAL,
    }
}

/// The interval a window starts with: the stored preference's when the
/// settings file could be read (`Some`, holding what it stores), the default
/// when it could not.
pub fn loaded_keepalive(read: Option<Option<u64>>) -> (interval: u64)
    ensures
        interval == match read {
            Some(Some(v)) => if v <= MAX_SSH_KEEPALIVE_INTERVAL { v } else { DEFAULT_SSH_KEEPALIVE_INTERVAL },
            _ => DEFAULT_SSH_KEEPALIVE_INTERVAL,
        },
{
    match read {
        Some(stored) => stored_keepalive(stored),
        None => DEFAULT_SSH_KEEPALIVE_INTERVAL,
    }
}

/// The interval typed into the settings form: the trimmed text as a whole
/// number of seconds.
pub fn parse_keepalive(text: &str) -> (interval: Result<u64, PreferenceError>)
    ensures
        interval == match parse_u64_spec(trimmed(text@)) {
            Some(v) => Ok(v),
            None => Err(PreferenceError::KeepaliveNotNumber),
        },
{
    let chars = chars_of(text);
    let t = trim_chars(chars.as_slice());
    match parse_u64(t.as_slice()) {
        Some(v) => Ok(v),
        None => Err(PreferenceError::KeepaliveNotNumber),
    }
}

/// An interval can be saved when it is at most a day.
pub fn check_keepalive(interval: u64) -> (checked: Result<(), PreferenceError>)
    ensures
        checked == if interval <= MAX_SSH_KEEPALIVE_INTERVAL {
            Ok(())
        } else {
            Err(PreferenceError::KeepaliveOutOfRange)
        },
{
    if interval <= MAX_SSH_KEEPALIVE_INTERVAL {
        Ok(())
    } else {
        Err(PreferenceError::KeepaliveOutOfRange)
    }
}

} // verus!
