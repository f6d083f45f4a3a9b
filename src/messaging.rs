//! Requests that a store understands and the responses it gives.

use vstd::prelude::*;
use crate::error::Error;

verus! {

/// A command for the store.
#[derive(Debug, Clone, PartialEq, Eq)]
pub enum Request {
    /// Store a value under a key. Answered with `Response::Okay`.
    SetKey(String, String),
    /// Read the value of a key. Answered with `Response::Text`.
    Get(String),
    /// Remove a key. Answered with `Response::Okay`.
    Delete(String),
    /// Whether a key is stored. Answered with `Response::Boolean`.
    Exists(String),
    /// Add to a counter. Answered with `Response::Number`.
    Increment(String, usize),
    /// Subtract from a counter. Answered with `Response::Number`.
    Decrement(String, usize),
    /// Every key that starts with a prefix. Answered with `Response::TextList`.
    Search(String),
    /// Remove every key. Answered with `Response::Okay`.
    Flush,
    /// Lower the permission tier by one step. Answered with `Response::Okay`.
    DowngradePermission,
}

/// The answer to one request.
#[derive(Debug, Clone, PartialEq, Eq)]
pub enum Response {
    Okay,
    Text(String),
    Number(usize),
    Boolean(bool),
    TextList(Vec<String>),
    Error(Error),
}

} // verus!
