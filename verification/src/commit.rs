//! Commit messages as the changelog engine understands them.

pub mod message;

use vstd::prelude::*;

use crate::commit::message::Addition;

verus! {

/// One commit message, normalized: its title, its recognized commit type,
/// its body, the breaking-change information, and the issue references that
/// were stripped out of the title.
#[derive(Debug, Clone, PartialEq, Eq)]
pub struct Message {
    /// The single title line, issue references removed.
    pub title: String,
    /// The normalized commit type, when the message is conventional.
    pub kind: Option<&'static str>,
    /// The message body, if any.
    pub body: Option<String>,
    /// Whether the commit declares a breaking change.
    pub breaking: bool,
    /// The breaking-change explanation, when it differs from the title.
    pub breaking_description: Option<String>,
    /// The issue references stripped from the title, in order found.
    pub additions: Vec<Addition>,
}

} // verus!
