//! Chat messages of the overlay messaging page: sender, content and a
//! Unix timestamp, with their log rendering.

use crate::entropy::unix_time_secs;
use crate::textutil::{dec_chars, u64_to_string};
use vstd::prelude::*;
use vstd::string::StringExecFns;

verus! {

/// One chat message.
pub struct ChatMessage {
    pub sender: String,
    pub content: String,
    pub timestamp: u64,
}

impl ChatMessage {
    /// A message stamped with the current Unix time.
    pub fn new(sender: &str, content: &str) -> (r: ChatMessage)
        ensures
            r.sender@ == sender@,
            r.content@ == content@,
    {
        ChatMessage {
            sender: sender.to_owned(),
            content: content.to_owned(),
            timestamp: unix_time_secs(),
        }
    }

    /// The message as a log line: "[timestamp] sender: content".
    pub fn format(&self) -> (r: String)
        ensures
            r@ == "["@ + dec_chars(self.timestamp as nat) + "] "@ + self.sender@ + ": "@
                + self.content@,
    {
        let mut r = String::from_str("[");
        let ts = u64_to_string(self.timestamp);
        r.append(ts.as_str());
        r.append("] ");
        r.append(self.sender.as_str());
        r.append(": ");
        r.append(self.content.as_str());
        r
    }
}

} // verus!
