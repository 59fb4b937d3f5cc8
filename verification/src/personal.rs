//! Private messages to the bot, which are logged for monitoring.

use vstd::prelude::*;
use crate::chat::IncomingMessage;
use crate::text::opt_string_view;

verus! {

/// The text to log for a message: its text, when it was sent in a private chat.
pub fn handle(msg: &IncomingMessage) -> (r: Option<String>)
    ensures
        opt_string_view(r) == (if msg.is_private {
            opt_string_view(msg.text)
        } else {
            None
        }),
{
    if !msg.is_private {
        return None;
    }
    match &msg.text {
        Some(t) => Some(t.clone()),
        None => None,
    }
}

} // verus!
