//! The conversations page.

pub mod direct;
pub mod list;

use vstd::prelude::*;

use crate::api::login::Username;
use crate::api::{Content, Root};

verus! {

/// The page of conversations, with the conversation that is open on it.
#[derive(Default)]
pub struct MessagesPage {
    pub selected: Option<String>,
}

/// The conversations page with no conversation open.
pub fn get_conversations(_username: Username) -> (page: Root)
    ensures
        page.content matches Content::Messages(messages) && messages.selected is None,
{
    Root { content: Content::Messages(MessagesPage { selected: None }) }
}

} // verus!
