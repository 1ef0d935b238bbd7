//! Records about messages.

use crate::types::jid::JID;
use vstd::prelude::*;
use vstd::string::*;

verus! {

/// Who sent a message, and where.
#[derive(Debug)]
pub struct MessageSource {
    /// The chat where the message was sent.
    pub chat: JID,
    /// The user who sent the message.
    pub sender: JID,
    /// Whether the message was sent by the current user.
    pub is_from_me: bool,
    /// Whether the chat is a group chat or a broadcast list.
    pub is_group: bool,
    /// For a read receipt to a message of a broadcast list: who receives
    /// the receipt.
    pub broadcast_list_owner: Option<JID>,
}

impl MessageSource {
    /// Whether the message came through a broadcast list and not straight
    /// to the user.
    pub fn is_incoming_broadcast(&self) -> (incoming: bool)
        ensures
            incoming == ((!self.is_from_me || self.broadcast_list_owner is Some)
                && self.chat.server@ == crate::types::jid::BROADCAST_SERVER@ && self.chat.user@
                != "status"@),
    {
        (!self.is_from_me || self.broadcast_list_owner.is_some()) && self.chat.is_broadcast_list()
    }

    /// Who sent the message and where, for logs: the chat alone where the
    /// sender is the chat, `sender in chat` else.
    pub fn source_string(&self) -> (text: String)
        ensures
            text@ == if self.sender@ == self.chat@ {
                self.chat@.text()
            } else {
                self.sender@.text() + " in "@ + self.chat@.text()
            },
    {
        if self.sender == self.chat {
            self.chat.to_string()
        } else {
            let mut text = self.sender.to_string();
            text.append(" in ");
            text.append(self.chat.to_string().as_str());
            text
        }
    }
}

/// What is known of a message that another device of the user sent.
#[derive(Debug)]
pub struct DeviceSentMeta {
    /// The user to whom the message went.
    pub destination_jid: String,
    pub phash: String,
}

} // verus!
