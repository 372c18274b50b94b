//! The records that the client hands to its callers.

use vstd::prelude::*;

verus! {

/// A conversation: its identity and its display label.
#[derive(Debug, Clone, PartialEq, Eq)]
pub struct Conversation {
    pub id: String,
    pub name: String,
}

/// The value of a `Conversation`.
pub struct ConversationView {
    pub id: Seq<char>,
    pub name: Seq<char>,
}

impl View for Conversation {
    type V = ConversationView;

    open spec fn view(&self) -> ConversationView {
        ConversationView { id: self.id@, name: self.name@ }
    }
}

/// A message of a conversation.
#[derive(Debug, Clone, PartialEq, Eq)]
pub struct Message {
    pub id: String,
    pub conversation_id: String,
    pub sender: String,
    pub text: String,
    pub timestamp: String,
}

/// The value of a `Message`.
pub struct MessageView {
    pub id: Seq<char>,
    pub conversation_id: Seq<char>,
    pub sender: Seq<char>,
    pub text: Seq<char>,
    pub timestamp: Seq<char>,
}

impl View for Message {
    type V = MessageView;

    open spec fn view(&self) -> MessageView {
        MessageView {
            id: self.id@,
            conversation_id: self.conversation_id@,
            sender: self.sender@,
            text: self.text@,
            timestamp: self.timestamp@,
        }
    }
}

/// A contact to start a conversation with: what to show and where to send.
#[derive(Debug, Clone, PartialEq, Eq)]
pub struct ContactEntry {
    pub label: String,
    pub address: String,
}

/// The value of a `ContactEntry`.
pub struct ContactEntryView {
    pub label: Seq<char>,
    pub address: Seq<char>,
}

impl View for ContactEntry {
    type V = ContactEntryView;

    open spec fn view(&self) -> ContactEntryView {
        ContactEntryView { label: self.label@, address: self.address@ }
    }
}

} // verus!
