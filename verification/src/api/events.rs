//! Events that the server pushes to the client.

use crate::document::{Document, Json};
use vstd::prelude::*;

verus! {

/// An event as it arrives: its kind and its payload.
#[derive(Debug, PartialEq)]
pub struct IncomingEvent {
    pub event_type: String,
    pub data: Document,
}

/// The value of an `IncomingEvent`.
pub struct IncomingEventView {
    pub event_type: Seq<char>,
    pub data: Json,
}

impl View for IncomingEvent {
    type V = IncomingEventView;

    open spec fn view(&self) -> IncomingEventView {
        IncomingEventView { event_type: self.event_type@, data: self.data@ }
    }
}

} // verus!
