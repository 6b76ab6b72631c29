//! Events on files and their kinds.

use vstd::prelude::*;

verus! {

/// The kind of a file event. Each kind has one bit in a subscription mask.
#[derive(Debug, Clone, Copy, PartialEq, Eq, Structural)]
pub enum EventType {
    /// A file or directory came into being.
    Create,
    /// The content of a file changed.
    Modify,
    /// A file or directory went away.
    Delete,
    /// A file was opened or read.
    Access,
}

/// The mask bit of a kind: Create 1, Modify 2, Delete 4, Access 8.
pub open spec fn kind_bit(kind: EventType) -> u32 {
    match kind {
        EventType::Create => 1,
        EventType::Modify => 2,
        EventType::Delete => 4,
        EventType::Access => 8,
    }
}

impl EventType {
    /// The mask bit of this kind.
    pub fn bit(self) -> (r: u32)
        ensures
            r == kind_bit(self),
    {
        match self {
            EventType::Create => 1,
            EventType::Modify => 2,
            EventType::Delete => 4,
            EventType::Access => 8,
        }
    }
}

/// An event on a file.
#[derive(Debug, Clone)]
pub struct NotifyEvent {
    /// What happened.
    pub event_type: EventType,
    /// The path it happened to.
    pub path: String,
    /// When it happened; zero where no clock was read.
    pub timestamp: u64,
}

/// An event as a mathematical value.
pub struct EventView {
    /// What happened.
    pub kind: EventType,
    /// The path it happened to.
    pub path: Seq<char>,
    /// When it happened.
    pub timestamp: u64,
}

impl View for NotifyEvent {
    type V = EventView;

    open spec fn view(&self) -> EventView {
        EventView { kind: self.event_type, path: self.path@, timestamp: self.timestamp }
    }
}

impl NotifyEvent {
    /// An event of kind `event_type` on `path`, with timestamp zero.
    pub fn new(event_type: EventType, path: String) -> (r: Self)
        ensures
            r@ == (EventView { kind: event_type, path: path@, timestamp: 0 }),
    {
        NotifyEvent { event_type, path, timestamp: 0 }
    }
}

} // verus!
