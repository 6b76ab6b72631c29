//! File-change notification: path subscriptions and a bounded queue of
//! events that subscribers poll.

use vstd::prelude::*;

pub mod event;
pub mod watcher;

verus! {

/// Why a call on the notification bus failed.
#[derive(Clone, Copy, Debug, PartialEq, Eq, Structural)]
pub enum NotifyError {
    /// No subscription has the descriptor that was named.
    NotFound,
    /// The bus has no descriptor left to hand out.
    NoMemory,
}

/// A bus with no subscription and no pending event, for the default number
/// of events.
pub fn init() -> (r: Result<watcher::FileWatcher, NotifyError>)
    ensures
        r is Ok,
        r->Ok_0.wf(),
        r->Ok_0@ == watcher::fresh_bus(watcher::DEFAULT_MAX_EVENTS as nat),
{
    Ok(watcher::FileWatcher::new())
}

} // verus!
