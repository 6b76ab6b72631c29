//! The notification bus: subscriptions by path prefix and event mask, and
//! a bounded first-in first-out queue that drops its oldest event when full.

use vstd::prelude::*;
use vstd::std_specs::iter::IteratorSpec;
use std::collections::{BTreeMap, VecDeque};
use crate::notify::NotifyError;
use crate::notify::event::{NotifyEvent, EventView, kind_bit};

verus! {

/// The descriptor of a subscription.
pub type WatchDescriptor = i32;

/// The number of events a bus holds unless told otherwise.
pub const DEFAULT_MAX_EVENTS: usize = 1024;

/// A subscription.
#[derive(Debug, Clone)]
struct WatchEntry {
    wd: WatchDescriptor,
    path: String,
    mask: u32,
}

/// The notification bus.
pub struct FileWatcher {
    event_queue: VecDeque<NotifyEvent>,
    watches: BTreeMap<WatchDescriptor, WatchEntry>,
    next_wd: WatchDescriptor,
    max_events: usize,
}

/// What a bus holds, as plain mathematical values.
pub struct BusView {
    /// The pending events, oldest first.
    pub queue: Seq<EventView>,
    /// Each subscription's path prefix and mask, by descriptor.
    pub watches: Map<WatchDescriptor, (Seq<char>, u32)>,
    /// The descriptor the next subscription gets.
    pub next_wd: int,
    /// The number of events the queue holds at most.
    pub max_events: nat,
}

/// The validity of a bus: the queue is within its bound, and every
/// descriptor in use is positive and below the next one to be handed out.
pub open spec fn bus_inv(v: BusView) -> bool {
    &&& v.max_events >= 1
    &&& v.queue.len() <= v.max_events
    &&& 1 <= v.next_wd <= i32::MAX
    &&& forall|wd: WatchDescriptor| #[trigger] v.watches.contains_key(wd) ==> 1 <= wd < v.next_wd
}

/// A bus with no subscription and no pending event.
pub open spec fn fresh_bus(max_events: nat) -> BusView {
    BusView { queue: Seq::empty(), watches: Map::empty(), next_wd: 1, max_events }
}

/// The subscription `wd` asks for event `e`: its prefix starts the event's
/// path and its mask has the bit of the event's kind.
pub open spec fn watch_matches(v: BusView, wd: WatchDescriptor, e: EventView) -> bool {
    &&& v.watches.contains_key(wd)
    &&& v.watches[wd].0.is_prefix_of(e.path)
    &&& v.watches[wd].1 & kind_bit(e.kind) != 0
}

/// Some subscription asks for event `e`.
pub open spec fn watched(v: BusView, e: EventView) -> bool {
    exists|wd: WatchDescriptor| watch_matches(v, wd, e)
}

/// The queue after `e` was appended: a full queue drops its oldest event
/// first.
pub open spec fn enqueue(queue: Seq<EventView>, e: EventView, max_events: nat) -> Seq<EventView> {
    if queue.len() >= max_events {
        queue.drop_first().push(e)
    } else {
        queue.push(e)
    }
}

/// The state after `trigger(e)`: the event is queued once if some
/// subscription asks for it, however many do.
pub open spec fn after_trigger(v: BusView, e: EventView) -> BusView {
    if watched(v, e) {
        BusView { queue: enqueue(v.queue, e, v.max_events), ..v }
    } else {
        v
    }
}

/// The number of events that `read_events(max_count)` returns.
pub open spec fn read_count(v: BusView, max_count: usize) -> int {
    if max_count <= v.queue.len() {
        max_count as int
    } else {
        v.queue.len() as int
    }
}

/// The events of a list as mathematical values.
pub open spec fn events(list: Seq<NotifyEvent>) -> Seq<EventView> {
    Seq::new(list.len(), |i: int| list[i]@)
}

/// The subscriptions of a table as mathematical values.
spec fn subscriptions(table: Map<WatchDescriptor, WatchEntry>) -> Map<
    WatchDescriptor,
    (Seq<char>, u32),
> {
    Map::new(
        |wd: WatchDescriptor| table.contains_key(wd),
        |wd: WatchDescriptor| (table[wd].path@, table[wd].mask),
    )
}

/// `str::starts_with` with a string pattern returns true exactly when the
/// pattern is a prefix of the string.
#[verifier::external_body]
fn starts_with(s: &str, prefix: &str) -> (r: bool)
    ensures
        r == prefix@.is_prefix_of(s@),
{
    s.starts_with(prefix)
}

impl View for FileWatcher {
    type V = BusView;

    closed spec fn view(&self) -> BusView {
        BusView {
            queue: events(self.event_queue@),
            watches: subscriptions(self.watches@),
            next_wd: self.next_wd as int,
            max_events: self.max_events as nat,
        }
    }
}

impl FileWatcher {
    /// The bus's state is valid.
    pub open spec fn wf(&self) -> bool {
        bus_inv(self@)
    }

    /// A bus with no subscription and no pending event, for 1024 events.
    pub fn new() -> (r: Self)
        ensures
            r.wf(),
            r@ == fresh_bus(DEFAULT_MAX_EVENTS as nat),
    {
        Self::with_max_events(DEFAULT_MAX_EVENTS)
    }

    /// A bus with no subscription and no pending event, for `max_events`
    /// events.
    pub fn with_max_events(max_events: usize) -> (r: Self)
        requires
            max_events >= 1,
        ensures
            r.wf(),
            r@ == fresh_bus(max_events as nat),
    {
        let r = FileWatcher {
            event_queue: VecDeque::new(),
            watches: BTreeMap::new(),
            next_wd: 1,
            max_events,
        };
        proof {
            assert(r@.queue =~= Seq::<EventView>::empty());
            assert(r@.watches =~= Map::<WatchDescriptor, (Seq<char>, u32)>::empty());
        }
        r
    }

    /// Subscribes to the events on paths that start with `path` and whose
    /// kind has its bit in `mask`. Returns the new descriptor, one above the
    /// last one handed out; no descriptor is handed out twice.
    ///
    /// Fails with `NoMemory`, and changes nothing, once the descriptors are
    /// used up.
    pub fn add_watch(&mut self, path: &str, mask: u32) -> (res: Result<
        WatchDescriptor,
        NotifyError,
    >)
        requires
            old(self).wf(),
        ensures
            final(self).wf(),
            old(self)@.next_wd < i32::MAX ==> res == Ok::<WatchDescriptor, NotifyError>(
                old(self)@.next_wd as i32,
            ) && final(self)@ == (BusView {
                watches: old(self)@.watches.insert(old(self)@.next_wd as i32, (path@, mask)),
                next_wd: old(self)@.next_wd + 1,
                ..old(self)@
            }) && !old(self)@.watches.contains_key(old(self)@.next_wd as i32),
            old(self)@.next_wd >= i32::MAX ==> res == Err::<WatchDescriptor, NotifyError>(
                NotifyError::NoMemory,
            ) && final(self)@ == old(self)@,
    {
        if self.next_wd == i32::MAX {
            return Err(NotifyError::NoMemory);
        }
        let wd = self.next_wd;
        self.next_wd = self.next_wd + 1;
        let entry = WatchEntry { wd, path: path.to_owned(), mask };
        self.watches.insert(wd, entry);
        proof {
            assert(self@.watches =~= old(self)@.watches.insert(wd, (path@, mask)));
        }
        Ok(wd)
    }

    /// Ends the subscription `wd`.
    ///
    /// Fails with `NotFound`, and changes nothing, where no subscription has
    /// that descriptor.
    pub fn remove_watch(&mut self, wd: WatchDescriptor) -> (res: Result<(), NotifyError>)
        requires
            old(self).wf(),
        ensures
            final(self).wf(),
            old(self)@.watches.contains_key(wd) ==> res is Ok && final(self)@ == (BusView {
                watches: old(self)@.watches.remove(wd),
                ..old(self)@
            }),
            !old(self)@.watches.contains_key(wd) ==> res == Err::<(), NotifyError>(
                NotifyError::NotFound,
            ) && final(self)@ == old(self)@,
    {
        let removed = self.watches.remove(&wd);
        proof {
            assert(self@.watches =~= old(self)@.watches.remove(wd));
            if !old(self)@.watches.contains_key(wd) {
                assert(self@.watches =~= old(self)@.watches);
            }
        }
        if removed.is_some() {
            Ok(())
        } else {
            Err(NotifyError::NotFound)
        }
    }

    /// Whether some subscription asks for events of the kind with mask bit
    /// `bit` on `path`.
    fn check_watch(&self, event: &NotifyEvent) -> (r: bool)
        ensures
            r == watched(self@, event@),
    {
        let bit = event.event_type.bit();
        let mut found = false;
        for kv in it: self.watches.iter()
            invariant
                bit == kind_bit(event@.kind),
                it.seq() == self.watches.iter().remaining(),
                found <==> exists|i: int|
                    0 <= i < it.index() && (#[trigger] it.seq()[i]).1.path@.is_prefix_of(
                        event@.path,
                    ) && it.seq()[i].1.mask & bit != 0,
        {
            if starts_with(event.path.as_str(), kv.1.path.as_str()) && kv.1.mask & bit != 0 {
                found = true;
            }
        }
        proof {
            broadcast use vstd::std_specs::btree::group_btree_axioms;

            let all = self.watches.iter().remaining();
            if found {
                let i = choose|i: int|
                    0 <= i < all.len() && (#[trigger] all[i]).1.path@.is_prefix_of(event@.path)
                        && all[i].1.mask & bit != 0;
                assert(self.watches@.contains_key(*all[i].0));
                assert(watch_matches(self@, *all[i].0, event@));
            }
            if watched(self@, event@) {
                let wd = choose|wd: WatchDescriptor| watch_matches(self@, wd, event@);
                let pair = (&wd, &self.watches@[wd]);
                assert(all.contains(pair));
                let i = choose|i: int| 0 <= i < all.len() && all[i] == pair;
                assert(all[i].1.path@.is_prefix_of(event@.path));
            }
        }
        found
    }

    /// Appends `event`; a full queue drops its oldest event first.
    fn enqueue(&mut self, event: NotifyEvent)
        requires
            old(self).wf(),
        ensures
            final(self).wf(),
            final(self)@ == (BusView {
                queue: enqueue(old(self)@.queue, event@, old(self)@.max_events),
                ..old(self)@
            }),
    {
        if self.event_queue.len() >= self.max_events {
            let _ = self.event_queue.pop_front();
        }
        self.event_queue.push_back(event);
        proof {
            assert(self@.queue =~= enqueue(old(self)@.queue, event@, old(self)@.max_events));
        }
    }

    /// Queues `event` if some subscription asks for it.
    pub fn trigger(&mut self, event: NotifyEvent)
        requires
            old(self).wf(),
        ensures
            final(self).wf(),
            final(self)@ == after_trigger(old(self)@, event@),
    {
        if self.check_watch(&event) {
            self.enqueue(event);
        }
    }

    /// Queues `event` whether or not a subscription asks for it.
    pub fn trigger_unchecked(&mut self, event: NotifyEvent)
        requires
            old(self).wf(),
        ensures
            final(self).wf(),
            final(self)@ == (BusView {
                queue: enqueue(old(self)@.queue, event@, old(self)@.max_events),
                ..old(self)@
            }),
    {
        self.enqueue(event);
    }

    /// Takes the oldest `min(max_count, pending)` events off the queue and
    /// returns them, oldest first.
    pub fn read_events(&mut self, max_count: usize) -> (r: Vec<NotifyEvent>)
        requires
            old(self).wf(),
        ensures
            final(self).wf(),
            r@.len() == read_count(old(self)@, max_count),
            r@.len() <= max_count,
            events(r@) == old(self)@.queue.take(read_count(old(self)@, max_count)),
            final(self)@ == (BusView {
                queue: old(self)@.queue.skip(read_count(old(self)@, max_count)),
                ..old(self)@
            }),
            final(self)@.queue.len() == old(self)@.queue.len() - r@.len(),
    {
        let pending = self.event_queue.len();
        let count = if max_count <= pending { max_count } else { pending };
        let mut out: Vec<NotifyEvent> = Vec::new();
        let mut i: usize = 0;
        proof {
            assert(old(self)@.queue.skip(0) =~= old(self)@.queue);
            assert(events(out@) =~= old(self)@.queue.take(0));
        }
        while i < count
            invariant
                i <= count <= old(self)@.queue.len(),
                out@.len() == i,
                events(out@) == old(self)@.queue.take(i as int),
                self@ == (BusView { queue: old(self)@.queue.skip(i as int), ..old(self)@ }),
            decreases count - i,
        {
            let ghost before = self@.queue;
            let ghost list = self.event_queue@;
            let ghost taken = out@;
            assert(list.len() == before.len());
            match self.event_queue.pop_front() {
                Some(e) => {
                    out.push(e);
                    proof {
                        assert(e@ == before[0]);
                        assert forall|j: int| 0 <= j < self@.queue.len() implies self@.queue[j]
                            == old(self)@.queue.skip(i + 1)[j] by {
                            assert(self.event_queue@[j] == list[j + 1]);
                            assert(before[j + 1] == list[j + 1]@);
                        }
                        assert(self@.queue =~= old(self)@.queue.skip(i + 1));
                        assert forall|j: int| 0 <= j < i + 1 implies events(out@)[j] == old(
                            self,
                        )@.queue.take(i + 1)[j] by {
                            if j < i {
                                assert(out@[j] == taken[j]);
                                assert(events(taken)[j] == old(self)@.queue.take(i as int)[j]);
                            }
                        }
                        assert(events(out@) =~= old(self)@.queue.take(i + 1));
                    }
                },
                None => {
                    assert(false);
                },
            }
            i = i + 1;
        }
        out
    }

    /// The number of events waiting to be read.
    pub fn pending_count(&self) -> (r: usize)
        ensures
            r == self@.queue.len(),
    {
        self.event_queue.len()
    }
}

} // verus!
