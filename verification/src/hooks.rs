//! The hooks around file operations.
//!
//! The file system itself is outside this library. The caller performs each
//! operation on it and hands the outcome to the hook of that operation,
//! which updates the cache and publishes events on success and does nothing
//! on failure: the error goes back to the caller as it came.

use vstd::prelude::*;
use crate::cache::arc_cache::{ARCache, copy_bytes};
use crate::cache::arc_model::{ArcView, after_get, after_put, after_invalidate, get_result};
use crate::notify::event::{EventType, NotifyEvent, EventView};
use crate::notify::watcher::{FileWatcher, BusView, after_trigger, fresh_bus, DEFAULT_MAX_EVENTS};

verus! {

/// The cache and the notification bus that the hooks work on.
pub struct UnfoundFs {
    /// The cache of file contents, by path.
    pub cache: ARCache,
    /// The bus that file events go to.
    pub watcher: FileWatcher,
}

/// What the hook layer holds, as plain mathematical values.
pub struct FsView {
    /// The cache of file contents.
    pub cache: ArcView,
    /// The notification bus.
    pub bus: BusView,
}

/// The event of kind `kind` on `path` that a hook publishes.
pub open spec fn hook_event(kind: EventType, path: Seq<char>) -> EventView {
    EventView { kind, path, timestamp: 0 }
}

/// The state after an event of kind `kind` on `path` was published.
pub open spec fn published(v: FsView, kind: EventType, path: Seq<char>) -> FsView {
    FsView { bus: after_trigger(v.bus, hook_event(kind, path)), ..v }
}

/// The state after the cache was asked for `path`: a hit publishes `Access`.
pub open spec fn after_cached_read(v: FsView, path: Seq<char>) -> FsView {
    let looked = FsView { cache: after_get(v.cache, path), ..v };
    if get_result(v.cache, path) is Some {
        published(looked, EventType::Access, path)
    } else {
        looked
    }
}

/// The state after `bytes` were read from the file system for `path`.
pub open spec fn after_read(v: FsView, path: Seq<char>, bytes: Seq<u8>) -> FsView {
    published(FsView { cache: after_put(v.cache, path, bytes), ..v }, EventType::Access, path)
}

/// The state after `data` was written to `path`, which existed before or
/// did not.
pub open spec fn after_write(v: FsView, path: Seq<char>, data: Seq<u8>, existed: bool) -> FsView {
    let created = if existed {
        v
    } else {
        published(v, EventType::Create, path)
    };
    published(
        FsView { cache: after_put(created.cache, path, data), ..created },
        EventType::Modify,
        path,
    )
}

/// The state after the file `path` was removed.
pub open spec fn after_remove_file(v: FsView, path: Seq<char>) -> FsView {
    published(FsView { cache: after_invalidate(v.cache, path), ..v }, EventType::Delete, path)
}

/// The state after `from` was renamed to `to`.
pub open spec fn after_rename(v: FsView, from: Seq<char>, to: Seq<char>) -> FsView {
    published(published(v, EventType::Delete, from), EventType::Create, to)
}

/// Something whose accesses and changes are published: it knows its path.
pub trait Watched {
    /// The path of the item.
    fn path(&self) -> &str;
}

impl View for UnfoundFs {
    type V = FsView;

    open spec fn view(&self) -> FsView {
        FsView { cache: self.cache@, bus: self.watcher@ }
    }
}

impl UnfoundFs {
    /// Both parts are valid.
    pub open spec fn wf(&self) -> bool {
        self.cache.wf() && self.watcher.wf()
    }

    /// A hook layer with an empty cache for `cache_pages` entries and a bus
    /// with no subscription.
    pub fn init(cache_pages: usize) -> (r: Result<Self, &'static str>)
        ensures
            r is Ok,
            r->Ok_0.wf(),
            r->Ok_0@.cache == crate::cache::arc_model::empty_cache(cache_pages as nat),
            r->Ok_0@.bus == fresh_bus(DEFAULT_MAX_EVENTS as nat),
    {
        Ok(UnfoundFs { cache: ARCache::new(cache_pages), watcher: FileWatcher::new() })
    }

    /// The notification bus.
    pub fn get_unotify_watcher(&self) -> (r: &FileWatcher)
        ensures
            r == &self.watcher,
    {
        &self.watcher
    }

    /// The cache.
    pub fn get_ucache(&self) -> (r: &ARCache)
        ensures
            r == &self.cache,
    {
        &self.cache
    }

    /// Publishes an event of kind `event_type` on `path`.
    pub fn trigger_event(&mut self, event_type: EventType, path: &str)
        requires
            old(self).wf(),
        ensures
            final(self).wf(),
            final(self)@ == published(old(self)@, event_type, path@),
    {
        let event = NotifyEvent::new(event_type, path.to_owned());
        self.watcher.trigger(event);
    }

    /// Publishes `Access` on the path that `item` gives.
    pub fn on_access<T: Watched>(&mut self, item: &T)
        requires
            old(self).wf(),
        ensures
            final(self).wf(),
            exists|path: Seq<char>|
                final(self)@ == published(old(self)@, EventType::Access, path),
    {
        self.trigger_event(EventType::Access, item.path());
    }

    /// Publishes `Modify` on the path that `item` gives.
    pub fn on_modify<T: Watched>(&mut self, item: &T)
        requires
            old(self).wf(),
        ensures
            final(self).wf(),
            exists|path: Seq<char>|
                final(self)@ == published(old(self)@, EventType::Modify, path),
    {
        self.trigger_event(EventType::Modify, item.path());
    }

    /// The first step of reading `path`: asks the cache. On a hit the value
    /// comes back and `Access` is published; on a miss the caller reads the
    /// file and hands the outcome to `read_file`.
    pub fn cached_read(&mut self, path: &str) -> (r: Option<Vec<u8>>)
        requires
            old(self).wf(),
        ensures
            final(self).wf(),
            final(self)@ == after_cached_read(old(self)@, path@),
            r is Some <==> get_result(old(self)@.cache, path@) is Some,
            r is Some ==> r->Some_0@ == get_result(old(self)@.cache, path@)->Some_0,
    {
        let key = path.to_owned();
        match self.cache.get(&key) {
            Some(data) => {
                self.trigger_event(EventType::Access, path);
                Some(data)
            },
            None => None,
        }
    }

    /// The second step of reading `path` after a miss. Where the file system
    /// returned bytes, they are cached under `path`, `Access` is published
    /// and the bytes come back; where it failed, nothing changes and its
    /// error comes back.
    pub fn read_file<E>(&mut self, path: &str, loaded: Result<Vec<u8>, E>) -> (r: Result<
        Vec<u8>,
        E,
    >)
        requires
            old(self).wf(),
        ensures
            final(self).wf(),
            r == loaded,
            loaded is Ok ==> final(self)@ == after_read(old(self)@, path@, loaded->Ok_0@),
            loaded is Err ==> final(self)@ == old(self)@,
    {
        match loaded {
            Ok(buf) => {
                self.cache.put(path.to_owned(), copy_bytes(&buf));
                self.trigger_event(EventType::Access, path);
                Ok(buf)
            },
            Err(e) => Err(e),
        }
    }

    /// After `data` was written to `path`. On success `Create` is published
    /// if the file did not exist before, the cache holds `data` under
    /// `path`, and `Modify` is published. On failure nothing changes and no
    /// event is published.
    pub fn write_file<E>(
        &mut self,
        path: &str,
        data: &[u8],
        existed: bool,
        written: Result<(), E>,
    ) -> (r: Result<(), E>)
        requires
            old(self).wf(),
        ensures
            final(self).wf(),
            r == written,
            written is Ok ==> final(self)@ == after_write(old(self)@, path@, data@, existed),
            written is Err ==> final(self)@ == old(self)@,
    {
        match written {
            Ok(done) => {
                if !existed {
                    self.trigger_event(EventType::Create, path);
                }
                self.cache.put(path.to_owned(), vstd::slice::slice_to_vec(data));
                self.trigger_event(EventType::Modify, path);
                Ok(done)
            },
            Err(e) => Err(e),
        }
    }

    /// After the file `path` was created: `Create` is published on success.
    pub fn create_file<E>(&mut self, path: &str, created: Result<(), E>) -> (r: Result<(), E>)
        requires
            old(self).wf(),
        ensures
            final(self).wf(),
            r == created,
            created is Ok ==> final(self)@ == published(old(self)@, EventType::Create, path@),
            created is Err ==> final(self)@ == old(self)@,
    {
        self.publish_on_success(EventType::Create, path, created)
    }

    /// After the file `path` was removed: on success the cache forgets
    /// `path` and `Delete` is published.
    pub fn remove_file<E>(&mut self, path: &str, removed: Result<(), E>) -> (r: Result<(), E>)
        requires
            old(self).wf(),
        ensures
            final(self).wf(),
            r == removed,
            removed is Ok ==> final(self)@ == after_remove_file(old(self)@, path@),
            removed is Err ==> final(self)@ == old(self)@,
    {
        match removed {
            Ok(done) => {
                let key = path.to_owned();
                self.cache.invalidate(&key);
                self.trigger_event(EventType::Delete, path);
                Ok(done)
            },
            Err(e) => Err(e),
        }
    }

    /// After the directory `path` was created: `Create` is published on
    /// success.
    pub fn create_dir<E>(&mut self, path: &str, created: Result<(), E>) -> (r: Result<(), E>)
        requires
            old(self).wf(),
        ensures
            final(self).wf(),
            r == created,
            created is Ok ==> final(self)@ == published(old(self)@, EventType::Create, path@),
            created is Err ==> final(self)@ == old(self)@,
    {
        self.publish_on_success(EventType::Create, path, created)
    }

    /// After the directory `path` was removed: `Delete` is published on
    /// success.
    pub fn remove_dir<E>(&mut self, path: &str, removed: Result<(), E>) -> (r: Result<(), E>)
        requires
            old(self).wf(),
        ensures
            final(self).wf(),
            r == removed,
            removed is Ok ==> final(self)@ == published(old(self)@, EventType::Delete, path@),
            removed is Err ==> final(self)@ == old(self)@,
    {
        self.publish_on_success(EventType::Delete, path, removed)
    }

    /// After `old_path` was renamed to `new_path`: on success `Delete` is
    /// published on the old path and then `Create` on the new one.
    pub fn rename<E>(&mut self, old_path: &str, new_path: &str, renamed: Result<(), E>) -> (r:
        Result<(), E>)
        requires
            old(self).wf(),
        ensures
            final(self).wf(),
            r == renamed,
            renamed is Ok ==> final(self)@ == after_rename(old(self)@, old_path@, new_path@),
            renamed is Err ==> final(self)@ == old(self)@,
    {
        match renamed {
            Ok(done) => {
                self.trigger_event(EventType::Delete, old_path);
                self.trigger_event(EventType::Create, new_path);
                Ok(done)
            },
            Err(e) => Err(e),
        }
    }

    /// After the file `path` was opened: `Access` is published on success.
    pub fn open<E>(&mut self, path: &str, opened: Result<(), E>) -> (r: Result<(), E>)
        requires
            old(self).wf(),
        ensures
            final(self).wf(),
            r == opened,
            opened is Ok ==> final(self)@ == published(old(self)@, EventType::Access, path@),
            opened is Err ==> final(self)@ == old(self)@,
    {
        self.publish_on_success(EventType::Access, path, opened)
    }

    fn publish_on_success<E>(&mut self, kind: EventType, path: &str, outcome: Result<(), E>) -> (r:
        Result<(), E>)
        requires
            old(self).wf(),
        ensures
            final(self).wf(),
            r == outcome,
            outcome is Ok ==> final(self)@ == published(old(self)@, kind, path@),
            outcome is Err ==> final(self)@ == old(self)@,
    {
        match outcome {
            Ok(done) => {
                self.trigger_event(kind, path);
                Ok(done)
            },
            Err(e) => Err(e),
        }
    }
}

} // verus!
