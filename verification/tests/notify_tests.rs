use unfound::notify::event::{EventType, NotifyEvent};
use unfound::notify::init;
use unfound::notify::watcher::FileWatcher;
use unfound::notify::NotifyError;

#[test]
fn test_init() {
    assert!(init().is_ok(), "UNotify \u{521d}\u{59cb}\u{5316}\u{5931}\u{8d25}");
}

#[test]
fn test_trigger_and_read() {
    let mut watcher = init().unwrap();

    watcher.trigger_unchecked(NotifyEvent::new(EventType::Create, "/test1.txt".into()));
    watcher.trigger_unchecked(NotifyEvent::new(EventType::Modify, "/test2.txt".into()));
    watcher.trigger_unchecked(NotifyEvent::new(EventType::Access, "/test3.txt".into()));
    watcher.trigger_unchecked(NotifyEvent::new(EventType::Delete, "/test4.txt".into()));

    assert_eq!(watcher.pending_count(), 4, "\u{4e8b}\u{4ef6}\u{6570}\u{91cf}\u{4e0d}\u{6b63}\u{786e}");

    let events = watcher.read_events(10);
    assert_eq!(events.len(), 4, "\u{8bfb}\u{53d6}\u{4e8b}\u{4ef6}\u{6570}\u{91cf}\u{4e0d}\u{6b63}\u{786e}");

    assert_eq!(events[0].event_type, EventType::Create);
    assert_eq!(events[1].event_type, EventType::Modify);
    assert_eq!(events[2].event_type, EventType::Access);
    assert_eq!(events[3].event_type, EventType::Delete);

    assert_eq!(watcher.pending_count(), 0, "\u{961f}\u{5217}\u{672a}\u{6e05}\u{7a7a}");
}

#[test]
fn test_batch_events() {
    let mut watcher = init().unwrap();

    for i in 0..100 {
        let path = format!("/file{}.txt", i);
        watcher.trigger_unchecked(NotifyEvent::new(EventType::Access, path));
    }

    assert_eq!(watcher.pending_count(), 100, "\u{6279}\u{91cf}\u{89e6}\u{53d1}\u{5931}\u{8d25}");

    let events = watcher.read_events(50);
    assert_eq!(events.len(), 50, "\u{6279}\u{91cf}\u{8bfb}\u{53d6}\u{6570}\u{91cf}\u{9519}\u{8bef}");
    assert_eq!(watcher.pending_count(), 50, "\u{5269}\u{4f59}\u{6570}\u{91cf}\u{9519}\u{8bef}");

    let remaining = watcher.read_events(100);
    assert_eq!(remaining.len(), 50, "\u{5269}\u{4f59}\u{8bfb}\u{53d6}\u{9519}\u{8bef}");
    assert_eq!(watcher.pending_count(), 0, "\u{6700}\u{7ec8}\u{961f}\u{5217}\u{672a}\u{6e05}\u{7a7a}");
}

#[test]
fn test_event_paths() {
    let mut watcher = init().unwrap();

    watcher.trigger_unchecked(NotifyEvent::new(EventType::Create, "/path/to/file.txt".into()));

    let events = watcher.read_events(1);
    assert_eq!(events[0].path, "/path/to/file.txt", "\u{8def}\u{5f84}\u{4e0d}\u{5339}\u{914d}");
}

#[test]
fn event_bits_and_timestamp() {
    assert_eq!(EventType::Create.bit(), 1);
    assert_eq!(EventType::Modify.bit(), 2);
    assert_eq!(EventType::Delete.bit(), 4);
    assert_eq!(EventType::Access.bit(), 8);
    let e = NotifyEvent::new(EventType::Delete, "/x".to_string());
    assert_eq!(e.timestamp, 0);
    assert_eq!(e.path, "/x");
}

#[test]
fn notification_filtering() {
    let mut bus = FileWatcher::new();
    let mask = EventType::Modify.bit() | EventType::Create.bit();
    assert_eq!(bus.add_watch("/a", mask), Ok(1));
    bus.trigger(NotifyEvent::new(EventType::Modify, "/a/x".to_string()));
    assert_eq!(bus.pending_count(), 1);
    bus.trigger(NotifyEvent::new(EventType::Access, "/a/x".to_string()));
    assert_eq!(bus.pending_count(), 1);
    bus.trigger(NotifyEvent::new(EventType::Modify, "/b".to_string()));
    assert_eq!(bus.pending_count(), 1);
    let events = bus.read_events(10);
    assert_eq!(events.len(), 1);
    assert_eq!(events[0].path, "/a/x");
    assert_eq!(events[0].event_type, EventType::Modify);
    assert_eq!(bus.pending_count(), 0);
}

#[test]
fn overflow_backpressure() {
    let mut bus = FileWatcher::with_max_events(4);
    assert_eq!(bus.add_watch("/", 15), Ok(1));
    for i in 1..6 {
        bus.trigger(NotifyEvent::new(EventType::Modify, format!("/e{}", i)));
    }
    assert_eq!(bus.pending_count(), 4);
    let events = bus.read_events(10);
    let paths: Vec<String> = events.iter().map(|e| e.path.clone()).collect();
    assert_eq!(paths, vec!["/e2", "/e3", "/e4", "/e5"]);
    assert_eq!(bus.pending_count(), 0);
}

#[test]
fn event_matching_several_watches_is_queued_once() {
    let mut bus = FileWatcher::new();
    assert_eq!(bus.add_watch("/a", 2), Ok(1));
    assert_eq!(bus.add_watch("/a/b", 2), Ok(2));
    assert_eq!(bus.add_watch("/", 8), Ok(3));
    bus.trigger(NotifyEvent::new(EventType::Modify, "/a/b/c".to_string()));
    assert_eq!(bus.pending_count(), 1);
}

#[test]
fn later_watch_with_matching_mask_decides() {
    // The first watch has the prefix but not the bit; the second has both.
    let mut bus = FileWatcher::new();
    assert_eq!(bus.add_watch("/a", EventType::Create.bit()), Ok(1));
    assert_eq!(bus.add_watch("/a", EventType::Delete.bit()), Ok(2));
    bus.trigger(NotifyEvent::new(EventType::Delete, "/a/x".to_string()));
    assert_eq!(bus.pending_count(), 1);
}

#[test]
fn remove_watch_unknown_is_not_found() {
    let mut bus = FileWatcher::new();
    assert_eq!(bus.remove_watch(1), Err(NotifyError::NotFound));
    assert_eq!(bus.add_watch("/a", 15), Ok(1));
    assert_eq!(bus.remove_watch(1), Ok(()));
    assert_eq!(bus.remove_watch(1), Err(NotifyError::NotFound));
    bus.trigger(NotifyEvent::new(EventType::Create, "/a".to_string()));
    assert_eq!(bus.pending_count(), 0);
    // descriptors are not handed out again
    assert_eq!(bus.add_watch("/a", 15), Ok(2));
}

#[test]
fn read_events_takes_a_prefix_in_order() {
    let mut bus = FileWatcher::new();
    for i in 0..5 {
        bus.trigger_unchecked(NotifyEvent::new(EventType::Create, format!("/f{}", i)));
    }
    let first = bus.read_events(2);
    assert_eq!(first.len(), 2);
    assert_eq!(first[0].path, "/f0");
    assert_eq!(first[1].path, "/f1");
    assert_eq!(bus.pending_count(), 3);
    assert_eq!(bus.read_events(0).len(), 0);
    assert_eq!(bus.pending_count(), 3);
    let rest = bus.read_events(3);
    assert_eq!(rest[2].path, "/f4");
}

#[test]
fn prefix_match_is_on_characters() {
    let mut bus = FileWatcher::new();
    assert_eq!(bus.add_watch("/data", 15), Ok(1));
    bus.trigger(NotifyEvent::new(EventType::Access, "/dat".to_string()));
    assert_eq!(bus.pending_count(), 0);
    bus.trigger(NotifyEvent::new(EventType::Access, "/database".to_string()));
    assert_eq!(bus.pending_count(), 1);
}
