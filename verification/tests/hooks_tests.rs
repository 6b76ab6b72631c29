use std::collections::BTreeMap;
use unfound::hooks::{Watched, UnfoundFs};
use unfound::notify::event::EventType;

#[derive(Debug, Clone, Copy, PartialEq, Eq)]
enum FsError {
    NotFound,
    AlreadyExists,
}

/// A file system in memory that stands for the one below the hooks.
struct MemFs {
    files: BTreeMap<String, Vec<u8>>,
    dirs: Vec<String>,
    fail_writes: bool,
    reads: usize,
}

impl MemFs {
    fn new() -> Self {
        MemFs { files: BTreeMap::new(), dirs: Vec::new(), fail_writes: false, reads: 0 }
    }

    fn read(&mut self, path: &str) -> Result<Vec<u8>, FsError> {
        self.reads += 1;
        self.files.get(path).cloned().ok_or(FsError::NotFound)
    }

    fn write(&mut self, path: &str, data: &[u8]) -> Result<(), FsError> {
        if self.fail_writes {
            return Err(FsError::AlreadyExists);
        }
        self.files.insert(path.to_string(), data.to_vec());
        Ok(())
    }

    fn remove(&mut self, path: &str) -> Result<(), FsError> {
        self.files.remove(path).map(|_| ()).ok_or(FsError::NotFound)
    }

    fn mkdir(&mut self, path: &str) -> Result<(), FsError> {
        if self.dirs.iter().any(|d| d == path) {
            return Err(FsError::AlreadyExists);
        }
        self.dirs.push(path.to_string());
        Ok(())
    }

    fn rmdir(&mut self, path: &str) -> Result<(), FsError> {
        match self.dirs.iter().position(|d| d == path) {
            Some(i) => {
                self.dirs.remove(i);
                Ok(())
            }
            None => Err(FsError::NotFound),
        }
    }
}

fn read_file(fs: &mut UnfoundFs, vfs: &mut MemFs, path: &str) -> Result<Vec<u8>, FsError> {
    if let Some(data) = fs.cached_read(path) {
        return Ok(data);
    }
    let loaded = vfs.read(path);
    fs.read_file(path, loaded)
}

fn write_file(fs: &mut UnfoundFs, vfs: &mut MemFs, path: &str, data: &[u8]) -> Result<(), FsError> {
    let existed = vfs.files.contains_key(path);
    let written = vfs.write(path, data);
    fs.write_file(path, data, existed, written)
}

fn hooked() -> UnfoundFs {
    let mut fs = UnfoundFs::init(16).unwrap();
    assert_eq!(fs.watcher.add_watch("/", 15), Ok(1));
    fs
}

fn drain(fs: &mut UnfoundFs) -> Vec<(EventType, String)> {
    fs.watcher.read_events(100).into_iter().map(|e| (e.event_type, e.path)).collect()
}

#[test]
fn write_through_hook() {
    let mut fs = hooked();
    let mut vfs = MemFs::new();

    assert_eq!(write_file(&mut fs, &mut vfs, "/f", b"hi"), Ok(()));
    assert_eq!(vfs.files.get("/f"), Some(&b"hi".to_vec()));
    assert_eq!(fs.cache.get(&"/f".to_string()), Some(b"hi".to_vec()));
    assert_eq!(
        drain(&mut fs),
        vec![(EventType::Create, "/f".to_string()), (EventType::Modify, "/f".to_string())]
    );

    let reads_before = vfs.reads;
    assert_eq!(read_file(&mut fs, &mut vfs, "/f"), Ok(b"hi".to_vec()));
    assert_eq!(vfs.reads, reads_before);
    assert_eq!(drain(&mut fs), vec![(EventType::Access, "/f".to_string())]);

    let removed = vfs.remove("/f");
    assert_eq!(fs.remove_file("/f", removed), Ok(()));
    assert_eq!(drain(&mut fs), vec![(EventType::Delete, "/f".to_string())]);

    let stats_before = fs.cache.stats();
    assert_eq!(read_file(&mut fs, &mut vfs, "/f"), Err(FsError::NotFound));
    let stats_after = fs.cache.stats();
    assert_eq!(stats_after.t1_size, stats_before.t1_size);
    assert_eq!(stats_after.t2_size, stats_before.t2_size);
    assert_eq!(drain(&mut fs), vec![]);
}

#[test]
fn overwrite_publishes_modify_only() {
    let mut fs = hooked();
    let mut vfs = MemFs::new();
    assert_eq!(write_file(&mut fs, &mut vfs, "/f", b"one"), Ok(()));
    let _ = drain(&mut fs);
    assert_eq!(write_file(&mut fs, &mut vfs, "/f", b"two"), Ok(()));
    assert_eq!(drain(&mut fs), vec![(EventType::Modify, "/f".to_string())]);
    assert_eq!(read_file(&mut fs, &mut vfs, "/f"), Ok(b"two".to_vec()));
}

#[test]
fn failed_write_changes_nothing() {
    let mut fs = hooked();
    let mut vfs = MemFs::new();
    assert_eq!(write_file(&mut fs, &mut vfs, "/f", b"old"), Ok(()));
    let _ = drain(&mut fs);
    vfs.fail_writes = true;
    assert_eq!(write_file(&mut fs, &mut vfs, "/f", b"new"), Err(FsError::AlreadyExists));
    assert_eq!(fs.watcher.pending_count(), 0);
    assert_eq!(fs.cache.get(&"/f".to_string()), Some(b"old".to_vec()));
    assert_eq!(write_file(&mut fs, &mut vfs, "/g", b"new"), Err(FsError::AlreadyExists));
    assert_eq!(fs.watcher.pending_count(), 0);
    assert_eq!(fs.cache.get(&"/g".to_string()), None);
}

#[test]
fn read_miss_fills_cache() {
    let mut fs = hooked();
    let mut vfs = MemFs::new();
    vfs.files.insert("/data".to_string(), b"abc".to_vec());
    assert_eq!(read_file(&mut fs, &mut vfs, "/data"), Ok(b"abc".to_vec()));
    assert_eq!(vfs.reads, 1);
    assert_eq!(drain(&mut fs), vec![(EventType::Access, "/data".to_string())]);
    assert_eq!(read_file(&mut fs, &mut vfs, "/data"), Ok(b"abc".to_vec()));
    assert_eq!(vfs.reads, 1);
}

#[test]
fn directory_and_rename_hooks() {
    let mut fs = hooked();
    let mut vfs = MemFs::new();
    let made = vfs.mkdir("/d");
    assert_eq!(fs.create_dir("/d", made), Ok(()));
    let again = vfs.mkdir("/d");
    assert_eq!(fs.create_dir("/d", again), Err(FsError::AlreadyExists));
    let gone = vfs.rmdir("/d");
    assert_eq!(fs.remove_dir("/d", gone), Ok(()));
    let missing = vfs.rmdir("/d");
    assert_eq!(fs.remove_dir("/d", missing), Err(FsError::NotFound));
    assert_eq!(fs.rename("/a", "/b", Ok::<(), FsError>(())), Ok(()));
    assert_eq!(fs.rename("/a", "/b", Err(FsError::NotFound)), Err(FsError::NotFound));
    assert_eq!(fs.create_file("/n", Ok::<(), FsError>(())), Ok(()));
    assert_eq!(fs.open("/n", Ok::<(), FsError>(())), Ok(()));
    assert_eq!(fs.open("/zz", Err(FsError::NotFound)), Err(FsError::NotFound));
    assert_eq!(
        drain(&mut fs),
        vec![
            (EventType::Create, "/d".to_string()),
            (EventType::Delete, "/d".to_string()),
            (EventType::Delete, "/a".to_string()),
            (EventType::Create, "/b".to_string()),
            (EventType::Create, "/n".to_string()),
            (EventType::Access, "/n".to_string()),
        ]
    );
}

#[test]
fn hooks_without_watch_publish_nothing() {
    let mut fs = UnfoundFs::init(4).unwrap();
    let mut vfs = MemFs::new();
    assert_eq!(write_file(&mut fs, &mut vfs, "/f", b"x"), Ok(()));
    assert_eq!(fs.get_unotify_watcher().pending_count(), 0);
    assert_eq!(fs.get_ucache().stats().t1_size, 1);
    fs.trigger_event(EventType::Access, "/f");
    assert_eq!(fs.get_unotify_watcher().pending_count(), 0);
}

struct Document {
    path: String,
}

impl Watched for Document {
    fn path(&self) -> &str {
        &self.path
    }
}

#[test]
fn watched_items_publish_on_their_path() {
    let mut fs = hooked();
    let doc = Document { path: "/docs/a.txt".to_string() };
    fs.on_access(&doc);
    fs.on_modify(&doc);
    assert_eq!(
        drain(&mut fs),
        vec![
            (EventType::Access, "/docs/a.txt".to_string()),
            (EventType::Modify, "/docs/a.txt".to_string()),
        ]
    );
}
