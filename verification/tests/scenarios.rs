use furumi::config::Config;
use furumi::errno::Errno;
use furumi::fs::{LookupPlan, MemFS};
use furumi::remote::{RemoteEntry, TransportError};

fn plain_config(server: &str) -> Config {
    Config {
        server: server.to_string(),
        mountpoint: "/mnt".to_string(),
        username: None,
        password: None,
        conf_file: "/etc/furumi.yml".to_string(),
    }
}

fn entry(name: &str, kind: &str, mtime: &str, size: Option<u64>) -> RemoteEntry {
    RemoteEntry {
        name: Some(name.to_string()),
        kind: Some(kind.to_string()),
        mtime: Some(mtime.to_string()),
        size,
    }
}

const MTIME: &str = "Wed, 01 Jan 2020 00:00:00 +0000";

fn names_of(fs: &mut MemFS, dir: u64) -> Vec<String> {
    let fh = fs.do_opendir(dir).unwrap();
    let entries = fs.do_readdir(dir, fh, 0, 1 << 20).unwrap();
    fs.do_releasedir(dir, fh).unwrap();
    entries.iter().map(|e| e.name.clone()).collect()
}

fn root_listing() -> Vec<RemoteEntry> {
    vec![
        entry("a", "directory", MTIME, None),
        entry("b.txt", "file", MTIME, Some(11)),
    ]
}

#[test]
fn root_listing_populates_the_root() {
    let mut fs = MemFS::new(&plain_config("http://srv"));
    fs.fetch_remote(1, Ok(root_listing())).unwrap();
    assert_eq!(names_of(&mut fs, 1), vec![".", "..", "a", "b.txt"]);
    let b = fs.lookup_inode(1, &"b.txt".to_string()).unwrap();
    let attr = fs.do_getattr(b.ino).unwrap().attr;
    assert_eq!(attr.size, 11);
    assert_eq!(attr.mode, 0o100444);
    assert_eq!(attr.nlink, 1);
    assert_eq!(attr.mtime_secs, 1577836800);
    assert!(fs.is_populated(1));
}

#[test]
fn lazy_descent_builds_the_child_path() {
    let mut fs = MemFS::new(&plain_config("http://srv"));
    fs.fetch_remote(1, Ok(root_listing())).unwrap();
    let plan = fs.lookup_prepare(1, &"a".to_string());
    let (a_ino, a_path) = match plan {
        LookupPlan::Fetch { ino, path } => (ino, path),
        LookupPlan::NoFetch => panic!("a directory lookup must list the remote"),
    };
    assert_eq!(a_path, "/a");
    fs.fetch_remote(a_ino, Ok(vec![entry("c.bin", "file", MTIME, Some(3))])).unwrap();
    let a = fs.lookup_inode(1, &"a".to_string()).unwrap();
    assert_eq!(a.ino, a_ino);
    assert_eq!(names_of(&mut fs, a_ino), vec![".", "..", "c.bin"]);
    let c = fs.lookup_inode(a_ino, &"c.bin".to_string()).unwrap();
    let plan = fs.read_prepare(c.ino, 0, 3);
    assert_eq!(plan.path, "/a/c.bin");
}

#[test]
fn file_read_issues_the_exact_range_request() {
    let mut fs = MemFS::new(&plain_config("http://srv"));
    fs.fetch_remote(1, Ok(root_listing())).unwrap();
    let plan = match fs.lookup_prepare(1, &"a".to_string()) {
        LookupPlan::Fetch { ino, path } => (ino, path),
        LookupPlan::NoFetch => panic!("expected a fetch"),
    };
    fs.fetch_remote(plan.0, Ok(vec![entry("c.bin", "file", MTIME, Some(3))])).unwrap();
    let c = fs.lookup_inode(plan.0, &"c.bin".to_string()).unwrap();
    let read = fs.read_prepare(c.ino, 0, 3);
    assert_eq!(fs.url_for(&read.path), "http://srv/a/c.bin");
    assert_eq!(read.range, "bytes=0-2");
}

#[test]
fn unknown_name_issues_no_request_and_is_no_entry() {
    let mut fs = MemFS::new(&plain_config("http://srv"));
    fs.fetch_remote(1, Ok(root_listing())).unwrap();
    match fs.lookup_prepare(1, &"missing".to_string()) {
        LookupPlan::NoFetch => {},
        LookupPlan::Fetch { .. } => panic!("an unknown name must not list the remote"),
    }
    let r = fs.lookup_inode(1, &"missing".to_string());
    assert_eq!(r.unwrap_err(), Errno::NoEntry);
}

#[test]
fn remote_failure_leaves_the_directory_unpopulated() {
    let mut fs = MemFS::new(&plain_config("http://srv"));
    fs.fetch_remote(1, Ok(root_listing())).unwrap();
    let a_ino = match fs.lookup_prepare(1, &"a".to_string()) {
        LookupPlan::Fetch { ino, .. } => ino,
        LookupPlan::NoFetch => panic!("expected a fetch"),
    };
    let failure = Err(TransportError { status: Some(500), message: "server error".to_string() });
    assert_eq!(fs.fetch_remote(a_ino, failure).unwrap_err(), Errno::NoData);
    assert!(!fs.is_populated(a_ino));
    assert_eq!(names_of(&mut fs, a_ino), vec![".", ".."]);
    // a retry re-issues the request and succeeds
    fs.fetch_remote(a_ino, Ok(vec![entry("c.bin", "file", MTIME, Some(3))])).unwrap();
    assert!(fs.is_populated(a_ino));
    assert_eq!(names_of(&mut fs, a_ino), vec![".", "..", "c.bin"]);
}

#[test]
fn an_open_snapshot_is_stable_under_population() {
    let mut fs = MemFS::new(&plain_config("http://srv"));
    fs.fetch_remote(1, Ok(root_listing())).unwrap();
    let fh1 = fs.do_opendir(1).unwrap();
    // a concurrent lookup adds a new child "x" to the root
    fs.fetch_remote(1, Ok(vec![entry("x", "directory", MTIME, None)])).unwrap();
    let old_names: Vec<String> = fs
        .do_readdir(1, fh1, 0, 1 << 20)
        .unwrap()
        .iter()
        .map(|e| e.name.clone())
        .collect();
    assert_eq!(old_names, vec![".", "..", "a", "b.txt"]);
    let fh2 = fs.do_opendir(1).unwrap();
    let new_names: Vec<String> = fs
        .do_readdir(1, fh2, 0, 1 << 20)
        .unwrap()
        .iter()
        .map(|e| e.name.clone())
        .collect();
    assert_eq!(new_names, vec![".", "..", "a", "b.txt", "x"]);
}

#[test]
fn repopulation_keeps_known_names_and_metadata() {
    let mut fs = MemFS::new(&plain_config("http://srv"));
    fs.fetch_remote(1, Ok(root_listing())).unwrap();
    let b1 = fs.lookup_inode(1, &"b.txt".to_string()).unwrap();
    // a second listing reports a different size; the known name is kept as-is
    fs.fetch_remote(1, Ok(vec![entry("b.txt", "file", MTIME, Some(99))])).unwrap();
    assert_eq!(names_of(&mut fs, 1), vec![".", "..", "a", "b.txt"]);
    let b2 = fs.lookup_inode(1, &"b.txt".to_string()).unwrap();
    assert_eq!(b1.ino, b2.ino);
    assert_eq!(fs.do_getattr(b2.ino).unwrap().attr.size, 11);
}

#[test]
fn entries_without_a_recognized_type_are_skipped() {
    let mut fs = MemFS::new(&plain_config("http://srv"));
    let listing = vec![
        entry("good", "directory", MTIME, None),
        entry("odd", "symlink", MTIME, None),
        RemoteEntry { name: Some("untyped".to_string()), kind: None, mtime: None, size: None },
        RemoteEntry { name: None, kind: Some("file".to_string()), mtime: None, size: None },
    ];
    fs.fetch_remote(1, Ok(listing)).unwrap();
    assert_eq!(names_of(&mut fs, 1), vec![".", "..", "good"]);
}

#[test]
fn directory_attributes_after_descent() {
    let mut fs = MemFS::new(&plain_config("http://srv"));
    fs.fetch_remote(1, Ok(root_listing())).unwrap();
    let a = fs.lookup_inode(1, &"a".to_string()).unwrap();
    let attr = fs.do_getattr(a.ino).unwrap().attr;
    assert_eq!(attr.mode, 0o040755);
    assert_eq!(attr.nlink, 1);
    assert_eq!(attr.mtime_secs, 1577836800);
    assert!(!fs.is_populated(a.ino));
}

#[test]
fn created_inodes_get_distinct_increasing_numbers() {
    let mut fs = MemFS::new(&plain_config("http://srv"));
    fs.fetch_remote(1, Ok(root_listing())).unwrap();
    let a = fs.lookup_inode(1, &"a".to_string()).unwrap().ino;
    let b = fs.lookup_inode(1, &"b.txt".to_string()).unwrap().ino;
    assert_ne!(a, b);
    assert!(a > 1 && b > 1);
    assert_eq!((a, b), (2, 3));
}

#[test]
fn a_directory_path_is_stable_under_later_population() {
    let mut fs = MemFS::new(&plain_config("http://srv"));
    fs.fetch_remote(1, Ok(root_listing())).unwrap();
    let first = match fs.lookup_prepare(1, &"a".to_string()) {
        LookupPlan::Fetch { ino, path } => (ino, path),
        LookupPlan::NoFetch => panic!("expected a fetch"),
    };
    assert_eq!(first.1, "/a");
    // populating "a" itself and the root again moves nothing
    fs.fetch_remote(first.0, Ok(vec![entry("sub", "directory", MTIME, None)])).unwrap();
    fs.fetch_remote(1, Ok(vec![entry("late", "directory", MTIME, None)])).unwrap();
    let again = match fs.lookup_prepare(1, &"a".to_string()) {
        LookupPlan::Fetch { ino, path } => (ino, path),
        LookupPlan::NoFetch => panic!("expected a fetch"),
    };
    assert_eq!(again, first);
    let sub = match fs.lookup_prepare(first.0, &"sub".to_string()) {
        LookupPlan::Fetch { ino: _, path } => path,
        LookupPlan::NoFetch => panic!("expected a fetch"),
    };
    assert_eq!(sub, "/a/sub");
}

#[test]
fn a_file_entry_without_size_defaults_to_zero() {
    let mut fs = MemFS::new(&plain_config("http://srv"));
    fs.fetch_remote(1, Ok(vec![entry("n.bin", "file", MTIME, None)])).unwrap();
    let n = fs.lookup_inode(1, &"n.bin".to_string()).unwrap();
    assert_eq!(n.attr.size, 0);
}
