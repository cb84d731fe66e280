use furumi::config::Config;
use furumi::errno::Errno;
use furumi::fs::{LookupPlan, MemFS, NodeInit};
use furumi::remote::{auth_header, RemoteEntry, TransportError};

fn plain_config(server: &str) -> Config {
    Config {
        server: server.to_string(),
        mountpoint: "/mnt".to_string(),
        username: None,
        password: None,
        conf_file: "/etc/furumi.yml".to_string(),
    }
}

fn entry(name: &str, kind: &str, mtime: &str, size: Option<u64>) -> RemoteEntry {
    RemoteEntry {
        name: Some(name.to_string()),
        kind: Some(kind.to_string()),
        mtime: Some(mtime.to_string()),
        size,
    }
}

const MTIME: &str = "Wed, 01 Jan 2020 00:00:00 +0000";

#[test]
fn errno_raw_values() {
    assert_eq!(Errno::NoEntry.to_raw(), 2);
    assert_eq!(Errno::Io.to_raw(), 5);
    assert_eq!(Errno::Exists.to_raw(), 17);
    assert_eq!(Errno::NotADirectory.to_raw(), 20);
    assert_eq!(Errno::NoData.to_raw(), 61);
}

#[test]
fn getattr_of_root_reports_directory() {
    let fs = MemFS::new(&plain_config("http://srv"));
    let rep = fs.do_getattr(1).unwrap();
    assert_eq!(rep.attr.ino, 1);
    assert_eq!(rep.attr.mode, 0o040755);
    assert_eq!(rep.attr.nlink, 2);
    assert_eq!(rep.ttl_secs, 86400);
}

#[test]
fn getattr_of_unknown_inode_is_no_entry() {
    let fs = MemFS::new(&plain_config("http://srv"));
    assert_eq!(fs.do_getattr(7).unwrap_err(), Errno::NoEntry);
}

#[test]
fn empty_root_lists_dot_and_dotdot() {
    let mut fs = MemFS::new(&plain_config("http://srv"));
    let fh = fs.do_opendir(1).unwrap();
    let entries = fs.do_readdir(1, fh, 0, 1 << 20).unwrap();
    let names: Vec<String> = entries.iter().map(|e| e.name.clone()).collect();
    assert_eq!(names, vec![".".to_string(), "..".to_string()]);
    assert_eq!(entries[0].ino, 1);
    assert_eq!(entries[1].ino, 1);
    assert_eq!(entries[0].offset, 1);
    assert_eq!(entries[1].offset, 2);
    fs.do_releasedir(1, fh).unwrap();
}

#[test]
fn readdir_offset_past_end_is_empty() {
    let mut fs = MemFS::new(&plain_config("http://srv"));
    let fh = fs.do_opendir(1).unwrap();
    let entries = fs.do_readdir(1, fh, 2, 1 << 20).unwrap();
    assert!(entries.is_empty());
    let entries = fs.do_readdir(1, fh, 99, 1 << 20).unwrap();
    assert!(entries.is_empty());
}

#[test]
fn readdir_size_test_is_strict() {
    let mut fs = MemFS::new(&plain_config("http://srv"));
    let fh = fs.do_opendir(1).unwrap();
    // "." occupies 24 header bytes plus its name padded to 8: 32 in all.
    let entries = fs.do_readdir(1, fh, 0, 32).unwrap();
    assert!(entries.is_empty());
    let entries = fs.do_readdir(1, fh, 0, 33).unwrap();
    assert_eq!(entries.len(), 1);
    assert_eq!(entries[0].name, ".");
}

#[test]
fn readdir_with_the_largest_size_returns_everything() {
    let mut fs = MemFS::new(&plain_config("http://srv"));
    let fh = fs.do_opendir(1).unwrap();
    let entries = fs.do_readdir(1, fh, 0, u32::MAX).unwrap();
    assert_eq!(entries.len(), 2);
}

#[test]
fn readdir_of_unknown_handle_is_io_error() {
    let fs = MemFS::new(&plain_config("http://srv"));
    assert_eq!(fs.do_readdir(1, 5, 0, 4096).unwrap_err(), Errno::Io);
}

#[test]
fn releasedir_drops_the_handle() {
    let mut fs = MemFS::new(&plain_config("http://srv"));
    let fh = fs.do_opendir(1).unwrap();
    fs.do_releasedir(1, fh).unwrap();
    assert_eq!(fs.do_readdir(1, fh, 0, 4096).unwrap_err(), Errno::Io);
}

#[test]
fn opendir_of_file_is_not_a_directory() {
    let mut fs = MemFS::new(&plain_config("http://srv"));
    let listing = vec![entry("b.txt", "file", MTIME, Some(11))];
    fs.fetch_remote(1, Ok(listing)).unwrap();
    let ino = fs.lookup_inode(1, &"b.txt".to_string()).unwrap().ino;
    assert_eq!(fs.do_opendir(ino).unwrap_err(), Errno::NotADirectory);
}

#[test]
fn opendir_of_unknown_inode_is_no_entry() {
    let mut fs = MemFS::new(&plain_config("http://srv"));
    assert_eq!(fs.do_opendir(9).unwrap_err(), Errno::NoEntry);
}

#[test]
fn lookup_of_unknown_name_is_no_entry() {
    let mut fs = MemFS::new(&plain_config("http://srv"));
    let r = fs.lookup_inode(1, &"missing".to_string());
    assert_eq!(r.unwrap_err(), Errno::NoEntry);
}

#[test]
fn lookup_under_a_file_is_not_a_directory() {
    let mut fs = MemFS::new(&plain_config("http://srv"));
    fs.fetch_remote(1, Ok(vec![entry("b.txt", "file", MTIME, Some(11))])).unwrap();
    let ino = fs.lookup_inode(1, &"b.txt".to_string()).unwrap().ino;
    let r = fs.lookup_inode(ino, &"x".to_string());
    assert_eq!(r.unwrap_err(), Errno::NotADirectory);
}

#[test]
fn make_node_rejects_duplicate_names() {
    let mut fs = MemFS::new(&plain_config("http://srv"));
    let name = "dup".to_string();
    fs.make_node(1, &name, NodeInit::Dir { mtime_secs: 0 }).unwrap();
    let r = fs.make_node(1, &name, NodeInit::Dir { mtime_secs: 0 });
    assert_eq!(r.unwrap_err(), Errno::Exists);
}

#[test]
fn make_node_under_missing_parent_is_no_entry() {
    let mut fs = MemFS::new(&plain_config("http://srv"));
    let r = fs.make_node(44, &"x".to_string(), NodeInit::Dir { mtime_secs: 0 });
    assert_eq!(r.unwrap_err(), Errno::NoEntry);
}

#[test]
fn lookup_twice_returns_the_same_inode() {
    let mut fs = MemFS::new(&plain_config("http://srv"));
    fs.fetch_remote(1, Ok(vec![entry("b.txt", "file", MTIME, Some(11))])).unwrap();
    let name = "b.txt".to_string();
    let first = fs.lookup_inode(1, &name).unwrap();
    let second = fs.lookup_inode(1, &name).unwrap();
    assert_eq!(first.ino, second.ino);
}

#[test]
fn getattr_after_lookup_matches_the_reply() {
    let mut fs = MemFS::new(&plain_config("http://srv"));
    fs.fetch_remote(1, Ok(vec![entry("b.txt", "file", MTIME, Some(11))])).unwrap();
    let rep = fs.lookup_inode(1, &"b.txt".to_string()).unwrap();
    let attr = fs.do_getattr(rep.ino).unwrap();
    assert_eq!(attr.attr, rep.attr);
}

#[test]
fn read_prepare_formats_the_inclusive_range() {
    let fs = MemFS::new(&plain_config("http://srv"));
    let plan = fs.read_prepare(9, 0, 3);
    assert_eq!(plan.range, "bytes=0-2");
    let plan = fs.read_prepare(9, 12345, 1);
    assert_eq!(plan.range, "bytes=12345-12345");
}

#[test]
fn read_prepare_with_size_zero_asks_for_an_inverted_range() {
    let fs = MemFS::new(&plain_config("http://srv"));
    let plan = fs.read_prepare(9, 5, 0);
    assert_eq!(plan.range, "bytes=5-4");
}

#[test]
fn read_prepare_of_unknown_inode_uses_the_empty_path() {
    let fs = MemFS::new(&plain_config("http://srv"));
    let plan = fs.read_prepare(9, 0, 4);
    assert_eq!(plan.path, "");
}

#[test]
fn finish_read_passes_bytes_and_maps_errors_to_io() {
    let ok = furumi::fs::finish_read(Ok(vec![1u8, 2, 3]));
    assert_eq!(ok.unwrap(), vec![1u8, 2, 3]);
    let err = furumi::fs::finish_read(Err(TransportError {
        status: Some(500),
        message: "server error".to_string(),
    }));
    assert_eq!(err.unwrap_err(), Errno::Io);
}

#[test]
fn auth_header_needs_both_credentials() {
    let user = Some("user".to_string());
    let pass = Some("pass".to_string());
    let h = auth_header(&user, &pass).unwrap();
    assert_eq!(h, "Basic dXNlcjpwYXNz");
    assert!(auth_header(&user, &None).is_none());
    assert!(auth_header(&None, &pass).is_none());
    assert!(auth_header(&None, &None).is_none());
}

#[test]
fn parse_rfc2822_reads_the_mtime_field() {
    let e = entry("a", "file", MTIME, Some(1));
    assert_eq!(e.parse_rfc2822(), Some(1577836800));
    let bad = RemoteEntry {
        name: Some("a".to_string()),
        kind: Some("file".to_string()),
        mtime: Some("not a date".to_string()),
        size: None,
    };
    assert_eq!(bad.parse_rfc2822(), None);
    let absent = RemoteEntry { name: None, kind: None, mtime: None, size: None };
    assert_eq!(absent.parse_rfc2822(), None);
    assert_eq!(bad.mtime_secs_or_zero(), 0);
    // a date whose weekday does not match is rejected by the parser
    let skewed = RemoteEntry {
        name: None,
        kind: None,
        mtime: Some("Thu, 01 Jan 2020 00:00:00 +0000".to_string()),
        size: None,
    };
    assert_eq!(skewed.parse_rfc2822(), None);
}

#[test]
fn url_for_concatenates_server_and_path() {
    let fs = MemFS::new(&plain_config("http://srv:8080"));
    assert_eq!(fs.url_for(&"/a/c.bin".to_string()), "http://srv:8080/a/c.bin");
}

#[test]
fn lookup_prepare_of_file_needs_no_fetch() {
    let mut fs = MemFS::new(&plain_config("http://srv"));
    fs.fetch_remote(1, Ok(vec![entry("b.txt", "file", MTIME, Some(11))])).unwrap();
    match fs.lookup_prepare(1, &"b.txt".to_string()) {
        LookupPlan::NoFetch => {},
        LookupPlan::Fetch { .. } => panic!("a file lookup must not list the remote"),
    }
}
