use lll::common::DirChild;
use lll::urls_table::{EntryCache, PathKind, UpdateStep, UrlsTable, scan_target, url_escapes};

fn child(name: &str, is_dir: bool) -> DirChild {
    DirChild { name: String::from(name), is_dir }
}

#[test]
fn cache_expiry_clock() {
    let cache = EntryCache::new(b"hello".to_vec(), String::from("Content-Type: text/plain"), 60, 100);
    assert!(!cache.is_expired(100));
    assert!(!cache.is_expired(159));
    assert!(cache.is_expired(160));
    assert!(cache.is_expired(1000));
    // a clock that runs backwards never expires a fresh cache
    assert!(!cache.is_expired(0));
    // a zero time-to-live is expired immediately
    let zero = EntryCache::new(Vec::new(), String::from("Content-Type: text/plain"), 0, 100);
    assert!(zero.is_expired(100));
}

#[test]
fn probe_then_scan_resolves_files() {
    let mut table = UrlsTable::new(String::from("/root"), Some(60));
    assert!(!table.contains_url_entry("/a.txt"));

    match table.update_if_needed("/a.txt", 0) {
        UpdateStep::Probe { fs_path } => assert_eq!(fs_path, "/root/a.txt"),
        _ => panic!("a URL the table does not know must be probed"),
    }
    // the caller stats /root/a.txt, finds a file, and must scan its parent
    let dir = scan_target("/root/a.txt", PathKind::File).unwrap();
    assert_eq!(dir, "/root");

    table.map_urls_from(&dir, &vec![child("a.txt", false), child("b", true)], 0);
    let entry = table.get_url_entry("/a.txt").unwrap();
    assert_eq!(entry.fs_path, "/root/a.txt");
    assert!(!entry.is_dir);
    assert!(entry.cache.is_none());
    // file-backed entries are always served without touching the table
    assert!(matches!(table.update_if_needed("/a.txt", 0), UpdateStep::UpToDate));
}

#[test]
fn missing_path_reports_nothing_to_scan() {
    assert!(scan_target("/root/nope", PathKind::Missing).is_none());
    assert_eq!(scan_target("/root/sub", PathKind::Dir).unwrap(), "/root/sub");
}

#[test]
fn traversal_is_rejected() {
    let table = UrlsTable::new(String::from("/root"), None);
    assert!(matches!(table.update_if_needed("/../etc/passwd", 0), UpdateStep::Reject));
    assert!(matches!(table.update_if_needed("/a/../../b", 0), UpdateStep::Reject));
    assert!(matches!(table.update_if_needed("/a..b", 0), UpdateStep::Probe { .. }));
    assert!(url_escapes(".."));
    assert!(url_escapes("/.."));
    assert!(!url_escapes("/..."));
    assert!(!url_escapes("/a..b/c"));
}

#[test]
fn set_cache_only_touches_known_urls() {
    let mut table = UrlsTable::new(String::from("/root"), Some(60));
    table.map_urls_from("/root", &vec![child("a.txt", false)], 0);

    // unknown URL: nothing happens
    table.update_or_set_cache_of("/ghost", b"x".to_vec(), String::from("Content-Type: text/plain"), 0);
    assert!(!table.contains_url_entry("/ghost"));

    table.update_or_set_cache_of("/a.txt", b"hello".to_vec(), String::from("Content-Type: text/plain"), 5);
    let entry = table.get_url_entry("/a.txt").unwrap();
    let cache = entry.cache.as_ref().unwrap();
    assert_eq!(cache.content, b"hello");
    assert_eq!(cache.content_type, "Content-Type: text/plain");
    assert!(!cache.is_expired(64));
    assert!(cache.is_expired(65));
}

#[test]
fn directory_listing_is_cached_at_scan_time() {
    let mut table = UrlsTable::new(String::from("/root"), Some(60));
    table.map_urls_from("/root", &vec![child("a.txt", false), child("b", true)], 0);

    let entry = table.get_url_entry("/").unwrap();
    assert_eq!(entry.fs_path, "/root");
    assert!(entry.is_dir);
    let cache = entry.cache.as_ref().unwrap();
    assert_eq!(cache.content_type, "Content-Type: text/html");
    let page = String::from_utf8(cache.content.clone()).unwrap();
    assert!(page.contains("<h1>Directory Listing for /</h1>"));
    assert!(page.contains("<a href=\"/a.txt\""));
    assert!(page.contains("<a href=\"/b/\""));
    // directories are listed before files
    assert!(page.find("/b/").unwrap() < page.find("/a.txt").unwrap());

    // fresh listing is served without a rescan; an expired one is not
    assert!(matches!(table.update_if_needed("/", 59), UpdateStep::UpToDate));
    match table.update_if_needed("/", 60) {
        UpdateStep::Rescan { dir } => assert_eq!(dir, "/root"),
        _ => panic!("an expired listing must be rescanned"),
    }
}

#[test]
fn index_file_claims_directory_url() {
    let mut table = UrlsTable::new(String::from("/root"), Some(60));
    table.map_urls_from("/root", &vec![child("b", true)], 0);
    // /b/ is known but uncached: it must be rescanned
    match table.update_if_needed("/b/", 0) {
        UpdateStep::Rescan { dir } => assert_eq!(dir, "/root/b"),
        _ => panic!("an uncached directory must be rescanned"),
    }
    table.map_urls_from("/root/b", &vec![child("index.html", false)], 0);

    // the directory URL now resolves to the index file, not to a listing
    let entry = table.get_url_entry("/b/").unwrap();
    assert_eq!(entry.fs_path, "/root/b/index.html");
    assert!(!entry.is_dir);
    assert!(entry.cache.is_none());
    assert!(matches!(table.update_if_needed("/b/", 0), UpdateStep::UpToDate));
}

#[test]
fn deleted_file_disappears_after_rescan() {
    let mut table = UrlsTable::new(String::from("/root"), Some(10));
    table.map_urls_from("/root", &vec![child("a.txt", false), child("c.txt", false)], 0);
    assert!(table.contains_url_entry("/c.txt"));

    // c.txt is deleted on disk; the expired listing triggers a rescan
    assert!(matches!(table.update_if_needed("/", 10), UpdateStep::Rescan { .. }));
    table.map_urls_from("/root", &vec![child("a.txt", false)], 10);

    assert!(!table.contains_url_entry("/c.txt"));
    let page = String::from_utf8(
        table.get_url_entry("/").unwrap().cache.as_ref().unwrap().content.clone(),
    )
    .unwrap();
    assert!(!page.contains("c.txt"));
    assert!(page.contains("a.txt"));
}

#[test]
fn redirect_rule_for_directories_without_slash() {
    let mut table = UrlsTable::new(String::from("/root"), None);
    table.map_urls_from("/root", &vec![child("b", true), child("a.txt", false)], 0);
    assert!(table.should_redirect("/b"));
    assert!(!table.should_redirect("/a.txt"));
    assert!(!table.should_redirect("/b/"));
    assert!(!table.should_redirect("/nowhere"));
}

#[test]
fn url_to_fs_path_joins_under_root() {
    let table = UrlsTable::new(String::from("/root"), None);
    assert_eq!(table.url_to_fs_path("/x/y"), "/root/x/y");
    assert_eq!(table.url_to_fs_path("/"), "/root");
    assert_eq!(table.url_to_fs_path("/b/"), "/root/b");
}

#[test]
fn stored_fs_path_is_authoritative() {
    let mut table = UrlsTable::new(String::from("/root"), None);
    table.map_urls_from("/root/b", &vec![child("index.html", false)], 0);
    // "/b/" is backed by the index file, not by the joined directory path
    assert_eq!(table.url_to_fs_path("/b/"), "/root/b/index.html");
}

#[test]
fn root_path_trailing_slashes_are_dropped() {
    let mut table = UrlsTable::new(String::from("/root///"), None);
    table.map_urls_from("/root", &vec![child("a.txt", false)], 0);
    assert_eq!(table.get_url_entry("/a.txt").unwrap().fs_path, "/root/a.txt");
    assert_eq!(table.url_to_fs_path("/x"), "/root/x");
}

#[test]
fn end_to_end_resolution_flow() {
    // root holds a.txt and b/, where b/ holds index.html
    let mut table = UrlsTable::new(String::from("/root"), Some(60));

    // request "/": unknown, probed, statted as a directory, scanned
    let step = table.update_if_needed("/", 0);
    let probed = match step {
        UpdateStep::Probe { fs_path } => fs_path,
        _ => panic!("the root must be probed on first contact"),
    };
    assert_eq!(probed, "/root");
    let dir = scan_target(&probed, PathKind::Dir).unwrap();
    table.map_urls_from(&dir, &vec![child("a.txt", false), child("b", true)], 0);

    // the root has no index file, so its response is a generated listing
    let listing = String::from_utf8(
        table.get_url_entry("/").unwrap().cache.as_ref().unwrap().content.clone(),
    )
    .unwrap();
    assert!(listing.contains("<a href=\"/a.txt\""));
    assert!(listing.contains("<a href=\"/b/\""));

    // request "/b/": stale directory entry, rescanned, resolves to index.html
    match table.update_if_needed("/b/", 1) {
        UpdateStep::Rescan { dir } => {
            assert_eq!(dir, "/root/b");
            table.map_urls_from(&dir, &vec![child("index.html", false)], 1);
        },
        _ => panic!("the uncached directory must be rescanned"),
    }
    let b_entry = table.get_url_entry("/b/").unwrap();
    assert_eq!(b_entry.fs_path, "/root/b/index.html");
    assert!(b_entry.cache.is_none());

    // request "/a.txt" twice within the TTL: the second hit is served from
    // the cache installed after the first read
    assert!(matches!(table.update_if_needed("/a.txt", 2), UpdateStep::UpToDate));
    table.update_or_set_cache_of("/a.txt", b"file bytes".to_vec(), String::from("Content-Type: text/plain"), 2);
    assert!(matches!(table.update_if_needed("/a.txt", 30), UpdateStep::UpToDate));
    let cached = table.get_url_entry("/a.txt").unwrap().cache.as_ref().unwrap();
    assert!(!cached.is_expired(30));
    assert_eq!(cached.content, b"file bytes");
}
