use assets_tar_zstd::codec::{build_archive, build_then_decode, decode_archive};
use assets_tar_zstd::config::{AssetsTarZstdConfig, AssetsTarZstdPlugin, Config};
use assets_tar_zstd::entry::{is_clean_path, Entry, EntryKind};
use assets_tar_zstd::query::{fetch_file, fetch_metadata, find_entry, list_children};
use assets_tar_zstd::worker::{handle_request, metadata_is_dir, metadata_is_file, Reply, Request};

fn file(path: &str, data: &[u8]) -> Entry {
    Entry { path: path.to_string(), kind: EntryKind::File, data: data.to_vec() }
}

fn dir(path: &str) -> Entry {
    Entry { path: path.to_string(), kind: EntryKind::Directory, data: Vec::new() }
}

fn sample_tree() -> Vec<Entry> {
    vec![file("a.txt", b"hi"), dir("sub"), file("sub/b.txt", b"yo")]
}

fn built_and_decoded(entries: &Vec<Entry>) -> Vec<Entry> {
    let bytes = build_archive(entries).expect("build should succeed");
    decode_archive(bytes.as_slice()).expect("decode should succeed")
}

#[test]
fn round_trip_fetch_file() {
    let tree = sample_tree();
    let decoded = built_and_decoded(&tree);
    assert_eq!(fetch_file(&decoded, "a.txt"), Some(b"hi".to_vec()));
    assert_eq!(fetch_file(&decoded, "sub/b.txt"), Some(b"yo".to_vec()));
    assert_eq!(fetch_file(&decoded, "missing.txt"), None);
    assert_eq!(fetch_file(&decoded, "sub"), None);
}

#[test]
fn round_trip_keeps_every_field() {
    let tree = sample_tree();
    let decoded = built_and_decoded(&tree);
    assert_eq!(decoded.len(), tree.len());
    for (d, t) in decoded.iter().zip(tree.iter()) {
        assert_eq!(d.path, t.path);
        assert_eq!(d.kind, t.kind);
        assert_eq!(d.data, t.data);
    }
}

#[test]
fn metadata_classification() {
    let tree = sample_tree();
    let decoded = built_and_decoded(&tree);
    assert_eq!(fetch_metadata(&decoded, "a.txt"), Some(EntryKind::File));
    assert_eq!(fetch_metadata(&decoded, "sub/b.txt"), Some(EntryKind::File));
    assert_eq!(fetch_metadata(&decoded, "sub"), Some(EntryKind::Directory));
    assert_eq!(fetch_metadata(&decoded, "nope"), None);
}

#[test]
fn children_enumeration() {
    let tree = sample_tree();
    let decoded = built_and_decoded(&tree);
    assert_eq!(list_children(&decoded, "."), vec!["a.txt".to_string(), "sub".to_string()]);
    assert_eq!(list_children(&decoded, "sub"), vec!["sub/b.txt".to_string()]);
    let empty: Vec<String> = Vec::new();
    assert_eq!(list_children(&decoded, "missing"), empty);
}

#[test]
fn children_are_sorted_and_immediate_only() {
    let entries = vec![
        file("z.txt", b"3"),
        dir("d"),
        file("d/inner.txt", b"4"),
        dir("d/aa"),
        file("d/aa/deep.txt", b"5"),
        file("a.txt", b"1"),
        file("m.txt", b"2"),
    ];
    let listed = list_children(&entries, ".");
    assert_eq!(
        listed,
        vec!["a.txt".to_string(), "d".to_string(), "m.txt".to_string(), "z.txt".to_string()]
    );
    assert_eq!(list_children(&entries, "d"), vec!["d/aa".to_string(), "d/inner.txt".to_string()]);
}

#[test]
fn rebuild_is_idempotent() {
    let tree = sample_tree();
    let first = build_archive(&tree).expect("build should succeed");
    let second = build_archive(&tree).expect("build should succeed");
    assert_eq!(first, second);
    let d1 = decode_archive(first.as_slice()).expect("decode should succeed");
    let d2 = decode_archive(second.as_slice()).expect("decode should succeed");
    assert_eq!(fetch_file(&d1, "a.txt"), fetch_file(&d2, "a.txt"));
    assert_eq!(list_children(&d1, "."), list_children(&d2, "."));
}

#[test]
fn boundary_paths_return_not_found() {
    let tree = sample_tree();
    let decoded = built_and_decoded(&tree);
    assert_eq!(fetch_file(&decoded, ""), None);
    assert_eq!(fetch_file(&decoded, "/"), None);
    assert_eq!(fetch_file(&decoded, "nonexistent/path"), None);
}

#[test]
fn queries_on_empty_archive() {
    let decoded = built_and_decoded(&Vec::new());
    assert_eq!(fetch_file(&decoded, "a.txt"), None);
    assert_eq!(fetch_metadata(&decoded, "a.txt"), None);
    let empty: Vec<String> = Vec::new();
    assert_eq!(list_children(&decoded, "."), empty);
}

#[test]
fn find_entry_returns_first_match() {
    let entries = vec![file("dup", b"one"), file("dup", b"two"), file("other", b"x")];
    assert_eq!(find_entry(&entries, "dup"), Some(0));
    assert_eq!(find_entry(&entries, "other"), Some(2));
    assert_eq!(find_entry(&entries, "none"), None);
    assert_eq!(fetch_file(&entries, "dup"), Some(b"one".to_vec()));
}

#[test]
fn other_entry_kinds_are_invisible() {
    let entries = vec![
        Entry { path: "link".to_string(), kind: EntryKind::Other, data: Vec::new() },
        file("real.txt", b"data"),
    ];
    assert_eq!(fetch_metadata(&entries, "link"), None);
    assert_eq!(fetch_file(&entries, "link"), None);
    assert_eq!(fetch_file(&entries, "real.txt"), Some(b"data".to_vec()));
}

#[test]
fn mixed_requests_do_not_cross_talk() {
    let tree = sample_tree();
    let decoded = built_and_decoded(&tree);
    let requests = vec![
        Request::FetchFile("a.txt".to_string()),
        Request::FetchMetadata("sub".to_string()),
        Request::ListChildren(".".to_string()),
        Request::FetchFile("sub/b.txt".to_string()),
        Request::FetchMetadata("missing".to_string()),
        Request::FetchFile("a.txt".to_string()),
    ];
    let mut replies = Vec::new();
    for req in &requests {
        replies.push(handle_request(&decoded, req));
    }
    match &replies[0] {
        Reply::FileBytes(Some(v)) => assert_eq!(v, b"hi"),
        other => panic!("unexpected reply: {:?}", other),
    }
    match &replies[1] {
        Reply::Metadata(Some(EntryKind::Directory)) => {}
        other => panic!("unexpected reply: {:?}", other),
    }
    match &replies[2] {
        Reply::Children(c) => assert_eq!(c, &vec!["a.txt".to_string(), "sub".to_string()]),
        other => panic!("unexpected reply: {:?}", other),
    }
    match &replies[3] {
        Reply::FileBytes(Some(v)) => assert_eq!(v, b"yo"),
        other => panic!("unexpected reply: {:?}", other),
    }
    match &replies[4] {
        Reply::Metadata(None) => {}
        other => panic!("unexpected reply: {:?}", other),
    }
    match (&replies[0], &replies[5]) {
        (Reply::FileBytes(a), Reply::FileBytes(b)) => assert_eq!(a, b),
        other => panic!("unexpected replies: {:?}", other),
    }
}

#[test]
fn metadata_convenience_wrappers() {
    assert!(metadata_is_file(&Some(EntryKind::File)));
    assert!(!metadata_is_file(&Some(EntryKind::Directory)));
    assert!(!metadata_is_file(&None));
    assert!(metadata_is_dir(&Some(EntryKind::Directory)));
    assert!(!metadata_is_dir(&Some(EntryKind::File)));
    assert!(!metadata_is_dir(&None));
    assert!(EntryKind::File.is_file());
    assert!(!EntryKind::File.is_dir());
    assert!(EntryKind::Directory.is_dir());
    assert!(!EntryKind::Other.is_file());
}

#[test]
fn clean_path_checks() {
    assert!(is_clean_path("a.txt"));
    assert!(is_clean_path("sub/b.txt"));
    assert!(is_clean_path(".hidden"));
    assert!(is_clean_path("a.b/c..d"));
    assert!(is_clean_path("."));
    assert!(!is_clean_path(""));
    assert!(!is_clean_path("/abs"));
    assert!(!is_clean_path("trail/"));
    assert!(!is_clean_path("a//b"));
    assert!(!is_clean_path("./x"));
    assert!(!is_clean_path("x/./y"));
    assert!(!is_clean_path(".."));
    assert!(!is_clean_path("a/../b"));
    assert!(!is_clean_path("x/.."));
}

#[test]
fn long_paths_round_trip() {
    let long_dir = "d".repeat(120);
    let long_path = format!("{}/file.txt", long_dir);
    let entries = vec![dir(&long_dir), file(&long_path, b"deep")];
    let decoded = built_and_decoded(&entries);
    assert_eq!(fetch_file(&decoded, &long_path), Some(b"deep".to_vec()));
    assert_eq!(fetch_metadata(&decoded, &long_dir), Some(EntryKind::Directory));
}

#[test]
fn build_then_decode_round_trips() {
    let tree = sample_tree();
    let decoded = build_then_decode(&tree).expect("round trip should succeed");
    assert_eq!(decoded.len(), tree.len());
    for (d, t) in decoded.iter().zip(tree.iter()) {
        assert_eq!(d.path, t.path);
        assert_eq!(d.kind, t.kind);
        assert_eq!(d.data, t.data);
    }
}

#[test]
fn root_entry_is_directory_and_not_its_own_child() {
    let entries = vec![dir("."), file("a.txt", b"hi"), dir("sub")];
    let decoded = built_and_decoded(&entries);
    assert_eq!(fetch_metadata(&decoded, "."), Some(EntryKind::Directory));
    assert_eq!(fetch_file(&decoded, "."), None);
    assert_eq!(list_children(&decoded, "."), vec!["a.txt".to_string(), "sub".to_string()]);
}

#[test]
fn symlink_entries_round_trip_invisible_but_listed() {
    let entries = vec![
        file("a.txt", b"hi"),
        Entry { path: "link".to_string(), kind: EntryKind::Other, data: Vec::new() },
    ];
    let decoded = built_and_decoded(&entries);
    assert_eq!(decoded.len(), 2);
    assert_eq!(decoded[1].path, "link");
    assert_eq!(decoded[1].kind, EntryKind::Other);
    assert_eq!(fetch_metadata(&decoded, "link"), None);
    assert_eq!(fetch_file(&decoded, "link"), None);
    assert_eq!(list_children(&decoded, "."), vec!["a.txt".to_string(), "link".to_string()]);
}

#[test]
fn damaged_archive_keeps_leading_entries_without_failing() {
    let tree = sample_tree();
    let container = build_archive(&tree).expect("build should succeed");
    let tar_payload =
        zstd::stream::decode_all(container.as_slice()).expect("container should decompress");
    // Cut the stream inside the second record's header: the first record
    // stays readable, everything behind the damage is gone.
    let truncated = &tar_payload[..1100];
    let damaged =
        zstd::stream::encode_all(truncated, 12).expect("recompression should succeed");
    let decoded = decode_archive(damaged.as_slice()).expect("a valid stream must decode");
    assert_eq!(fetch_file(&decoded, "a.txt"), Some(b"hi".to_vec()));
    assert_eq!(fetch_file(&decoded, "sub/b.txt"), None);
    assert_eq!(fetch_metadata(&decoded, "sub"), None);
}

#[test]
fn config_defaults() {
    let c = AssetsTarZstdConfig::default();
    assert_eq!(c.name, "assets");
    let b = Config::default();
    assert_eq!(b.name, "assets");
    assert_eq!(b.target_dir, "../../..");
    let p = AssetsTarZstdPlugin::default();
    assert_eq!(p.config.name, "assets");
    let p2 = AssetsTarZstdPlugin::new(AssetsTarZstdConfig { name: "bundle".to_string() });
    assert_eq!(p2.config.name, "bundle");
}
