use filesync::file::ServerFolderInfo;
use filesync::file_updater::FileHolder;
use filesync::pipeline::compress_in_mem;
use filesync::pipeline::decompress_in_mem;
use filesync::pipeline::hash_of;

fn folder<'a>(h: &'a FileHolder, path: &str) -> &'a ServerFolderInfo {
    h.folder_info(path).expect("folder should exist")
}

#[test]
fn empty_tree_lookups() {
    let h = FileHolder::new();
    assert!(h.folder_info("").is_some());
    assert!(h.folder_info("a").is_none());
    assert!(h.file_info("", "f").is_none());
    assert!(h.file_info("a/b", "f").is_none());
}

#[test]
fn get_or_create_builds_missing_folders() {
    let mut h = FileHolder::new();
    let (_entry, created) = h.get_or_create_file_info("a/b/c", "f.txt");
    assert!(created);
    assert!(h.folder_info("a").is_some());
    assert!(h.folder_info("a/b").is_some());
    assert!(h.folder_info("a/b/c").is_some());
    assert!(h.folder_info("a/c").is_none());
    assert!(h.file_info("a/b/c", "f.txt").is_some());

    // A second call finds the entry and reports nothing created.
    let (_entry, created_again) = h.get_or_create_file_info("a/b/c", "f.txt");
    assert!(!created_again);
}

#[test]
fn upload_preserves_creation_stamp() {
    let mut h = FileHolder::new();
    let _ = h.add_file("a/b/c", "f.txt", b"one", 111);
    let first = h.file_info("a/b/c", "f.txt").unwrap();
    assert_eq!(first.created_at, 111);
    assert_eq!(first.updated_at, 111);

    let _ = h.add_file("a/b/c", "f.txt", b"two two", 222);
    let second = h.file_info("a/b/c", "f.txt").unwrap();
    assert_eq!(second.created_at, 111);
    assert_eq!(second.updated_at, 222);
    assert_eq!(second.size, 7);
}

#[test]
fn upload_hello_has_expected_fingerprint_and_artifact() {
    let mut h = FileHolder::new();
    let compressed = h.add_file("notes", "doc.txt", b"hello", 42);

    let entry = h.file_info("notes", "doc.txt").unwrap();
    assert_eq!(entry.size, 5);
    assert_eq!(entry.hash, hash_of(b"hello"));
    assert!(!entry.deleted);

    // The stored fingerprint is the fast 64-bit hash in hex, exactly
    // as the hashing crate computes it.
    let mut hasher = seahash::SeaHasher::default();
    std::hash::Hasher::write(&mut hasher, b"hello");
    let expected = format!("{:016x}", std::hash::Hasher::finish(&hasher));
    assert_eq!(entry.hash, expected);

    // The artifact decompresses back to exactly the payload, through
    // the library and through the compression crate directly.
    let restored = decompress_in_mem(&compressed).unwrap();
    assert_eq!(restored, b"hello");
    let mut direct = Vec::new();
    let mut decoder = flate2::write::ZlibDecoder::new(&mut direct);
    std::io::Write::write_all(&mut decoder, &compressed).unwrap();
    decoder.finish().unwrap();
    assert_eq!(direct, b"hello");
}

#[test]
fn compress_round_trip_and_hash_width() {
    let data: Vec<u8> = (0..=255u8).cycle().take(4096).collect();
    let packed = compress_in_mem(&data);
    assert!(packed.len() < data.len());
    assert_eq!(decompress_in_mem(&packed).unwrap(), data);
    assert!(decompress_in_mem(b"not zlib at all").is_none());
    assert_eq!(hash_of(b"").len(), 16);
    assert_eq!(hash_of(&data).len(), 16);
}

#[test]
fn create_folder_missing_parent_is_refused() {
    let mut h = FileHolder::new();
    assert!(!h.create_folder("missing_parent_child", "sub"));
    assert!(h.folder_info("missing_parent_child").is_none());
    assert!(h.folder_info("missing_parent_child/sub").is_none());
    assert_eq!(folder(&h, "").folders.len(), 0);
    assert_eq!(folder(&h, "").files.len(), 0);
}

#[test]
fn create_folder_under_root_and_nested() {
    let mut h = FileHolder::new();
    assert!(h.create_folder("", "top"));
    assert!(h.create_folder("top", "inner"));
    assert!(h.folder_info("top/inner").is_some());
    assert!(!h.create_folder("top/absent", "x"));
}

#[test]
fn delete_file_toggles_twice_back() {
    let mut h = FileHolder::new();
    let _ = h.add_file("d", "f", b"data", 1);
    assert!(!h.file_info("d", "f").unwrap().deleted);
    assert!(h.delete_file("d", "f"));
    assert!(h.file_info("d", "f").unwrap().deleted);
    assert!(h.delete_file("d", "f"));
    assert!(!h.file_info("d", "f").unwrap().deleted);
    assert!(!h.delete_file("d", "absent"));
    assert!(!h.delete_file("absent", "f"));
}

#[test]
fn delete_folder_toggles_only_the_node() {
    let mut h = FileHolder::new();
    let _ = h.add_file("p/q", "f", b"x", 1);
    assert!(h.delete_folder("p/q"));
    assert!(folder(&h, "p/q").deleted);
    assert!(!folder(&h, "p").deleted);
    assert!(!h.file_info("p/q", "f").unwrap().deleted);
    assert!(h.delete_folder("p/q"));
    assert!(!folder(&h, "p/q").deleted);
    assert!(!h.delete_folder("p/r"));
}

#[test]
fn toggle_hash_check_flips() {
    let mut h = FileHolder::new();
    let _ = h.add_file("", "user.ini", b"cfg", 1);
    assert!(!h.file_info("", "user.ini").unwrap().skip_hash_check);
    assert!(h.toggle_hash_check("", "user.ini"));
    assert!(h.file_info("", "user.ini").unwrap().skip_hash_check);
    assert!(h.toggle_hash_check("", "user.ini"));
    assert!(!h.file_info("", "user.ini").unwrap().skip_hash_check);
    assert!(!h.toggle_hash_check("", "nope"));
}

#[test]
fn aggregation_sums_sizes_and_counts() {
    let mut h = FileHolder::new();
    let _ = h.add_file("a", "f1", b"12345", 1); // 5 bytes
    let _ = h.add_file("a/b", "f2", b"123", 1); // 3 bytes
    let _ = h.add_file("", "f0", b"1", 1); // 1 byte
    let (size, count) = h.root_folder.calc_size();
    assert_eq!(size, 9);
    assert_eq!(count, 3);
    assert_eq!(folder(&h, "a").size, 8);
    assert_eq!(folder(&h, "a").files_count, 2);
    assert_eq!(folder(&h, "a/b").size, 3);
    assert_eq!(folder(&h, "a/b").files_count, 1);
    assert_eq!(h.root_folder.size, 9);
    assert_eq!(h.root_folder.files_count, 3);
}

#[test]
fn last_write_wins_on_racing_uploads() {
    // Two writers to the same address serialized by the store's lock:
    // whichever lands second wins whole, never a mix of fields.
    let mut h = FileHolder::new();
    let _ = h.add_file("shared", "f", b"first payload", 10);
    let _ = h.add_file("shared", "f", b"second", 20);
    let e = h.file_info("shared", "f").unwrap();
    assert_eq!(e.size, 6);
    assert_eq!(e.hash, hash_of(b"second"));
    assert_eq!(e.updated_at, 20);
    assert_eq!(e.created_at, 10);
}

#[test]
fn can_send_file_requires_visible_entry() {
    let mut h = FileHolder::new();
    let _ = h.add_file("d", "f", b"x", 1);
    assert!(h.can_send_file("d", "f"));
    let _ = h.delete_file("d", "f");
    assert!(!h.can_send_file("d", "f"));
    assert!(!h.can_send_file("d", "other"));
    assert!(!h.can_send_file("nowhere", "f"));
}

#[test]
fn snapshot_wf_check_accepts_and_rejects() {
    let mut h = FileHolder::new();
    let _ = h.add_file("a", "f", b"x", 1);
    let root = h.root_folder;
    let adopted = FileHolder::from_root(root).expect("well-formed tree adopted");
    assert!(adopted.file_info("a", "f").is_some());

    // A tree with duplicate names in one folder is refused.
    let mut bad = ServerFolderInfo::default();
    bad.files.push((String::from("dup"), Default::default()));
    bad.files.push((String::from("dup"), Default::default()));
    assert!(FileHolder::from_root(bad).is_none());
}

#[test]
fn info_line_counts_files() {
    let mut h = FileHolder::new();
    let _ = h.add_file("a", "f1", b"12345", 1);
    let _ = h.add_file("a/b", "f2", b"123", 1);
    let _ = h.root_folder.calc_size();
    assert_eq!(h.info(), "File Holder:\n\tTotal files: 2\n");
}

#[test]
fn empty_segments_are_ordinary_names() {
    // "a//b" has an empty middle segment; lookups treat it as a name.
    let mut h = FileHolder::new();
    let (_e, created) = h.get_or_create_file_info("a//b", "f");
    assert!(created);
    assert!(h.folder_info("a//b").is_some());
    assert!(h.folder_info("a/b").is_none());
    assert!(h.file_info("a//b", "f").is_some());
}

#[test]
fn unicode_paths_round_through_the_store() {
    let mut h = FileHolder::new();
    let _ = h.add_file("\u{00fc}ber/\u{4e2d}\u{6587}", "\u{1f4c4}.txt", b"abc", 1);
    let e = h.file_info("\u{00fc}ber/\u{4e2d}\u{6587}", "\u{1f4c4}.txt").unwrap();
    assert_eq!(e.size, 3);
    let (folders, files) = h.get_folder_and_file_infos("\u{00fc}ber/\u{4e2d}\u{6587}").unwrap();
    assert!(folders.is_empty());
    assert_eq!(files.len(), 1);
    assert_eq!(files[0].name, "\u{1f4c4}.txt");
}
