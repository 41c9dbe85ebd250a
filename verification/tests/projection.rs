use snapshot_fs::{ArchiveFs, DirEntry, FileAttrData, FileKind, SnapshotError};
use std::io::{Cursor, Write};

fn one_file_in_flat_zip(name: &str, content: &str) -> Vec<u8> {
    multiple_files_in_flat_zip(&[(name, content)])
}

fn multiple_files_in_flat_zip(files: &[(&str, &str)]) -> Vec<u8> {
    let mut z = zip::write::ZipWriter::new(Cursor::new(Vec::new()));

    for &(name, content) in files {
        z.start_file(name, zip::write::SimpleFileOptions::default())
            .unwrap();
        z.write_all(content.as_bytes()).unwrap();
    }

    z.finish().unwrap().into_inner()
}

fn multiple_files_in_multiple_directories_zip() -> Vec<u8> {
    multiple_files_in_flat_zip(&[
        ("top.txt", "top_content"),
        ("a\\inner.txt", "inner_content"),
        ("b\\inner.txt", "inner_content2"),
        ("a\\other.txt", "other_content"),
        ("b\\c\\deep.txt", "deep_content"),
    ])
}

fn get_attr(path: &str, arch: &ArchiveFs) -> FileAttrData {
    arch.getattr(path.as_bytes())
}

fn assert_attr_dir(path: &str, arch: &ArchiveFs) {
    let attr = get_attr(path, arch);
    assert_eq!(FileKind::Directory, attr.kind, "expected Directory at {path}");
}

fn assert_attr_file(path: &str, arch: &ArchiveFs) {
    let attr = get_attr(path, arch);
    assert_eq!(FileKind::File, attr.kind, "expected File at {path}");
}

fn assert_attr_size(expected: u64, path: &str, arch: &ArchiveFs) {
    let attr = get_attr(path, arch);
    assert_eq!(expected, attr.size);
}

fn assert_file_content(expected: &str, path: &str, arch: &mut ArchiveFs) {
    let v = arch
        .read(path.as_bytes(), 0, expected.len() as u32)
        .unwrap();
    assert_eq!(expected.as_bytes(), v.as_slice());
}

fn assert_is_file(name: &str, entry: &DirEntry) {
    assert_eq!(name.as_bytes(), entry.name.as_slice());
    assert_eq!(FileKind::File, entry.kind);
}

fn assert_is_directory(name: &str, entry: &DirEntry) {
    assert_eq!(name.as_bytes(), entry.name.as_slice());
    assert_eq!(FileKind::Directory, entry.kind);
}

#[test]
fn readdir_on_one_file_in_flat_zip() {
    let buf = one_file_in_flat_zip("test.txt", "content");
    let archive = ArchiveFs::from_zip(buf).unwrap();

    let result = archive.readdir(b"/");
    assert_eq!(1, result.len());
    assert_is_file("test.txt", &result[0]);

    let result = archive.readdir(b"/");
    assert_eq!(1, result.len());
    assert_is_file("test.txt", &result[0]);
}

#[test]
fn readdir_multiple_files_in_flat_zip() {
    let files = vec![
        ("test.txt", "content"),
        ("foo", "asdsa"),
        ("bar", ""),
        ("baz", "xxxxx"),
    ];
    let buf = multiple_files_in_flat_zip(&files);
    let archive = ArchiveFs::from_zip(buf).unwrap();

    let listing = archive.readdir(b"/");

    assert_eq!(files.len(), listing.len());
    for i in 0..files.len() {
        assert_is_file(files[i].0, &listing[i]);
    }
}

#[test]
fn readdir_multiple_files_in_multiple_directories_zip() {
    let buf = multiple_files_in_multiple_directories_zip();
    let archive = ArchiveFs::from_zip(buf).unwrap();

    let listing = archive.readdir(b"/");

    assert_eq!(3, listing.len());

    assert_is_file("top.txt", &listing[0]);
    assert_is_directory("a", &listing[1]);
    assert_is_directory("b", &listing[2]);
}

#[test]
fn readdir_subdir_multiple_files_in_multiple_directories_zip() {
    let buf = multiple_files_in_multiple_directories_zip();
    let archive = ArchiveFs::from_zip(buf).unwrap();

    let listing = archive.readdir(b"/b");

    assert_eq!(2, listing.len());
    assert_is_file("inner.txt", &listing[0]);
    assert_is_directory("c", &listing[1]);
}

#[test]
fn test_convert_name() {
    let entry = snapshot_fs::convert_name(b"b", b"/").unwrap();
    assert_eq!(b"b", entry.name.as_slice());

    let entry = snapshot_fs::convert_name(b"b\\c", b"/").unwrap();
    assert_eq!(b"b", entry.name.as_slice());

    assert!(snapshot_fs::convert_name(b"b", b"/b").is_none());

    let entry = snapshot_fs::convert_name(b"b\\c", b"/b").unwrap();
    assert_eq!(b"c", entry.name.as_slice());

    let entry = snapshot_fs::convert_name(b"b\\c\\d", b"/b").unwrap();
    assert_eq!(b"c", entry.name.as_slice());
    assert_eq!(FileKind::Directory, entry.kind);

    let entry = snapshot_fs::convert_name(b"b\\c\\d", b"/b/c").unwrap();
    assert_eq!(b"d", entry.name.as_slice());

    assert!(snapshot_fs::convert_name(b"b", b"/c").is_none());
    assert!(snapshot_fs::convert_name(b"b/c", b"/b/a").is_none());
}

#[test]
fn getattr_subdir_multiple_files_in_multiple_directories_zip() {
    let buf = multiple_files_in_multiple_directories_zip();
    let mut archive = ArchiveFs::from_zip(buf).unwrap();

    assert_attr_dir("/a", &archive);
    assert_attr_dir("/b", &archive);
    assert_attr_dir("/b/c", &archive);

    assert_attr_file("/top.txt", &archive);
    assert_attr_size(11, "/top.txt", &archive);
    assert_file_content("top_content", "/top.txt", &mut archive);

    assert_attr_file("/a/inner.txt", &archive);
    assert_attr_size(13, "/a/inner.txt", &archive);
    assert_file_content("inner_content", "/a/inner.txt", &mut archive);

    assert_attr_file("/b/inner.txt", &archive);
    assert_attr_size(14, "/b/inner.txt", &archive);
    assert_file_content("inner_content2", "/b/inner.txt", &mut archive);

    assert_attr_file("/a/other.txt", &archive);
    assert_attr_size(13, "/a/other.txt", &archive);
    assert_file_content("other_content", "/a/other.txt", &mut archive);

    assert_attr_file("/b/c/deep.txt", &archive);
    assert_attr_size(12, "/b/c/deep.txt", &archive);
    assert_file_content("deep_content", "/b/c/deep.txt", &mut archive);
}

#[test]
fn from_zip_rejects_invalid_container() {
    match ArchiveFs::from_zip(vec![1, 2, 3, 4]) {
        Err(SnapshotError::DummyError) => {}
        Ok(_) => panic!("an invalid container must be rejected"),
    }
}

#[test]
fn getattr_on_unmatched_path_reports_empty_directory() {
    let buf = one_file_in_flat_zip("test.txt", "content");
    let archive = ArchiveFs::from_zip(buf).unwrap();

    let attr = get_attr("/no/such/path", &archive);
    assert_eq!(FileKind::Directory, attr.kind);
    assert_eq!(0, attr.size);

    let listing = archive.readdir(b"/no/such/path");
    assert_eq!(0, listing.len());
}

#[test]
fn attributes_carry_the_shared_constants() {
    let buf = one_file_in_flat_zip("test.txt", "content");
    let archive = ArchiveFs::from_zip(buf).unwrap();

    let file = get_attr("/test.txt", &archive);
    assert_eq!(0o755, file.perm);
    assert_eq!(2, file.nlink);
    assert_eq!(501, file.uid);
    assert_eq!(20, file.gid);
    assert_eq!(1381237736, file.time_sec);
    assert_eq!(7, file.size);

    let dir = get_attr("/", &archive);
    assert_eq!(0o755, dir.perm);
    assert_eq!(FileKind::Directory, dir.kind);
    assert_eq!(0, dir.size);
}

#[test]
fn lookup_delegates_to_getattr_on_the_joined_path() {
    let buf = multiple_files_in_multiple_directories_zip();
    let archive = ArchiveFs::from_zip(buf).unwrap();

    let attr = archive.lookup(b"/b", b"inner.txt");
    assert_eq!(FileKind::File, attr.kind);
    assert_eq!(14, attr.size);

    let attr = archive.lookup(b"/b", b"c");
    assert_eq!(FileKind::Directory, attr.kind);
}

#[test]
fn read_serves_exact_byte_ranges() {
    let buf = multiple_files_in_multiple_directories_zip();
    let mut archive = ArchiveFs::from_zip(buf).unwrap();

    // the first N bytes, N within the content
    let v = archive.read(b"/top.txt", 0, 3).unwrap();
    assert_eq!(b"top", v.as_slice());

    // a window in the middle
    let v = archive.read(b"/top.txt", 3, 4).unwrap();
    assert_eq!(b"_con", v.as_slice());

    // asking beyond the content length returns what remains, no error
    let v = archive.read(b"/top.txt", 4, 1000).unwrap();
    assert_eq!(b"content", v.as_slice());

    // an offset past the end returns nothing, no error
    let v = archive.read(b"/top.txt", 999, 10).unwrap();
    assert_eq!(0, v.len());
}

#[test]
fn read_on_a_directory_path_fails() {
    let buf = multiple_files_in_multiple_directories_zip();
    let mut archive = ArchiveFs::from_zip(buf).unwrap();

    match archive.read(b"/b", 0, 10) {
        Err(SnapshotError::DummyError) => {}
        Ok(_) => panic!("a directory has no byte content to read"),
    }
}

#[test]
fn duplicate_child_names_keep_the_first_kind() {
    // "b" is a file at the root, and "b\c" would also put a child named
    // "b" there: the first occurrence wins, kind included.
    let buf = multiple_files_in_flat_zip(&[("b", "x"), ("b\\c", "y")]);
    let archive = ArchiveFs::from_zip(buf).unwrap();

    let listing = archive.readdir(b"/");
    assert_eq!(1, listing.len());
    assert_is_file("b", &listing[0]);
}

#[test]
fn mixed_case_nested_round_trip() {
    let buf = multiple_files_in_flat_zip(&[
        ("MiXeD\\CaSe.TXT", "MixedContent"),
        ("MiXeD\\lower.txt", "plain"),
    ]);
    let mut archive = ArchiveFs::from_zip(buf).unwrap();

    assert_attr_file("/MiXeD/CaSe.TXT", &archive);
    assert_attr_size(12, "/MiXeD/CaSe.TXT", &archive);
    assert_file_content("MixedContent", "/MiXeD/CaSe.TXT", &mut archive);

    assert_attr_file("/MiXeD/lower.txt", &archive);
    assert_attr_size(5, "/MiXeD/lower.txt", &archive);
    assert_file_content("plain", "/MiXeD/lower.txt", &mut archive);
}

#[test]
fn dot_components_are_passed_over() {
    // a `.` step inside a key does not become a child of its own
    let buf = multiple_files_in_flat_zip(&[("b\\.\\c", "dotted")]);
    let mut archive = ArchiveFs::from_zip(buf).unwrap();

    let listing = archive.readdir(b"/b");
    assert_eq!(1, listing.len());
    assert_is_file("c", &listing[0]);

    let entry = snapshot_fs::convert_name(b"b\\.\\c", b"/b").unwrap();
    assert_eq!(b"c", entry.name.as_slice());
    assert_eq!(FileKind::File, entry.kind);

    // a `.` step in the asked-for path is likewise passed over
    let listing = archive.readdir(b"/b/.");
    assert_eq!(1, listing.len());
    assert_is_file("c", &listing[0]);

    // classification stays an exact byte match on the normalized key
    assert_attr_file("/b/./c", &archive);
    assert_file_content("dotted", "/b/./c", &mut archive);
}

#[test]
fn relative_paths_list_nothing() {
    let buf = multiple_files_in_multiple_directories_zip();
    let archive = ArchiveFs::from_zip(buf).unwrap();

    assert!(snapshot_fs::convert_name(b"b\\c", b"b").is_none());
    assert_eq!(0, archive.readdir(b"b").len());
    assert_eq!(0, archive.readdir(b"").len());
}

#[test]
fn to_zip_path_converts_and_strips_the_root() {
    let buf = one_file_in_flat_zip("test.txt", "content");
    let archive = ArchiveFs::from_zip(buf).unwrap();

    assert_eq!(b"b\\c", archive.to_zip_path(b"/b/c").as_slice());
    assert_eq!(b"b\\c", archive.to_zip_path(b"b/c").as_slice());
    assert_eq!(b"", archive.to_zip_path(b"/").as_slice());

    assert!(archive.is_directory(b"/b/c"));
    assert!(!archive.is_directory(b"/test.txt"));
    assert_eq!(7, archive.get_size(b"/test.txt"));
}
