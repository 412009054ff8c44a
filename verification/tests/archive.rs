use std::path::{Component, Path, PathBuf};

use oci_sync::archive::{
    absolutize, entry_target, normalize_lexically, pack, path_file_name, plan_directory, plan_file, root_name, unpack,
    unpack_step, ArchiveError, EntryKind, FsMeta, UnpackStep,
};

#[test]
fn normalization_resolves_dots() {
    assert_eq!(normalize_lexically("/a/b/../c/./d"), "/a/c/d");
    assert_eq!(normalize_lexically("a//b/"), "a/b");
    assert_eq!(normalize_lexically("../x"), "../x");
    assert_eq!(normalize_lexically("../.."), "../..");
    assert_eq!(normalize_lexically("../../b"), "../../b");
    assert_eq!(normalize_lexically("a/../../b"), "../b");
    assert_eq!(normalize_lexically("/tmp/out/sub/../../evil.txt"), "/tmp/evil.txt");
    assert_eq!(normalize_lexically("a/./b/../c"), "a/c");
    assert_eq!(normalize_lexically("/.."), "/..");
    assert_eq!(normalize_lexically("/"), "/");
    assert_eq!(normalize_lexically(""), "");
    assert_eq!(normalize_lexically("./a"), "a");
}

#[test]
fn normalization_matches_std() {
    fn std_norm(p: &str) -> String {
        let mut result = PathBuf::new();
        for comp in Path::new(p).components() {
            match comp {
                Component::CurDir => {}
                Component::ParentDir => {
                    if !result.pop() {
                        result.push(comp.as_os_str());
                    }
                }
                other => result.push(other.as_os_str()),
            }
        }
        result.to_string_lossy().into_owned()
    }
    for p in ["/a/b/../c", "a/../../b", "//x//y/", "x/./y/.", "..", "a/..", "/tmp/../etc/passwd", "./", "a/b/c/../../.."] {
        assert_eq!(normalize_lexically(p), std_norm(p), "path {p}");
    }
}

#[test]
fn absolute_against_working_directory() {
    assert_eq!(absolutize("out", "/home/u"), "/home/u/out");
    assert_eq!(absolutize("../out", "/home/u"), "/home/out");
    assert_eq!(absolutize("/srv/x/.", "/home/u"), "/srv/x");
}

#[test]
fn traversal_is_refused() {
    assert!(matches!(entry_target("/d/out", "../evil.txt"), Err(ArchiveError::IllegalPath { .. })));
    assert!(matches!(entry_target("/d/out", "sub/../../evil.txt"), Err(ArchiveError::IllegalPath { .. })));
    assert!(matches!(entry_target("/d/out", "/tmp/oci-sync-abs-evil.txt"), Err(ArchiveError::IllegalPath { .. })));
    assert!(entry_target("/d/out", "../outside/x").is_err());
    assert!(entry_target("/d/out", "../out2").is_err());
}

#[test]
fn entries_inside_are_accepted() {
    assert_eq!(entry_target("/d/out", "mydir/sub/b.txt").unwrap(), "/d/out/mydir/sub/b.txt");
    assert_eq!(entry_target("/d/out", "a/../b").unwrap(), "/d/out/b");
    assert_eq!(entry_target("/d/out", "../out/x").unwrap(), "/d/out/x");
    assert_eq!(entry_target("/d/out", ".").unwrap(), "/d/out");
}

#[test]
fn unpack_steps() {
    match unpack_step("/d", "x/f.txt", EntryKind::Regular, None).unwrap() {
        Some(UnpackStep::WriteFile { path, parent, mode }) => {
            assert_eq!(path, "/d/x/f.txt");
            assert_eq!(parent.as_deref(), Some("/d/x"));
            assert_eq!(mode, 0o644);
        }
        other => panic!("unexpected {other:?}"),
    }
    match unpack_step("/d", "f", EntryKind::Regular, Some(0o104755)).unwrap() {
        Some(UnpackStep::WriteFile { mode, .. }) => assert_eq!(mode, 0o755),
        other => panic!("unexpected {other:?}"),
    }
    assert!(matches!(unpack_step("/d", "x", EntryKind::Directory, None), Ok(Some(UnpackStep::CreateDir { .. }))));
    assert!(matches!(unpack_step("/d", "link", EntryKind::Other, None), Ok(None)));
    assert!(unpack_step("/d", "../link", EntryKind::Other, None).is_err());
    assert_eq!(ArchiveError::IllegalPath { path: "../e".into() }.message(), "illegal file path in archive: ../e");
}

#[test]
fn file_names() {
    assert_eq!(path_file_name("/a/b.txt").as_deref(), Some("b.txt"));
    assert_eq!(path_file_name("dir/").as_deref(), Some("dir"));
    assert_eq!(path_file_name("dir/.").as_deref(), Some("dir"));
    assert_eq!(path_file_name("a/.."), None);
    assert_eq!(path_file_name("/"), None);
    assert_eq!(path_file_name("."), None);
    assert_eq!(root_name("/"), "root");
    assert_eq!(root_name("./mydir"), "mydir");
}

#[test]
fn directory_plan() {
    let f = |kind, mode, size| FsMeta { kind, mode, size, mtime: 7 };
    let entries = vec![
        ("sub/b.txt".to_string(), f(EntryKind::Regular, 0o100644, 3)),
        ("a.txt".to_string(), f(EntryKind::Regular, 0o100600, 3)),
        ("link".to_string(), f(EntryKind::Other, 0o120777, 0)),
        ("sub".to_string(), f(EntryKind::Directory, 0o40755, 4096)),
    ];
    let plan = plan_directory("mydir", 9, entries);
    let names: Vec<&str> = plan.iter().map(|h| h.name.as_str()).collect();
    assert_eq!(names, vec!["mydir", "mydir/a.txt", "mydir/sub", "mydir/sub/b.txt"]);
    assert_eq!(plan[0].mode, 0o755);
    assert_eq!(plan[0].mtime, 9);
    assert_eq!(plan[1].mode, 0o600);
    assert_eq!(plan[1].source.as_deref(), Some("a.txt"));
    assert_eq!(plan[2].size, 0);
    assert_eq!(plan[2].source, None);
}

#[test]
fn single_file_plan() {
    let h = plan_file("/x/hello.txt", FsMeta { kind: EntryKind::Regular, mode: 0o100640, size: 14, mtime: 1 }).unwrap();
    assert_eq!(h.name, "hello.txt");
    assert_eq!(h.mode, 0o640);
    assert!(matches!(plan_file("/", FsMeta { kind: EntryKind::Regular, mode: 0, size: 0, mtime: 0 }), Err(ArchiveError::NoFileName { .. })));
}

#[test]
fn normalizing_twice_changes_nothing() {
    for p in ["/a/./b/../c", "../../x/y", "a//b/../..", "/..", "", "./", "x/..", "/a/b/"] {
        let once = normalize_lexically(p);
        assert_eq!(normalize_lexically(&once), once, "path {p}");
    }
}

#[test]
fn plain_entries_are_accepted() {
    for e in ["a", "a/b/c.txt", "./x/./y", "dir/", "a//b"] {
        assert!(entry_target("/dest", e).is_ok(), "entry {e}");
        assert!(entry_target("/", e).is_ok(), "entry {e}");
        assert!(entry_target("/dest/", e).is_ok(), "entry {e}");
    }
}

fn file_meta(size: u64) -> FsMeta {
    FsMeta { kind: EntryKind::Regular, mode: 0o100644, size, mtime: 1_700_000_000 }
}

fn dir_meta() -> FsMeta {
    FsMeta { kind: EntryKind::Directory, mode: 0o40755, size: 0, mtime: 1_700_000_000 }
}

/// The files an unpack writes, as (path, contents), and the directories it creates.
fn outcome(steps: Vec<(UnpackStep, Vec<u8>)>) -> (Vec<(String, Vec<u8>)>, Vec<String>) {
    let mut files = Vec::new();
    let mut dirs = Vec::new();
    for (s, data) in steps {
        match s {
            UnpackStep::WriteFile { path, .. } => files.push((path, data)),
            UnpackStep::CreateDir { path } => dirs.push(path),
        }
    }
    (files, dirs)
}

fn crafted(name: &[u8]) -> Vec<u8> {
    let mut encoder = flate2::write::GzEncoder::new(Vec::new(), flate2::Compression::default());
    {
        let mut builder = tar::Builder::new(&mut encoder);
        let mut header = tar::Header::new_gnu();
        header.set_entry_type(tar::EntryType::Regular);
        header.set_mode(0o644);
        header.set_size(3);
        header.as_old_mut().name[..name.len()].copy_from_slice(name);
        header.set_cksum();
        builder.append(&header, &b"bad"[..]).unwrap();
        builder.finish().unwrap();
    }
    encoder.finish().unwrap()
}

#[test]
fn pack_unpack_single_file_roundtrip() {
    let plan = plan_file("/w/single/hello.txt", file_meta(14)).unwrap();
    let data = pack(&vec![plan], &vec![b"hello oci-sync".to_vec()]).unwrap();
    assert!(!data.is_empty());
    let (files, dirs) = outcome(unpack(&data, "/w/single/out").unwrap());
    assert!(dirs.is_empty());
    assert_eq!(files, vec![("/w/single/out/hello.txt".to_string(), b"hello oci-sync".to_vec())]);
}

#[test]
fn pack_unpack_directory_roundtrip() {
    let entries = vec![
        ("sub".to_string(), dir_meta()),
        ("a.txt".to_string(), file_meta(3)),
        ("sub/deep".to_string(), dir_meta()),
        ("sub/deep/c.txt".to_string(), file_meta(3)),
        ("sub/b.txt".to_string(), file_meta(3)),
    ];
    let plans = plan_directory(&root_name("/w/dir/mydir"), 0, entries);
    let contents: Vec<Vec<u8>> = plans
        .iter()
        .map(|h| match h.source.as_deref() {
            Some("a.txt") => b"AAA".to_vec(),
            Some("sub/b.txt") => b"BBB".to_vec(),
            Some("sub/deep/c.txt") => b"CCC".to_vec(),
            _ => Vec::new(),
        })
        .collect();
    let data = pack(&plans, &contents).unwrap();
    let (files, dirs) = outcome(unpack(&data, "/w/dir/out").unwrap());
    assert_eq!(dirs, vec!["/w/dir/out/mydir", "/w/dir/out/mydir/sub", "/w/dir/out/mydir/sub/deep"]);
    assert!(files.iter().any(|(p, _)| p == "/w/dir/out/mydir/a.txt"));
    assert!(files.iter().any(|(p, _)| p == "/w/dir/out/mydir/sub/deep/c.txt"));
    assert!(files.contains(&("/w/dir/out/mydir/sub/b.txt".to_string(), b"BBB".to_vec())));
}

#[test]
fn unpack_empty_directory() {
    let plans = plan_directory(&root_name("/w/empty/emptydir"), 0, Vec::new());
    let data = pack(&plans, &vec![Vec::new()]).unwrap();
    let (files, dirs) = outcome(unpack(&data, "/w/empty/out").unwrap());
    assert!(files.is_empty());
    assert_eq!(dirs, vec!["/w/empty/out/emptydir"]);
}

#[test]
fn unpack_rejects_path_traversal() {
    let res = unpack(&crafted(b"../evil.txt"), "/w/traversal/out");
    assert!(matches!(res, Err(ArchiveError::IllegalPath { ref path }) if path == "../evil.txt"));
}

#[test]
fn unpack_rejects_nested_traversal() {
    let res = unpack(&crafted(b"sub/../../evil.txt"), "/w/nested/out");
    assert!(matches!(res, Err(ArchiveError::IllegalPath { .. })));
}

#[test]
fn unpack_rejects_absolute_path_entry() {
    assert!(unpack(&crafted(b"/tmp/oci-sync-abs-evil.txt"), "/w/absolute/out").is_err());
}

#[test]
fn unpack_rejects_invalid_gzip() {
    let res = unpack(b"this is not gzip data at all, definitely not", "/w/invalid/out");
    assert!(matches!(res, Err(ArchiveError::Corrupt)));
    assert_eq!(ArchiveError::Corrupt.message(), "read tar entries: not a valid tar.gz archive");
}

#[test]
fn packed_modes_and_kinds_read_back() {
    let plan = plan_file("x/run.sh", FsMeta { kind: EntryKind::Regular, mode: 0o100755, size: 2, mtime: 5 }).unwrap();
    let data = pack(&vec![plan], &vec![b"hi".to_vec()]).unwrap();
    match &unpack(&data, "/o").unwrap()[..] {
        [(UnpackStep::WriteFile { path, parent, mode }, contents)] => {
            assert_eq!(path, "/o/run.sh");
            assert_eq!(parent.as_deref(), Some("/o"));
            assert_eq!(*mode, 0o755);
            assert_eq!(contents, b"hi");
        }
        other => panic!("unexpected {other:?}"),
    }
}

#[test]
fn non_ascii_names_round_trip() {
    let entries = vec![("文档".to_string(), dir_meta()), ("文档/笔记.txt".to_string(), file_meta(6))];
    let plans = plan_directory(&root_name("/w/资料"), 0, entries);
    let contents: Vec<Vec<u8>> =
        plans.iter().map(|h| if h.source.is_some() { "你好".as_bytes().to_vec() } else { Vec::new() }).collect();
    let data = pack(&plans, &contents).unwrap();
    let (files, dirs) = outcome(unpack(&data, "/o").unwrap());
    assert_eq!(dirs, vec!["/o/资料", "/o/资料/文档"]);
    assert_eq!(files, vec![("/o/资料/文档/笔记.txt".to_string(), "你好".as_bytes().to_vec())]);
}

#[test]
fn names_past_the_header_field_are_refused() {
    let long = format!("{}.txt", "n".repeat(120));
    let plan = plan_file(&format!("/w/{long}"), file_meta(1)).unwrap();
    assert!(matches!(pack(&vec![plan], &vec![b"x".to_vec()]), Err(ArchiveError::Unwritable)));
}
