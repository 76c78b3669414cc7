use std::io::Write;

use base64::Engine;

use noide::files::archive::{extract_zip, unpack_failure, Unpack, UnpackAction, UnpackFault};
use noide::files::ops::{
    copy_entry, copy_recursive, create_directory, create_file, delete_entry, download_file,
    get_cwd, read_file, read_file_base64, rename_entry, step_failure, upload_file, write_file,
    FsStep, Step,
};
use noide::files::search::{
    matches_to_json, search_in_files, search_pattern, Search, SearchMatch, MAX_FILE_BYTES,
    SEARCH_MAX_RESULTS,
};
use noide::files::tree::{
    descends, is_directory, is_left_out, nodes_to_json, read_dir_recursive, read_directory,
    tree_depth, EntryKind, FileNode, RawDir, RawEntry, RawItem,
};
use noide::files::walk::{
    is_ignored_name, list_files, Walk, WalkItem, WalkStep, WALK_DEPTH, WALK_FILES,
};
use noide::json::Json;
use noide::path::Platform;

const UNIX: Platform = Platform::Unix;

fn step(act: FsStep, fault: &str) -> Step {
    Step { act, fault: fault.to_string() }
}

fn entry(name: &str, kind: EntryKind, listing: RawDir) -> RawItem {
    RawItem::Entry(RawEntry {
        name: name.to_string(),
        path: format!("/w/{}", name),
        kind,
        size: Some(7),
        modified: None,
        listing,
    })
}

fn file(name: &str) -> RawItem {
    entry(name, EntryKind::File, RawDir::Unread)
}

fn names_of(v: &[FileNode]) -> Vec<&str> {
    v.iter().map(|n| n.name.as_str()).collect()
}

#[test]
fn directories_come_first_and_names_ignore_case() {
    let d = RawDir::Items(vec![
        file("beta.rs"),
        file("Alpha.md"),
        entry("zoo", EntryKind::Dir, RawDir::Items(vec![])),
        entry("Lib", EntryKind::Dir, RawDir::Items(vec![])),
    ]);
    let t = read_directory(UNIX, &d, None).unwrap();
    assert_eq!(names_of(&t), vec!["Lib", "zoo", "Alpha.md", "beta.rs"]);
    assert_eq!(t[2].extension, Some("md".to_string()));
    assert_eq!(t[0].extension, None);
    assert_eq!(t[0].children, Some(vec![]));
    assert_eq!(t[2].children, None);
    assert_eq!(t[2].size, Some(7));
}

#[test]
fn names_that_differ_in_case_keep_their_order() {
    let d = RawDir::Items(vec![file("b"), file("A"), file("a")]);
    assert_eq!(names_of(&read_directory(UNIX, &d, None).unwrap()), vec!["A", "a", "b"]);
}

#[test]
fn trees_leave_some_names_out() {
    let d = RawDir::Items(vec![
        entry(".git", EntryKind::Dir, RawDir::Unreadable("denied".to_string())),
        file("node_modules"),
        file("target"),
        file("dist"),
        file("build"),
    ]);
    assert_eq!(names_of(&read_directory(UNIX, &d, None).unwrap()), vec!["build"]);
    assert!(is_left_out(".git") && !is_left_out("build"));
}

#[test]
fn trees_end_at_their_depth() {
    let inner = entry("b", EntryKind::Dir, RawDir::Items(vec![file("c")]));
    let d = RawDir::Items(vec![entry("a", EntryKind::Dir, RawDir::Items(vec![inner]))]);
    let one = read_directory(UNIX, &d, Some(1)).unwrap();
    let below = one[0].children.as_ref().unwrap();
    assert_eq!(names_of(below), vec!["b"]);
    assert_eq!(below[0].children, None);
    let none = read_directory(UNIX, &d, Some(0)).unwrap();
    assert_eq!(none[0].children, None);
    assert_eq!(tree_depth(None), 3);
    assert_eq!(tree_depth(Some(9)), 9);
    assert!(descends("a", EntryKind::Dir, 1, 0));
    assert!(!descends("a", EntryKind::Dir, 1, 1));
    assert!(!descends("dist", EntryKind::Dir, 1, 0));
    assert!(!descends("a", EntryKind::File, 1, 0));
    assert_eq!(names_of(&read_dir_recursive(UNIX, &d, 4, 4).unwrap()), vec!["a"]);
}

#[test]
fn links_are_followed_for_their_kind() {
    assert!(is_directory(EntryKind::Link(Some(true))));
    assert!(!is_directory(EntryKind::Link(None)));
    assert!(is_directory(EntryKind::Other(Some(true))));
    assert!(!is_directory(EntryKind::Other(Some(false))));
    assert!(!is_directory(EntryKind::Unknown));
}

#[test]
fn unreadable_trees_are_refused() {
    let d = RawDir::Unreadable("denied".to_string());
    assert_eq!(
        read_directory(UNIX, &d, None),
        Err("Failed to read directory: denied".to_string())
    );
    let d = RawDir::Items(vec![file("a"), RawItem::Fault("gone".to_string())]);
    assert_eq!(read_directory(UNIX, &d, None), Err("Failed to read entry: gone".to_string()));
}

#[test]
fn unreadable_directories_below_break_no_tree() {
    let broken = RawDir::Items(vec![file("b"), RawItem::Fault("gone".to_string())]);
    let d = RawDir::Items(vec![
        entry("locked", EntryKind::Dir, RawDir::Unreadable("denied".to_string())),
        entry("broken", EntryKind::Dir, broken),
        file("a"),
    ]);
    let nodes = read_directory(UNIX, &d, None).unwrap();
    assert_eq!(names_of(&nodes), ["broken", "locked", "a"]);
    assert!(nodes[0].is_directory && nodes[1].is_directory);
    assert_eq!(nodes[0].children, Some(vec![]));
    assert_eq!(nodes[1].children, Some(vec![]));
    assert_eq!(nodes[2].children, None);
}

#[test]
fn nodes_are_told_in_camel_case() {
    let d = RawDir::Items(vec![entry(
        "src",
        EntryKind::Dir,
        RawDir::Items(vec![file("a.rs")]),
    )]);
    let told = nodes_to_json(&read_directory(UNIX, &d, None).unwrap());
    let top = match told {
        Json::Array(mut v) => v.remove(0),
        _ => panic!("no list"),
    };
    assert_eq!(top.get("isDirectory"), Some(&Json::Bool(true)));
    assert_eq!(top.get("modified"), Some(&Json::Null));
    assert_eq!(top.get("size"), Some(&Json::Unsigned(7)));
    match top.get("children") {
        Some(Json::Array(c)) => {
            assert_eq!(c[0].get("extension"), Some(&Json::Str("rs".to_string())));
            assert_eq!(c[0].get("path"), Some(&Json::Str("/w/a.rs".to_string())));
            assert_eq!(c[0].get("children"), Some(&Json::Null));
        }
        _ => panic!("no children"),
    }
}

fn seen(dir: &str, name: &str, is_dir: bool) -> WalkItem {
    WalkItem::Entry { name: name.to_string(), path: format!("{}/{}", dir, name), is_dir }
}

#[test]
fn walks_go_down_where_a_directory_stands() {
    let mut w = Walk::start("/w".to_string());
    let top = vec![
        seen("/w", "z.txt", false),
        seen("/w", "build", true),
        seen("/w", "sub", true),
        seen("/w", "locked", true),
        seen("/w", "a.txt", false),
    ];
    assert_eq!(w.step(Some(top)), WalkStep::List("/w/sub".to_string()));
    let sub = vec![seen("/w/sub", "m.txt", false), seen("/w/sub", ".noTerm", false)];
    assert_eq!(w.step(Some(sub)), WalkStep::List("/w/locked".to_string()));
    let files = match w.step(None) {
        WalkStep::Done(r) => r.unwrap(),
        _ => panic!("not over"),
    };
    assert_eq!(files, vec!["/w/z.txt", "/w/sub/m.txt", "/w/a.txt"]);
    assert_eq!(list_files(&files), vec!["/w/a.txt", "/w/sub/m.txt", "/w/z.txt"]);
}

#[test]
fn walks_stop_at_a_faulty_item() {
    let mut w = Walk::start("/w".to_string());
    let top = vec![seen("/w", "a", false), WalkItem::Fault("gone".to_string())];
    assert_eq!(
        w.step(Some(top)),
        WalkStep::Done(Err("Failed to walk directory: gone".to_string()))
    );
}

#[test]
fn walks_end_at_their_depth() {
    let mut w = Walk::start("/0".to_string());
    let mut asked: u32 = 1;
    let mut dir = "/0".to_string();
    loop {
        match w.step(Some(vec![seen(&dir, "d", true)])) {
            WalkStep::List(p) => {
                asked += 1;
                dir = p;
            }
            WalkStep::Done(r) => {
                assert_eq!(r, Ok(vec![]));
                break;
            }
        }
    }
    assert_eq!(asked, WALK_DEPTH + 1);
}

#[test]
fn walks_end_once_they_have_enough() {
    let mut w = Walk::start("/w".to_string());
    let mut top = Vec::new();
    for i in 0..WALK_FILES + 1 {
        top.push(seen("/w", &format!("f{}", i), false));
    }
    top.push(seen("/w", "sub", true));
    match w.step(Some(top)) {
        WalkStep::Done(Ok(v)) => assert_eq!(v.len(), WALK_FILES + 1),
        _ => panic!("not over"),
    }
    for name in [".git", "node_modules", "target", "dist", "build", ".noTerm"] {
        assert!(is_ignored_name(name));
    }
    assert!(!is_ignored_name("src"));
}

fn search(query: &str, case: bool, word: bool, regex: bool) -> Search {
    search_in_files(query, Some(case), Some(word), Some(regex)).unwrap().unwrap()
}

fn spans(s: Search) -> Vec<(u32, u32, u32)> {
    s.into_matches().iter().map(|m| (m.line_number, m.match_start, m.match_end)).collect()
}

#[test]
fn patterns_carry_their_options() {
    assert_eq!(search_pattern("a.b", true, false, false), "a\\.b");
    assert_eq!(search_pattern("a.b", true, false, true), "a.b");
    assert_eq!(search_pattern("a.b", true, true, false), "\\b(?:a\\.b)\\b");
    assert_eq!(search_pattern("a+b", false, true, false), "(?i)\\b(?:a\\+b)\\b");
    let meta = "\\.+*?()|[]{}^$#&-~";
    let plain: String = meta.chars().flat_map(|c| ['\\', c]).collect();
    assert_eq!(search_pattern(meta, true, false, false), plain);
}

#[test]
fn searches_tell_characters_not_bytes() {
    let mut s = search("ö", true, false, false);
    s.search_file("/w/a", "äöü ö\nnichts\r\n ö".as_bytes());
    let found = s.into_matches();
    assert_eq!(
        found[0],
        SearchMatch {
            file: "/w/a".to_string(),
            line_number: 1,
            line_text: "äöü ö".to_string(),
            match_start: 1,
            match_end: 2,
        }
    );
    assert_eq!((found[1].match_start, found[1].match_end), (4, 5));
    assert_eq!((found[2].line_number, found[2].match_start), (3, 1));
    assert_eq!(found.len(), 3);
}

#[test]
fn searches_heed_their_options() {
    let text = "cat Cat scatter\nCAT.";
    let mut s = search("cat", false, false, false);
    s.search_file("f", text.as_bytes());
    assert_eq!(spans(s), vec![(1, 0, 3), (1, 4, 7), (1, 9, 12), (2, 0, 3)]);
    let mut s = search("cat", true, true, false);
    s.search_file("f", text.as_bytes());
    assert_eq!(spans(s), vec![(1, 0, 3)]);
    let mut s = search("c.t\\b", true, false, true);
    s.search_file("f", text.as_bytes());
    assert_eq!(spans(s), vec![(1, 0, 3)]);
    let mut s = search("c.t", true, false, false);
    s.search_file("f", text.as_bytes());
    assert_eq!(spans(s), vec![]);
}

#[test]
fn blank_searches_find_nothing() {
    assert!(matches!(search_in_files(" \t", None, None, None), Ok(None)));
    assert!(matches!(search_in_files("(", None, None, Some(true)), Err(e)
        if e.starts_with("Invalid search: ")));
    assert!(matches!(search_in_files("(", None, None, None), Ok(Some(_))));
}

#[test]
fn searches_pass_over_binaries_and_large_files() {
    let mut s = search("a", true, false, false);
    s.search_file("bin", b"a\0a");
    let mut large = vec![b'a'; 1];
    large.resize(MAX_FILE_BYTES + 1, b' ');
    s.search_file("large", &large);
    s.search_file("odd", b"\xffa");
    assert_eq!(spans(s), vec![(1, 1, 2)]);
    let mut s = search("a", true, false, false);
    large.truncate(MAX_FILE_BYTES);
    s.search_file("edge", &large);
    assert_eq!(spans(s), vec![(1, 0, 1)]);
}

#[test]
fn searches_stop_when_they_are_full() {
    let mut s = search("a", true, false, false);
    s.search_file("one", "a".repeat(SEARCH_MAX_RESULTS - 1).as_bytes());
    assert!(!s.is_full());
    s.search_file("two", b"aaa\naaa");
    assert!(s.is_full());
    s.search_file("three", b"a");
    let found = s.into_matches();
    assert_eq!(found.len(), SEARCH_MAX_RESULTS);
    assert_eq!(found[SEARCH_MAX_RESULTS - 1].file, "two");
}

#[test]
fn matches_are_told_in_camel_case() {
    let mut s = search("b", true, false, false);
    s.search_file("/w/x", b"ab");
    match matches_to_json(&s.into_matches()) {
        Json::Array(v) => {
            assert_eq!(v.len(), 1);
            assert_eq!(v[0].get("file"), Some(&Json::Str("/w/x".to_string())));
            assert_eq!(v[0].get("lineNumber"), Some(&Json::Unsigned(1)));
            assert_eq!(v[0].get("lineText"), Some(&Json::Str("ab".to_string())));
            assert_eq!(v[0].get("matchStart"), Some(&Json::Unsigned(1)));
            assert_eq!(v[0].get("matchEnd"), Some(&Json::Unsigned(2)));
        }
        _ => panic!("no list"),
    }
}

#[test]
fn files_are_made_once() {
    assert_eq!(create_file("/a/b", "x", true), Err("File already exists".to_string()));
    assert_eq!(
        create_file("/a/b", "é", false),
        Ok(vec![
            step(FsStep::MakeParent("/a/b".to_string()), "Failed to create parent dir: "),
            step(
                FsStep::Write { path: "/a/b".to_string(), bytes: vec![0xc3, 0xa9] },
                "Failed to write file: "
            ),
        ])
    );
    assert_eq!(create_directory("/a", true), Err("Folder already exists".to_string()));
    assert_eq!(
        create_directory("/a", false),
        Ok(vec![step(FsStep::MakeDir("/a".to_string()), "Failed to create folder: ")])
    );
}

#[test]
fn renames_and_copies_need_a_free_place() {
    let missing = Err("Source does not exist".to_string());
    let taken = Err("Target already exists".to_string());
    assert_eq!(rename_entry("a", "b", false, true), missing);
    assert_eq!(rename_entry("a", "b", true, true), taken);
    assert_eq!(
        rename_entry("a", "b", true, false),
        Ok(vec![
            step(FsStep::MakeParent("b".to_string()), "Failed to create parent dir: "),
            step(
                FsStep::Rename { from: "a".to_string(), to: "b".to_string() },
                "Rename failed: "
            ),
        ])
    );
    assert_eq!(copy_entry("a", "b", false, true), missing);
    assert_eq!(copy_entry("a", "b", true, true), taken);
    assert_eq!(
        copy_entry("a", "b", true, false),
        Ok(vec![step(
            FsStep::CopyTree { from: "a".to_string(), to: "b".to_string() },
            "Copy failed: "
        )])
    );
}

#[test]
fn directories_are_copied_one_by_one() {
    let names = vec!["x".to_string(), "y".to_string()];
    assert_eq!(
        copy_recursive(UNIX, "/a", "/b", true, &names),
        vec![
            step(FsStep::MakeDir("/b".to_string()), ""),
            step(FsStep::CopyTree { from: "/a/x".to_string(), to: "/b/x".to_string() }, ""),
            step(FsStep::CopyTree { from: "/a/y".to_string(), to: "/b/y".to_string() }, ""),
        ]
    );
    assert_eq!(
        copy_recursive(UNIX, "/a", "/b", false, &vec![]),
        vec![
            step(FsStep::MakeParent("/b".to_string()), ""),
            step(FsStep::CopyFile { from: "/a".to_string(), to: "/b".to_string() }, ""),
        ]
    );
}

#[test]
fn only_what_is_there_is_deleted() {
    assert_eq!(delete_entry("p", false, false), Err("Path does not exist".to_string()));
    assert_eq!(
        delete_entry("p", true, true),
        Ok(vec![step(FsStep::RemoveTree("p".to_string()), "Delete failed: ")])
    );
    assert_eq!(
        delete_entry("p", true, false),
        Ok(vec![step(FsStep::RemoveFile("p".to_string()), "Delete failed: ")])
    );
    assert_eq!(step_failure("Delete failed: ", "denied"), "Delete failed: denied");
}

#[test]
fn a_download_can_be_uploaded() {
    let bytes = vec![0, 1, 2, 250, 255];
    let text = download_file(Ok(bytes.clone())).unwrap();
    assert_eq!(text, "AAEC+v8=");
    let steps = upload_file("/u", &text).unwrap();
    assert_eq!(steps[1].act, FsStep::Write { path: "/u".to_string(), bytes });
    assert_eq!(steps[0].fault, "Failed to create directory: ");
    assert!(matches!(upload_file("/u", "%%%"), Err(e) if e.starts_with("Invalid base64: ")));
    assert_eq!(read_file_base64(Ok(b"Hello".to_vec())), Ok("SGVsbG8=".to_string()));
}

#[test]
fn trees_are_copied_on_windows() {
    let steps =
        copy_recursive(Platform::Windows, r"C:\a", r"C:\b\", true, &vec!["c".to_string()]);
    assert_eq!(
        steps[1].act,
        FsStep::CopyTree { from: r"C:\a\c".to_string(), to: r"C:\b\c".to_string() }
    );
}

#[test]
fn reads_tell_why_they_fail() {
    let e = || "no such file".to_string();
    assert_eq!(read_file(Err(e())), Err("Failed to read file: no such file".to_string()));
    assert_eq!(read_file(Ok("x".to_string())), Ok("x".to_string()));
    assert_eq!(read_file_base64(Err(e())), Err("Failed to read file: no such file".to_string()));
    assert_eq!(
        download_file(Err(e())),
        Err("Failed to read file for download: no such file".to_string())
    );
    assert_eq!(get_cwd(Err("gone".to_string())), Err("Failed to get cwd: gone".to_string()));
    assert_eq!(get_cwd(Ok("/w".to_string())), Ok("/w".to_string()));
    let steps = write_file("/w/a", "hi");
    assert_eq!(steps.len(), 2);
    assert_eq!(steps[1].act, FsStep::Write { path: "/w/a".to_string(), bytes: b"hi".to_vec() });
}

const ODD_NAMES: [&str; 8] =
    ["/etc/x", r"a\b", "a/../b/./c", "C:/x", "a/C:x", "n\0x", "//s/t/u", r"\\?\C:\v"];

fn odd_archive() -> Vec<u8> {
    let mut out = zip::ZipWriter::new(std::io::Cursor::new(Vec::new()));
    for name in ODD_NAMES {
        out.start_file(name, zip::write::SimpleFileOptions::default()).unwrap();
    }
    out.finish().unwrap().into_inner()
}

fn paths_of(os: Platform, dest: &str) -> Vec<String> {
    let text = base64::engine::general_purpose::STANDARD.encode(odd_archive());
    let mut u = extract_zip(os, &text, dest).unwrap();
    (0..u.len())
        .map(|i| match u.entry(i).unwrap() {
            Unpack::File { path, .. } => path,
            Unpack::Dir(path) => path,
        })
        .collect()
}

#[test]
fn names_in_archives_are_read_as_the_zip_crate_reads_them() {
    let mut archive = zip::ZipArchive::new(std::io::Cursor::new(odd_archive())).unwrap();
    let mut told = Vec::new();
    for i in 0..archive.len() {
        let name = archive.by_index(i).unwrap().mangled_name();
        told.push(std::path::Path::new("/dest").join(name).to_str().unwrap().to_string());
    }
    assert_eq!(paths_of(UNIX, "/dest"), told);
    assert_eq!(
        paths_of(Platform::Windows, r"D:\dest"),
        vec![
            r"D:\dest\etc\x",
            r"D:\dest\a\b",
            r"D:\dest\a\b\c",
            r"D:\dest\x",
            "C:x",
            r"D:\dest\n",
            r"D:\dest\u",
            r"D:\dest\v",
        ]
    );
}

fn zipped() -> String {
    let mut out = zip::ZipWriter::new(std::io::Cursor::new(Vec::new()));
    let plain = zip::write::SimpleFileOptions::default();
    out.add_directory("docs", plain).unwrap();
    out.start_file("docs/a.txt", plain).unwrap();
    out.write_all(b"alpha").unwrap();
    out.start_file("../up.txt", plain).unwrap();
    out.write_all(b"up").unwrap();
    let bytes = out.finish().unwrap().into_inner();
    base64::engine::general_purpose::STANDARD.encode(bytes)
}

#[test]
fn archives_are_unpacked_below_their_place() {
    let mut u = extract_zip(UNIX, &zipped(), "/dest").unwrap();
    assert_eq!(u.len(), 3);
    assert_eq!(u.entry(0), Ok(Unpack::Dir("/dest/docs".to_string())));
    assert_eq!(
        u.entry(1),
        Ok(Unpack::File {
            path: "/dest/docs/a.txt".to_string(),
            data: b"alpha".to_vec(),
            fault: None,
        })
    );
    assert_eq!(
        u.entry(2),
        Ok(Unpack::File { path: "/dest/up.txt".to_string(), data: b"up".to_vec(), fault: None })
    );
    assert_eq!(u.entry(0), Ok(Unpack::Dir("/dest/docs".to_string())));
}

#[test]
fn unpacking_lists_the_paths_in_order() {
    let mut u = extract_zip(UNIX, &zipped(), "/dest").unwrap();
    assert_eq!(u.step(None), UnpackAction::MakeDest("/dest".to_string()));
    for _ in 0..3 {
        assert!(matches!(u.step(None), UnpackAction::Unpack(_)));
    }
    let paths = ["/dest/docs", "/dest/docs/a.txt", "/dest/up.txt"];
    assert_eq!(
        u.step(None),
        UnpackAction::Done(Ok(paths.iter().map(|p| p.to_string()).collect()))
    );
    let mut u = extract_zip(UNIX, &zipped(), "/dest").unwrap();
    u.step(None);
    assert_eq!(
        u.step(Some((UnpackFault::Destination, "full".to_string()))),
        UnpackAction::Done(Err("Failed to create destination: full".to_string()))
    );
}

#[test]
fn what_is_no_archive_is_refused() {
    assert!(matches!(extract_zip(UNIX, "!", "/d"), Err(e) if e.starts_with("Invalid base64: ")));
    let plain = extract_zip(UNIX, "SGVsbG8=", "/d");
    assert!(matches!(plain, Err(e) if e.starts_with("Failed to open zip: ")));
}

#[test]
fn unpacking_tells_where_it_fails() {
    assert_eq!(unpack_failure(UnpackFault::Destination, "e"), "Failed to create destination: e");
    assert_eq!(unpack_failure(UnpackFault::MakeDir, "e"), "Failed to create dir: e");
    assert_eq!(unpack_failure(UnpackFault::CreateFile, "e"), "Failed to create file: e");
    assert_eq!(unpack_failure(UnpackFault::WriteFile, "e"), "Failed to write file: e");
}
