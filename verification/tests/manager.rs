use noide::files::manager::{
    copy_dir_recursive, copy_dir_start, cp_handler, done, done_at, download_handler,
    file_entry_from_path, ls_handler, mkdir_handler, mv_handler, normalize_path, read_handler,
    rm_failure, rm_handler, search_depth, search_handler, stat_handler, upload_failure,
    upload_field, wants_contents, write_handler, CopyItem, FileStat, LsItem, ReadFault, Removal,
    Upload, UploadFault, UploadField, MAX_HITS, MAX_TEXT_SIZE,
};
use noide::files::ops::{FsStep, Step};
use noide::json::{Fields, Json};
use noide::path::Platform;

const UNIX: Platform = Platform::Unix;
const WINDOWS: Platform = Platform::Windows;

fn home() -> Option<String> {
    Some("/home/ann".to_string())
}

fn stat(path: &str, is_dir: bool) -> FileStat {
    FileStat {
        path: path.to_string(),
        is_dir,
        size: 12,
        modified: Some((0, 0)),
        mode: Some(0o100644),
    }
}

fn planned(act: FsStep, fault: &str) -> Step {
    Step { act, fault: fault.to_string() }
}

fn no(e: &str) -> String {
    e.to_string()
}

#[test]
fn tilde_is_the_home_directory() {
    assert_eq!(normalize_path(UNIX, "~/src", &home()), "/home/ann/src");
    assert_eq!(normalize_path(UNIX, "~", &home()), "/home/ann");
    assert_eq!(normalize_path(UNIX, "~", &None), "");
    assert_eq!(normalize_path(UNIX, "~/src", &None), "src");
    assert_eq!(normalize_path(UNIX, "~ann", &home()), "~ann");
    assert_eq!(normalize_path(UNIX, "~//etc", &home()), "/etc");
}

#[test]
fn paths_do_not_lead_up() {
    assert_eq!(normalize_path(UNIX, "/a/../b/./c//d/", &home()), "/a/b/c/d");
    assert_eq!(normalize_path(UNIX, "../../etc", &home()), "etc");
    assert_eq!(normalize_path(UNIX, "/..", &home()), "/");
    assert_eq!(normalize_path(UNIX, "a/...", &home()), "a/...");
    assert_eq!(normalize_path(UNIX, "", &home()), "");
}

#[test]
fn windows_paths_are_cleaned() {
    let ann = Some(r"C:\Users\ann".to_string());
    for (path, cleaned) in [
        ("~/src", r"C:/Users\ann\src"),
        ("~", r"C:/Users\ann"),
        (r"~\src", r"~\src"),
        (r"C:\a\..\b", r"C:/a\b"),
        ("c:a/./b", r"c:a\b"),
        (r"\a\..\..\b", r"/a\b"),
        (r"..\..\etc", "etc"),
        (r"\\server\share\..\x", r"\\server\share/x"),
        (r"\\?\C:\a\..\.\b", r"\\?\C:\a\b"),
        (r"a\D:b", "D:b"),
    ] {
        assert_eq!(normalize_path(WINDOWS, path, &ann), cleaned, "{}", path);
        assert_eq!(normalize_path(WINDOWS, cleaned, &ann), cleaned, "{}", cleaned);
    }
    assert_eq!(normalize_path(UNIX, r"C:\a\..\b", &home()), r"C:\a\..\b");
}

#[test]
fn windows_paths_are_taken_apart_and_joined() {
    let e = file_entry_from_path(WINDOWS, &Some(stat(r"C:\a\b.TXT", false))).unwrap();
    assert_eq!((e.name.as_str(), e.extension.as_deref()), ("b.TXT", Some("TXT")));
    assert_eq!(mv_handler(WINDOWS, r"C:\a\x", r"D:\b", true, true).unwrap().target, r"D:\b\x");
    let d = download_handler(WINDOWS, r"C:\p\cat.png", true, false, Ok(vec![])).unwrap();
    assert_eq!(d.content_type, "image/png");
    assert_eq!(d.disposition, "attachment; filename=\"cat.png\"");
    let mut u = Upload::new();
    u.path(r"C:\in".to_string());
    assert_eq!(u.file(WINDOWS, Some(no("a.b")), &None), (no("C:/in"), no(r"C:/in\a.b")));
    let items = vec![CopyItem::Known { name: no("f"), is_dir: false }];
    let (steps, _) = copy_dir_recursive(WINDOWS, "C:/a", r"D:\b", &Ok(items));
    assert_eq!(steps[0].act, FsStep::CopyFile { from: no(r"C:/a\f"), to: no(r"D:\b\f") });
}

#[test]
fn entries_show_what_is_known() {
    let e = file_entry_from_path(UNIX, &Some(stat("/a/b.TXT", false))).unwrap();
    assert_eq!(e.name, "b.TXT");
    assert_eq!(e.path, "/a/b.TXT");
    assert_eq!(e.size, 12);
    assert_eq!(e.modified, Some("1970-01-01T00:00:00+00:00".to_string()));
    assert_eq!(e.permissions, Some("644".to_string()));
    assert_eq!(e.extension, Some("TXT".to_string()));
    let mut s = stat("/a/.bashrc", false);
    s.modified = Some((1_700_000_000, 500_000_000));
    s.mode = Some(0o000);
    let e = file_entry_from_path(UNIX, &Some(s)).unwrap();
    assert_eq!(e.modified, Some("2023-11-14T22:13:20.500+00:00".to_string()));
    assert_eq!(e.permissions, Some("0".to_string()));
    assert_eq!(e.extension, None);
    let mut s = stat("/a/c", false);
    s.modified = Some((-1, 0));
    s.mode = None;
    let e = file_entry_from_path(UNIX, &Some(s)).unwrap();
    assert_eq!(e.modified, Some("1969-12-31T23:59:59+00:00".to_string()));
    assert_eq!(e.permissions, None);
    assert_eq!(file_entry_from_path(UNIX, &None), None);
    assert_eq!(file_entry_from_path(UNIX, &Some(stat("/", true))), None);
}

fn listed(name: &str, is_dir: bool) -> LsItem {
    LsItem::Known { name: name.to_string(), stat: stat(&format!("/l/{}", name), is_dir) }
}

#[test]
fn listings_show_directories_first() {
    let items = vec![listed("b", false), listed("A", false), listed("z", true), listed("Y", true)];
    let names: Vec<String> =
        ls_handler(UNIX, Ok(items)).unwrap().into_iter().map(|e| e.name).collect();
    assert_eq!(names, vec!["Y", "z", "A", "b"]);
}

#[test]
fn listings_tell_why_they_fail() {
    assert_eq!(ls_handler(UNIX, Err(no("denied"))), Err(no("Failed to read directory: denied")));
    let items = vec![listed("b", false), LsItem::Unread(no("x")), LsItem::Unknown(no("y"))];
    assert_eq!(ls_handler(UNIX, Ok(items)), Err(no("Failed to read entry: x")));
    let items = vec![LsItem::Unknown(no("y")), LsItem::Unread(no("x"))];
    assert_eq!(ls_handler(UNIX, Ok(items)), Err(no("Failed to read metadata: y")));
}

fn bytes(b: &[u8]) -> Result<Vec<u8>, ReadFault> {
    Ok(b.to_vec())
}

#[test]
fn texts_are_shown() {
    let told = read_handler("/t", true, false, &Ok(3), &bytes(b"hi\xff")).unwrap();
    let expected = Fields::new()
        .text("path", "/t")
        .number("size", 3)
        .flag("binary", false)
        .text("content", "hi\u{fffd}")
        .object();
    assert_eq!(told, expected);
}

#[test]
fn binaries_and_large_files_are_not_shown() {
    let hidden = |size: u64, message: &str| {
        Fields::new()
            .text("path", "/t")
            .number("size", size)
            .flag("binary", true)
            .with("content", Json::Null)
            .text("message", message)
            .object()
    };
    assert_eq!(
        read_handler("/t", true, false, &Ok(2), &bytes(b"a\0")),
        Ok(hidden(2, "Binary file"))
    );
    let large = MAX_TEXT_SIZE + 1;
    assert_eq!(
        read_handler("/t", true, false, &Ok(large), &Err(ReadFault::Opening(no("unused")))),
        Ok(hidden(large, "File too large to display"))
    );
    assert!(wants_contents(true, false, &Ok(MAX_TEXT_SIZE)));
    assert!(!wants_contents(true, false, &Ok(large)));
    assert!(!wants_contents(false, false, &Ok(1)));
    assert!(!wants_contents(true, true, &Ok(1)));
    assert!(!wants_contents(true, false, &Err(no("x"))));
}

#[test]
fn shown_files_tell_why_they_fail() {
    let read = |found, dir, size, content| read_handler("/t", found, dir, &size, &content);
    assert_eq!(read(false, false, Ok(1), bytes(b"")), Err(no("File not found")));
    assert_eq!(read(true, true, Ok(1), bytes(b"")), Err(no("Cannot read a directory")));
    assert_eq!(
        read(true, false, Err(no("m")), bytes(b"")),
        Err(no("Failed to read metadata: m"))
    );
    assert_eq!(
        read(true, false, Ok(1), Err(ReadFault::Opening(no("o")))),
        Err(no("Failed to open file: o"))
    );
    assert_eq!(
        read(true, false, Ok(1), Err(ReadFault::Reading(no("r")))),
        Err(no("Failed to read file: r"))
    );
}

#[test]
fn writing_makes_the_way_first() {
    assert_eq!(
        write_handler("/a/b", "x"),
        vec![
            planned(FsStep::MakeParent(no("/a/b")), "Failed to create parent directories: "),
            planned(
                FsStep::Write { path: no("/a/b"), bytes: b"x".to_vec() },
                "Failed to write file: "
            ),
        ]
    );
    assert_eq!(
        mkdir_handler("/a"),
        vec![planned(FsStep::MakeDir(no("/a")), "Failed to create directory: ")]
    );
    assert_eq!(done(), Fields::new().flag("ok", true).object());
    assert_eq!(done_at("/a"), Fields::new().flag("ok", true).text("path", "/a").object());
}

#[test]
fn removals_need_leave_for_trees() {
    assert_eq!(rm_handler(false, true, Some(true)), Err(no("Path not found")));
    assert_eq!(rm_handler(true, true, Some(true)), Ok(Removal::Tree));
    assert_eq!(rm_handler(true, true, None), Ok(Removal::EmptyDir));
    assert_eq!(rm_handler(true, false, Some(true)), Ok(Removal::File));
    assert_eq!(rm_failure(Removal::Tree, "e"), "Failed to remove directory: e");
    assert_eq!(rm_failure(Removal::EmptyDir, "e"), "Directory not empty (use recursive: true)");
    assert_eq!(rm_failure(Removal::File, "e"), "Failed to remove file: e");
}

#[test]
fn moves_go_into_directories() {
    assert_eq!(mv_handler(UNIX, "/a/x", "/b", false, true), Err(no("Source not found")));
    let t = mv_handler(UNIX, "/a/x", "/b", true, true).unwrap();
    assert_eq!(t.target, "/b/x");
    assert_eq!(
        t.steps,
        vec![
            planned(FsStep::MakeParent(no("/b/x")), "Failed to create parent directories: "),
            planned(FsStep::Rename { from: no("/a/x"), to: no("/b/x") }, "Failed to move: "),
        ]
    );
    assert_eq!(mv_handler(UNIX, "/a/x", "/b/y", true, false).unwrap().target, "/b/y");
    assert_eq!(mv_handler(UNIX, "/", "/b", true, true).unwrap().target, "/b/");
}

#[test]
fn copies_need_leave_for_trees() {
    assert_eq!(cp_handler(UNIX, "/a", "/b", false, true, true, None), Err(no("Source not found")));
    assert_eq!(
        cp_handler(UNIX, "/a", "/b", true, true, false, Some(false)),
        Err(no("Source is a directory (use recursive: true)"))
    );
    let t = cp_handler(UNIX, "/a", "/b", true, true, true, Some(true)).unwrap();
    assert_eq!(t.target, "/b/a");
    assert_eq!(t.steps, vec![planned(FsStep::CopyTree { from: no("/a"), to: no("/b/a") }, "")]);
    let t = cp_handler(UNIX, "/f", "/b", true, false, true, None).unwrap();
    assert_eq!(
        t.steps,
        vec![planned(FsStep::CopyFile { from: no("/f"), to: no("/b/f") }, "Failed to copy: ")]
    );
    let t = cp_handler(UNIX, "/f", "/b/g", true, false, false, None).unwrap();
    assert_eq!(
        t.steps,
        vec![
            planned(FsStep::MakeParent(no("/b/g")), "Failed to create parent: "),
            planned(FsStep::CopyFile { from: no("/f"), to: no("/b/g") }, "Failed to copy: "),
        ]
    );
}

#[test]
fn trees_are_copied_item_by_item() {
    assert_eq!(
        copy_dir_start("/b"),
        planned(FsStep::MakeDir(no("/b")), "Failed to create dir: ")
    );
    let known = |name: &str, is_dir| CopyItem::Known { name: no(name), is_dir };
    let (steps, stop) =
        copy_dir_recursive(UNIX, "/a", "/b", &Ok(vec![known("d", true), known("f", false)]));
    assert_eq!(
        steps,
        vec![
            planned(FsStep::CopyTree { from: no("/a/d"), to: no("/b/d") }, ""),
            planned(
                FsStep::CopyFile { from: no("/a/f"), to: no("/b/f") },
                "Failed to copy file: "
            ),
        ]
    );
    assert_eq!(stop, None);
    let (steps, stop) = copy_dir_recursive(
        UNIX,
        "/a",
        "/b",
        &Ok(vec![known("f", false), CopyItem::Unread(no("u")), known("g", false)]),
    );
    assert_eq!((steps.len(), stop), (1, Some(no("Failed to read entry: u"))));
    let (steps, stop) = copy_dir_recursive(UNIX, "/a", "/b", &Ok(vec![CopyItem::Unknown(no("k"))]));
    assert_eq!((steps.len(), stop), (0, Some(no("Failed to read metadata: k"))));
    let (steps, stop) = copy_dir_recursive(UNIX, "/a", "/b", &Err(no("d")));
    assert_eq!((steps.len(), stop), (0, Some(no("Failed to read dir: d"))));
}

#[test]
fn stats_count_what_a_directory_holds() {
    let s = stat_handler(UNIX, true, &Ok(stat("/a/d", true)), &Ok(4)).unwrap();
    assert_eq!((s.entry.name.as_str(), s.children), ("d", Some(4)));
    let s = stat_handler(UNIX, true, &Ok(stat("/a/f.c", false)), &Err(no("unused"))).unwrap();
    assert_eq!((s.entry.extension, s.children), (Some(no("c")), None));
    let s = stat_handler(UNIX, true, &Ok(stat("/", true)), &Ok(0)).unwrap();
    assert_eq!((s.entry.name.as_str(), s.children), ("", Some(0)));
    assert_eq!(
        stat_handler(UNIX, false, &Ok(stat("/", true)), &Ok(0)),
        Err(no("Path not found"))
    );
    assert_eq!(
        stat_handler(UNIX, true, &Err(no("m")), &Ok(0)),
        Err(no("Failed to read metadata: m"))
    );
    assert_eq!(
        stat_handler(UNIX, true, &Ok(stat("/", true)), &Err(no("d"))),
        Err(no("Failed to read dir: d"))
    );
}

#[test]
fn names_are_searched_without_regard_to_case() {
    assert!(matches!(search_handler(UNIX, false, "x"), Err(e) if e == "Path not found"));
    let mut s = search_handler(UNIX, true, "ÄPFEL").unwrap();
    assert!(s.wants("Rote äpfel.txt"));
    assert!(!s.wants("apfel"));
    s.offer("Äpfel", &Some(stat("/k/Äpfel", false)));
    s.offer("birnen", &Some(stat("/k/birnen", false)));
    s.offer("äpfel", &None);
    let hits = s.into_hits();
    assert_eq!(hits.len(), 1);
    assert_eq!(hits[0].path, "/k/Äpfel");
    assert_eq!(search_depth(None), 20);
    assert_eq!(search_depth(Some(2)), 2);
}

#[test]
fn name_searches_stop_when_they_are_full() {
    let mut s = search_handler(UNIX, true, "").unwrap();
    for i in 0..MAX_HITS + 5 {
        assert_eq!(s.is_full(), i >= MAX_HITS);
        let name = format!("f{}", i);
        s.offer(&name, &Some(stat(&format!("/{}", name), false)));
    }
    let hits = s.into_hits();
    assert_eq!(hits.len(), MAX_HITS);
    assert_eq!(hits[MAX_HITS - 1].name, "f499");
}

#[test]
fn downloads_carry_their_type_and_name() {
    let d = download_handler(UNIX, "/p/cat.png", true, false, Ok(b"x".to_vec())).unwrap();
    assert_eq!(d.content_type, "image/png");
    assert_eq!(d.disposition, "attachment; filename=\"cat.png\"");
    assert_eq!(d.content, b"x".to_vec());
    let d = download_handler(UNIX, "/p/Makefile", true, false, Ok(vec![])).unwrap();
    assert_eq!(d.content_type, "application/octet-stream");
    let d = download_handler(UNIX, "/", true, false, Ok(vec![])).unwrap();
    assert_eq!(d.disposition, "attachment; filename=\"download\"");
    let get = |found, dir, c| download_handler(UNIX, "/p", found, dir, c);
    assert_eq!(get(false, false, Ok(vec![])), Err(no("File not found")));
    assert_eq!(get(true, true, Ok(vec![])), Err(no("Cannot download a directory")));
    assert_eq!(get(true, false, Err(no("e"))), Err(no("Failed to read file: e")));
}

#[test]
fn uploads_go_to_the_path_that_came_before() {
    assert_eq!(upload_field("path"), UploadField::Path);
    assert_eq!(upload_field("file"), UploadField::File);
    assert_eq!(upload_field(""), UploadField::Other);
    let mut u = Upload::new();
    assert_eq!(u.file(UNIX, Some(no("early")), &home()), (no(""), no("early")));
    u.path(no("~/in/../up"));
    assert_eq!(
        u.file(UNIX, None, &home()),
        (no("/home/ann/in/up"), no("/home/ann/in/up/uploaded_file"))
    );
    assert_eq!(u.file(UNIX, Some(no("a.b")), &home()).1, "/home/ann/in/up/a.b");
    assert_eq!(u.reply(), Fields::new().flag("ok", true).text("name", "a.b").object());
}

#[test]
fn uploads_tell_where_they_fail() {
    assert_eq!(upload_failure(UploadFault::Field, "e"), "Multipart error: e");
    assert_eq!(upload_failure(UploadFault::PathText, "e"), "Failed to read path field: e");
    assert_eq!(upload_failure(UploadFault::FileData, "e"), "Failed to read file data: e");
    assert_eq!(upload_failure(UploadFault::MakeDir, "e"), "Failed to create dir: e");
    assert_eq!(upload_failure(UploadFault::CreateFile, "e"), "Failed to create file: e");
    assert_eq!(upload_failure(UploadFault::WriteFile, "e"), "Failed to write file: e");
}
