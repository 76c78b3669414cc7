//! The file manager.

use vstd::prelude::*;
use vstd::string::*;
use vstd::utf8::encode_utf8;

use crate::json::{no_fields, Fields, Json, JsonView};
use crate::order::{
    before, in_order, lemma_placed, lemma_placed_mapped, mapped, placed, rank_before, seconds, slot,
    Rank, RankView, Sorter,
};
use crate::path::{
    extend_by_names, extended, extension, extension_of, file_name, file_name_of,
    find_start, is_absolute, is_free, is_name, is_plain, is_verbatim, join, join_path,
    lemma_names_are_kept, lemma_put_together, names_in, pieces, prefix, start_of, Platform,
};
use crate::files::ops::{no_steps, step_views, FsStep, FsStepView, Step, StepView, Steps};
use crate::files::tree::node_rank;
use crate::process::{lossy, lossy_text};
use crate::text::{
    after_prefix, cat2, cat3, chars_of, contains, holds, lowercase, same, starts_with, string_of,
    text_view, to_lowercase,
};

verus! {

/// A path with the home directory in the place of a tilde.
pub open spec fn expanded(os: Platform, path: Seq<char>, home: Option<Seq<char>>) -> Seq<char> {
    let base = match home {
        Some(h) => h,
        None => "."@,
    };
    if starts_with(path, "~/"@) {
        join(os, base, path.skip(2))
    } else if path == "~"@ {
        base
    } else {
        path
    }
}

/// A path without what leads nowhere and without what leads up: its start, and
/// the names in it.
pub open spec fn cleaned(os: Platform, path: Seq<char>) -> Seq<char> {
    extended(os, start_of(os, path), names_in(os, path))
}

/// The path that is meant: a tilde is the home directory, and what would lead up
/// is passed over.
pub fn normalize_path(os: Platform, path: &str, home: &Option<String>) -> (r: String)
    ensures
        r@ == cleaned(os, expanded(os, path@, text_view(*home))),
{
    let chars = chars_of(path);
    let base = match home {
        Some(h) => h.clone(),
        None => ".".to_owned(),
    };
    proof {
        reveal_strlit("~/");
        assert("~/"@.len() == 2);
    }
    let full = match after_prefix(chars.as_slice(), "~/") {
        Some(rest) => {
            let tail = string_of(rest);
            join_path(os, base.as_str(), tail.as_str())
        },
        None => if same(path, "~") {
            base
        } else {
            path.to_owned()
        },
    };
    let full_chars = chars_of(full.as_str());
    let start = find_start(os, full_chars.as_slice());
    extend_by_names(os, start, full_chars.as_slice())
}

/// A path that was cleaned leads nowhere up: its pieces are those of the path
/// but for the ones that lead up, it is absolute just when the path is, and
/// cleaning it again changes nothing. On Windows the path must not be verbatim
/// and no name in it may begin as a drive does.
pub proof fn cleaned_paths_do_not_lead_up(os: Platform, path: Seq<char>)
    requires
        !is_verbatim(os, path),
        forall|i: int|
            0 <= i < names_in(os, path).len() ==> prefix(
                os,
                #[trigger] names_in(os, path)[i],
            ) is None,
    ensures
        pieces(os, cleaned(os, path)) == names_in(os, path),
        !pieces(os, cleaned(os, path)).contains(seq!['.', '.']),
        is_absolute(os, cleaned(os, path)) == is_absolute(os, path),
        cleaned(os, cleaned(os, path)) == cleaned(os, path),
{
    lemma_names_are_kept(os, path);
    let ps = names_in(os, path);
    assert forall|i: int| 0 <= i < ps.len() implies is_plain(os, #[trigger] ps[i]) by {
        assert(is_free(os, ps[i]));
    }
    lemma_put_together(os, path);
    assert forall|i: int| 0 <= i < ps.len() implies #[trigger] ps[i] != seq!['.', '.'] by {
        assert(is_name(ps[i]));
    }
}

/// The octal digits of a number.
pub open spec fn octal(n: nat) -> Seq<char>
    decreases n,
{
    if n < 8 {
        seq![crate::text::digit_char(n as int)]
    } else {
        octal(n / 8).push(crate::text::digit_char((n % 8) as int))
    }
}

fn digit_of(n: u32) -> (r: char)
    requires
        n < 8,
    ensures
        r == crate::text::digit_char(n as int),
{
    let c: u8 = 48 + n as u8;
    c as char
}

fn write_octal(n: u32) -> (r: Vec<char>)
    ensures
        r@ == octal(n as nat),
    decreases n,
{
    if n < 8 {
        let mut v: Vec<char> = Vec::new();
        v.push(digit_of(n));
        assert(v@ =~= octal(n as nat));
        v
    } else {
        let mut v = write_octal(n / 8);
        v.push(digit_of(n % 8));
        v
    }
}

/// The permissions out of the mode of a file.
pub open spec fn permissions_of(mode: Option<u32>) -> Option<Seq<char>> {
    match mode {
        Some(m) => Some(octal((m % 512) as nat)),
        None => None,
    }
}

/// A moment as a text; nothing when it is too far away.
pub uninterp spec fn rfc3339(secs: i64, nanos: u32) -> Option<Seq<char>>;

/// `chrono::DateTime::from_timestamp` and `to_rfc3339`: the text depends on the
/// seconds and nanoseconds alone. Its form is left unsaid.
#[verifier::external_body]
fn time_text(secs: i64, nanos: u32) -> (r: Option<String>)
    ensures
        text_view(r) == rfc3339(secs, nanos),
{
    chrono::DateTime::from_timestamp(secs, nanos).map(|t| t.to_rfc3339())
}

/// What is known of a file.
#[derive(Debug, PartialEq)]
pub struct FileStat {
    pub path: String,
    pub is_dir: bool,
    pub size: u64,
    /// When it was changed, in seconds and nanoseconds.
    pub modified: Option<(i64, u32)>,
    /// Its mode, where there is one.
    pub mode: Option<u32>,
}

/// A file as the file manager shows it.
#[derive(Debug, PartialEq)]
pub struct FileEntry {
    pub name: String,
    pub path: String,
    pub is_dir: bool,
    pub size: u64,
    pub modified: Option<String>,
    pub permissions: Option<String>,
    pub extension: Option<String>,
}

/// What a file stands for as the file manager shows it.
pub struct EntryView {
    pub name: Seq<char>,
    pub path: Seq<char>,
    pub is_dir: bool,
    pub size: u64,
    pub modified: Option<Seq<char>>,
    pub permissions: Option<Seq<char>>,
    pub extension: Option<Seq<char>>,
}

impl View for FileEntry {
    type V = EntryView;

    open spec fn view(&self) -> EntryView {
        EntryView {
            name: self.name@,
            path: self.path@,
            is_dir: self.is_dir,
            size: self.size,
            modified: text_view(self.modified),
            permissions: text_view(self.permissions),
            extension: text_view(self.extension),
        }
    }
}

/// The views of a list of files.
pub open spec fn entry_views(v: Seq<FileEntry>) -> Seq<EntryView> {
    Seq::new(v.len(), |i: int| v[i]@)
}

/// A file under a name as the file manager shows it.
pub open spec fn entry_of(os: Platform, name: Seq<char>, s: FileStat) -> EntryView {
    EntryView {
        name,
        path: s.path@,
        is_dir: s.is_dir,
        size: s.size,
        modified: match s.modified {
            Some(t) => rfc3339(t.0, t.1),
            None => None,
        },
        permissions: permissions_of(s.mode),
        extension: extension(os, s.path@),
    }
}

fn make_entry(os: Platform, name: String, s: &FileStat) -> (r: FileEntry)
    ensures
        r@ == entry_of(os, name@, *s),
{
    let modified = match s.modified {
        Some(t) => time_text(t.0, t.1),
        None => None,
    };
    let permissions = match s.mode {
        Some(m) => {
            let digits = write_octal(m % 512);
            Some(string_of(digits.as_slice()))
        },
        None => None,
    };
    let ext = extension_of(os, s.path.as_str());
    FileEntry {
        name,
        path: s.path.clone(),
        is_dir: s.is_dir,
        size: s.size,
        modified,
        permissions,
        extension: ext,
    }
}

/// The file at a path as the file manager shows it; nothing when nothing is
/// known of it or it has no name.
pub open spec fn shown(os: Platform, s: Option<FileStat>) -> Option<EntryView> {
    match s {
        Some(x) => match file_name(os, x.path@) {
            Some(n) => Some(entry_of(os, n, x)),
            None => None,
        },
        None => None,
    }
}

/// The file at a path as the file manager shows it.
pub fn file_entry_from_path(os: Platform, s: &Option<FileStat>) -> (r: Option<FileEntry>)
    ensures
        match r {
            Some(e) => shown(os, *s) == Some(e@),
            None => shown(os, *s) is None,
        },
{
    match s {
        Some(x) => match file_name_of(os, x.path.as_str()) {
            Some(n) => Some(make_entry(os, n, x)),
            None => None,
        },
        None => None,
    }
}

/// One item of a listing.
#[derive(Debug, PartialEq)]
pub enum LsItem {
    /// The item could not be read.
    Unread(String),
    /// Nothing could be learnt of the item.
    Unknown(String),
    Known { name: String, stat: FileStat },
}

/// The first `n` items of a listing in their order, with their ranks, or why
/// they cannot be shown.
pub open spec fn ranked_entries(os: Platform, v: Seq<LsItem>, n: nat) -> Result<
    Seq<(RankView, EntryView)>,
    Seq<char>,
>
    decreases n,
{
    if n == 0 {
        Ok(Seq::empty())
    } else {
        match ranked_entries(os, v, (n - 1) as nat) {
            Err(e) => Err(e),
            Ok(before) => match v[n - 1] {
                LsItem::Unread(e) => Err("Failed to read entry: "@ + e@),
                LsItem::Unknown(e) => Err("Failed to read metadata: "@ + e@),
                LsItem::Known { name, stat } => Ok(
                    placed(
                        before,
                        node_rank(stat.is_dir, name@),
                        entry_of(os, name@, stat),
                    ),
                ),
            },
        }
    }
}

proof fn lemma_fault_stays(os: Platform, v: Seq<LsItem>, n: nat, m: nat)
    requires
        n <= m,
        ranked_entries(os, v, n) is Err,
    ensures
        ranked_entries(os, v, m) == ranked_entries(os, v, n),
    decreases m,
{
    if n < m {
        lemma_fault_stays(os, v, n, (m - 1) as nat);
    }
}

/// What a listing comes to: directories first, then by name.
pub open spec fn ls_result(os: Platform, v: Result<Vec<LsItem>, String>) -> Result<
    Seq<EntryView>,
    Seq<char>,
> {
    match v {
        Err(e) => Err("Failed to read directory: "@ + e@),
        Ok(items) => match ranked_entries(os, items@, items@.len()) {
            Ok(s) => Ok(seconds(s)),
            Err(e) => Err(e),
        },
    }
}

/// The view of a list of files or of an error.
pub open spec fn entries_view(r: Result<Vec<FileEntry>, String>) -> Result<
    Seq<EntryView>,
    Seq<char>,
> {
    match r {
        Ok(v) => Ok(entry_views(v@)),
        Err(e) => Err(e@),
    }
}

/// Shows a listing.
pub fn ls_handler(os: Platform, listing: Result<Vec<LsItem>, String>) -> (r: Result<
    Vec<FileEntry>,
    String,
>)
    ensures
        entries_view(r) == ls_result(os, listing),
{
    match listing {
        Err(e) => Err(cat2("Failed to read directory: ", e.as_str())),
        Ok(items) => {
            let ghost f = |e: FileEntry| e@;
            let mut sorter: Sorter<FileEntry> = Sorter::new();
            let mut i: usize = 0;
            assert(mapped(sorter@, f) =~= Seq::empty());
            while i < items.len()
                invariant
                    i <= items@.len(),
                    listing == Ok::<Vec<LsItem>, String>(items),
                    f == (|e: FileEntry| e@),
                    sorter.wf(),
                    ranked_entries(os, items@, i as nat) == Ok::<
                        Seq<(RankView, EntryView)>,
                        Seq<char>,
                    >(mapped(sorter@, f)),
                decreases items@.len() - i,
            {
                let ghost before = sorter@;
                match &items[i] {
                    LsItem::Unread(e) => {
                        proof {
                            lemma_fault_stays(os, items@, (i + 1) as nat, items@.len());
                        }
                        return Err(cat2("Failed to read entry: ", e.as_str()));
                    },
                    LsItem::Unknown(e) => {
                        proof {
                            lemma_fault_stays(os, items@, (i + 1) as nat, items@.len());
                        }
                        return Err(cat2("Failed to read metadata: ", e.as_str()));
                    },
                    LsItem::Known { name, stat } => {
                        let small = to_lowercase(name.as_str());
                        let group: u8 = if stat.is_dir {
                            0
                        } else {
                            1
                        };
                        let rank = Rank { group, text: chars_of(small.as_str()) };
                        let entry = make_entry(os, name.clone(), stat);
                        proof {
                            lemma_placed_mapped(before, rank@, entry, f);
                        }
                        sorter.add(rank, entry);
                    },
                }
                i += 1;
            }
            let out = sorter.into_items();
            assert(entry_views(out@) =~= seconds(mapped(sorter@, f)));
            Ok(out)
        },
    }
}

/// In a listing the directories come before the files, each in the order of
/// their small names, and nothing that was read is left out.
pub proof fn listing_is_in_order(os: Platform, v: Seq<LsItem>, n: nat)
    requires
        n <= v.len(),
        ranked_entries(os, v, n) is Ok,
    ensures
        in_order(ranked_entries(os, v, n)->Ok_0),
        ranked_entries(os, v, n)->Ok_0.len() == n,
        forall|i: int|
            0 <= i < n ==> (#[trigger] ranked_entries(os, v, n)->Ok_0[i]).0 == node_rank(
                ranked_entries(os, v, n)->Ok_0[i].1.is_dir,
                ranked_entries(os, v, n)->Ok_0[i].1.name,
            ),
    decreases n,
{
    if n > 0 {
        listing_is_in_order(os, v, (n - 1) as nat);
        let before = ranked_entries(os, v, (n - 1) as nat)->Ok_0;
        let s = ranked_entries(os, v, n)->Ok_0;
        match v[n - 1] {
            LsItem::Known { name, stat } => {
                let k = node_rank(stat.is_dir, name@);
                let p = slot(before, k);
                lemma_placed(before, k, entry_of(os, name@, stat));
                assert forall|i: int| 0 <= i < n implies (#[trigger] s[i]).0 == node_rank(
                    s[i].1.is_dir,
                    s[i].1.name,
                ) by {
                    if i < p {
                        assert(s[i] == before[i]);
                    } else if i > p {
                        assert(s[i] == before[i - 1]);
                    }
                }
            },
            _ => {},
        }
    }
}

/// Up to which size a file is shown as a text.
pub const MAX_TEXT_SIZE: u64 = 10_485_760;

/// Why the contents of a file are not there.
#[derive(Debug, PartialEq)]
pub enum ReadFault {
    Opening(String),
    Reading(String),
}

/// Tells whether the contents of a file are looked at: it has to be there, to be
/// no directory, and not to be too large.
pub fn wants_contents(found: bool, is_dir: bool, size: &Result<u64, String>) -> (r: bool)
    ensures
        r == (found && !is_dir && (*size matches Ok(n) && n <= MAX_TEXT_SIZE)),
{
    match size {
        Ok(n) => found && !is_dir && *n <= MAX_TEXT_SIZE,
        Err(_) => false,
    }
}

/// What is told of a file that is not shown.
pub open spec fn not_shown(path: Seq<char>, size: u64, message: Seq<char>) -> JsonView {
    JsonView::Object(
        no_fields().push(("path"@, JsonView::Str(path))).push(
            ("size"@, JsonView::Unsigned(size)),
        ).push(("binary"@, JsonView::Bool(true))).push(("content"@, JsonView::Null)).push(
            ("message"@, JsonView::Str(message)),
        ),
    )
}

/// What is told of a file with some contents: its text, unless it is not a text.
pub open spec fn contents_told(path: Seq<char>, size: u64, content: Seq<u8>) -> JsonView {
    if content.contains(0u8) {
        not_shown(path, size, "Binary file"@)
    } else {
        JsonView::Object(
            no_fields().push(("path"@, JsonView::Str(path))).push(
                ("size"@, JsonView::Unsigned(size)),
            ).push(("binary"@, JsonView::Bool(false))).push(
                ("content"@, JsonView::Str(lossy(content))),
            ),
        )
    }
}

/// What a request to show a file comes to.
pub open spec fn read_result(
    path: Seq<char>,
    found: bool,
    is_dir: bool,
    size: Result<u64, String>,
    content: Result<Vec<u8>, ReadFault>,
) -> Result<JsonView, Seq<char>> {
    if !found {
        Err("File not found"@)
    } else if is_dir {
        Err("Cannot read a directory"@)
    } else {
        match size {
            Err(e) => Err("Failed to read metadata: "@ + e@),
            Ok(n) => if n > MAX_TEXT_SIZE {
                Ok(not_shown(path, n, "File too large to display"@))
            } else {
                match content {
                    Err(ReadFault::Opening(e)) => Err("Failed to open file: "@ + e@),
                    Err(ReadFault::Reading(e)) => Err("Failed to read file: "@ + e@),
                    Ok(b) => Ok(contents_told(path, n, b@)),
                }
            },
        }
    }
}

/// The view of what is told or of a refusal.
pub open spec fn told_view(r: Result<Json, String>) -> Result<JsonView, Seq<char>> {
    match r {
        Ok(j) => Ok(j@),
        Err(e) => Err(e@),
    }
}

fn hidden(path: &str, size: u64, message: &str) -> (r: Json)
    ensures
        r@ == not_shown(path@, size, message@),
{
    Fields::new().text("path", path).number("size", size).flag("binary", true).with(
        "content",
        Json::Null,
    ).text("message", message).object()
}

fn tell_contents(path: &str, size: u64, content: &[u8]) -> (r: Json)
    ensures
        r@ == contents_told(path@, size, content@),
{
    let mut i: usize = 0;
    while i < content.len()
        invariant
            i <= content@.len(),
            forall|j: int| 0 <= j < i ==> content@[j] != 0,
        decreases content@.len() - i,
    {
        if content[i] == 0 {
            assert(content@[i as int] == 0u8);
            return hidden(path, size, "Binary file");
        }
        i += 1;
    }
    assert(!content@.contains(0u8));
    let text = lossy_text(content);
    Fields::new().text("path", path).number("size", size).flag("binary", false).text(
        "content",
        text.as_str(),
    ).object()
}

/// Shows a file. Its contents matter only where they are looked at.
pub fn read_handler(
    path: &str,
    found: bool,
    is_dir: bool,
    size: &Result<u64, String>,
    content: &Result<Vec<u8>, ReadFault>,
) -> (r: Result<Json, String>)
    ensures
        told_view(r) == read_result(path@, found, is_dir, *size, *content),
{
    if !found {
        return Err("File not found".to_owned());
    }
    if is_dir {
        return Err("Cannot read a directory".to_owned());
    }
    let size: u64 = match size {
        Err(e) => {
            return Err(cat2("Failed to read metadata: ", e.as_str()));
        },
        Ok(n) => *n,
    };
    if size > MAX_TEXT_SIZE {
        return Ok(hidden(path, size, "File too large to display"));
    }
    match content {
        Err(ReadFault::Opening(e)) => Err(cat2("Failed to open file: ", e.as_str())),
        Err(ReadFault::Reading(e)) => Err(cat2("Failed to read file: ", e.as_str())),
        Ok(b) => Ok(tell_contents(path, size, b.as_slice())),
    }
}

/// What is told of something that was done at a path.
pub fn done_at(path: &str) -> (r: Json)
    ensures
        r@ == JsonView::Object(
            no_fields().push(("ok"@, JsonView::Bool(true))).push(("path"@, JsonView::Str(path@))),
        ),
{
    Fields::new().flag("ok", true).text("path", path).object()
}

/// What is told of something that was done.
pub fn done() -> (r: Json)
    ensures
        r@ == JsonView::Object(no_fields().push(("ok"@, JsonView::Bool(true)))),
{
    Fields::new().flag("ok", true).object()
}

/// How something is removed.
#[derive(Debug, Clone, Copy, PartialEq, Eq, Structural)]
pub enum Removal {
    Tree,
    /// A directory that has to be empty.
    EmptyDir,
    File,
}

/// Decides how something is removed.
pub fn rm_handler(found: bool, is_dir: bool, recursive: Option<bool>) -> (r: Result<
    Removal,
    String,
>)
    ensures
        match r {
            Err(e) => !found && e@ == "Path not found"@,
            Ok(a) => found && a == (if !is_dir {
                Removal::File
            } else if recursive == Some(true) {
                Removal::Tree
            } else {
                Removal::EmptyDir
            }),
        },
{
    if !found {
        return Err("Path not found".to_owned());
    }
    let all = match recursive {
        Some(b) => b,
        None => false,
    };
    if !is_dir {
        Ok(Removal::File)
    } else if all {
        Ok(Removal::Tree)
    } else {
        Ok(Removal::EmptyDir)
    }
}

/// What is said when a removal fails.
pub fn rm_failure(a: Removal, e: &str) -> (r: String)
    ensures
        r@ == (match a {
            Removal::Tree => "Failed to remove directory: "@ + e@,
            Removal::EmptyDir => "Directory not empty (use recursive: true)"@,
            Removal::File => "Failed to remove file: "@ + e@,
        }),
{
    match a {
        Removal::Tree => cat2("Failed to remove directory: ", e),
        Removal::EmptyDir => "Directory not empty (use recursive: true)".to_owned(),
        Removal::File => cat2("Failed to remove file: ", e),
    }
}

/// Where something goes: into the destination, when that is a directory, else in
/// its place.
pub open spec fn target_of(
    os: Platform,
    source: Seq<char>,
    dest: Seq<char>,
    dest_is_dir: bool,
) -> Seq<char> {
    if dest_is_dir {
        join(
            os,
            dest,
            match file_name(os, source) {
                Some(n) => n,
                None => Seq::empty(),
            },
        )
    } else {
        dest
    }
}

fn find_target(os: Platform, source: &str, dest: &str, dest_is_dir: bool) -> (r: String)
    ensures
        r@ == target_of(os, source@, dest@, dest_is_dir),
{
    if dest_is_dir {
        let name = match file_name_of(os, source) {
            Some(n) => n,
            None => {
                proof {
                    reveal_strlit("");
                    assert(""@ =~= Seq::<char>::empty());
                }
                "".to_owned()
            },
        };
        join_path(os, dest, name.as_str())
    } else {
        dest.to_owned()
    }
}

/// Where something goes, and what is done for it.
#[derive(Debug, PartialEq)]
pub struct Transfer {
    pub target: String,
    pub steps: Vec<Step>,
}

/// What a transfer stands for.
pub struct TransferView {
    pub target: Seq<char>,
    pub steps: Seq<StepView>,
}

impl View for Transfer {
    type V = TransferView;

    open spec fn view(&self) -> TransferView {
        TransferView { target: self.target@, steps: step_views(self.steps@) }
    }
}

/// The view of a transfer or of a refusal.
pub open spec fn transfer_view(r: Result<Transfer, String>) -> Result<TransferView, Seq<char>> {
    match r {
        Ok(t) => Ok(t@),
        Err(e) => Err(e@),
    }
}

/// What writing a text to a file comes to.
pub fn write_handler(path: &str, content: &str) -> (r: Vec<Step>)
    ensures
        step_views(r@) == no_steps().push(
            (FsStepView::MakeParent(path@), "Failed to create parent directories: "@),
        ).push(
            (
                FsStepView::Write { path: path@, bytes: encode_utf8(content@) },
                "Failed to write file: "@,
            ),
        ),
{
    let write = FsStep::Write { path: path.to_owned(), bytes: content.as_bytes_vec() };
    Steps::new().and(
        FsStep::MakeParent(path.to_owned()),
        "Failed to create parent directories: ",
    ).and(write, "Failed to write file: ").list()
}

/// What making a directory comes to.
pub fn mkdir_handler(path: &str) -> (r: Vec<Step>)
    ensures
        step_views(r@) == no_steps().push(
            (FsStepView::MakeDir(path@), "Failed to create directory: "@),
        ),
{
    Steps::new().and(FsStep::MakeDir(path.to_owned()), "Failed to create directory: ").list()
}

/// What a request to move something comes to.
pub open spec fn move_plan(
    os: Platform,
    source: Seq<char>,
    dest: Seq<char>,
    source_found: bool,
    dest_is_dir: bool,
) -> Result<TransferView, Seq<char>> {
    let target = target_of(os, source, dest, dest_is_dir);
    if source_found {
        Ok(
            TransferView {
                target,
                steps: no_steps().push(
                    (FsStepView::MakeParent(target), "Failed to create parent directories: "@),
                ).push((FsStepView::Rename { from: source, to: target }, "Failed to move: "@)),
            },
        )
    } else {
        Err("Source not found"@)
    }
}

/// Decides how something is moved.
pub fn mv_handler(
    os: Platform,
    source: &str,
    dest: &str,
    source_found: bool,
    dest_is_dir: bool,
) -> (r: Result<Transfer, String>)
    ensures
        transfer_view(r) == move_plan(os, source@, dest@, source_found, dest_is_dir),
{
    if !source_found {
        return Err("Source not found".to_owned());
    }
    let target = find_target(os, source, dest, dest_is_dir);
    let rename = FsStep::Rename { from: source.to_owned(), to: target.clone() };
    let steps = Steps::new().and(
        FsStep::MakeParent(target.clone()),
        "Failed to create parent directories: ",
    ).and(rename, "Failed to move: ").list();
    Ok(Transfer { target, steps })
}

/// What a request to copy something comes to. What a directory holds is copied
/// with messages of its own.
pub open spec fn copy_plan(
    os: Platform,
    source: Seq<char>,
    dest: Seq<char>,
    source_found: bool,
    source_is_dir: bool,
    dest_is_dir: bool,
    recursive: Option<bool>,
) -> Result<TransferView, Seq<char>> {
    let target = target_of(os, source, dest, dest_is_dir);
    let copy = (FsStepView::CopyFile { from: source, to: target }, "Failed to copy: "@);
    if !source_found {
        Err("Source not found"@)
    } else if !source_is_dir && dest_is_dir {
        Ok(TransferView { target, steps: no_steps().push(copy) })
    } else if !source_is_dir {
        Ok(
            TransferView {
                target,
                steps: no_steps().push(
                    (FsStepView::MakeParent(target), "Failed to create parent: "@),
                ).push(copy),
            },
        )
    } else if recursive == Some(true) {
        Ok(
            TransferView {
                target,
                steps: no_steps().push(
                    (FsStepView::CopyTree { from: source, to: target }, Seq::empty()),
                ),
            },
        )
    } else {
        Err("Source is a directory (use recursive: true)"@)
    }
}

/// Decides how something is copied.
pub fn cp_handler(
    os: Platform,
    source: &str,
    dest: &str,
    source_found: bool,
    source_is_dir: bool,
    dest_is_dir: bool,
    recursive: Option<bool>,
) -> (r: Result<Transfer, String>)
    ensures
        transfer_view(r) == copy_plan(
            os,
            source@,
            dest@,
            source_found,
            source_is_dir,
            dest_is_dir,
            recursive,
        ),
{
    if !source_found {
        return Err("Source not found".to_owned());
    }
    let target = find_target(os, source, dest, dest_is_dir);
    if !source_is_dir {
        let copy = FsStep::CopyFile { from: source.to_owned(), to: target.clone() };
        let first = if dest_is_dir {
            Steps::new()
        } else {
            Steps::new().and(FsStep::MakeParent(target.clone()), "Failed to create parent: ")
        };
        return Ok(Transfer { target, steps: first.and(copy, "Failed to copy: ").list() });
    }
    let all = match recursive {
        Some(b) => b,
        None => false,
    };
    if all {
        proof {
            reveal_strlit("");
            assert(""@ =~= Seq::<char>::empty());
        }
        let copy = FsStep::CopyTree { from: source.to_owned(), to: target.clone() };
        Ok(Transfer { target, steps: Steps::new().and(copy, "").list() })
    } else {
        Err("Source is a directory (use recursive: true)".to_owned())
    }
}

/// One thing in a directory that is copied.
#[derive(Debug, PartialEq)]
pub enum CopyItem {
    /// The thing could not be read.
    Unread(String),
    /// Nothing could be learnt of the thing.
    Unknown(String),
    Known { name: String, is_dir: bool },
}

/// The steps that the first `n` things in a directory come to, and why it is not
/// gone on with.
pub open spec fn dir_copies(
    os: Platform,
    from: Seq<char>,
    to: Seq<char>,
    items: Seq<CopyItem>,
    n: nat,
) -> (Seq<StepView>, Option<Seq<char>>)
    decreases n,
{
    if n == 0 {
        (no_steps(), None)
    } else {
        let before = dir_copies(os, from, to, items, (n - 1) as nat);
        if before.1 is Some {
            before
        } else {
            match items[n - 1] {
                CopyItem::Unread(e) => (before.0, Some("Failed to read entry: "@ + e@)),
                CopyItem::Unknown(e) => (before.0, Some("Failed to read metadata: "@ + e@)),
                CopyItem::Known { name, is_dir } => {
                    let a = join(os, from, name@);
                    let b = join(os, to, name@);
                    if is_dir {
                        (
                            before.0.push(
                                (FsStepView::CopyTree { from: a, to: b }, Seq::empty()),
                            ),
                            None,
                        )
                    } else {
                        (
                            before.0.push(
                                (
                                    FsStepView::CopyFile { from: a, to: b },
                                    "Failed to copy file: "@,
                                ),
                            ),
                            None,
                        )
                    }
                },
            }
        }
    }
}

proof fn lemma_copies_stop(
    os: Platform,
    from: Seq<char>,
    to: Seq<char>,
    items: Seq<CopyItem>,
    n: nat,
    m: nat,
)
    requires
        n <= m,
        dir_copies(os, from, to, items, n).1 is Some,
    ensures
        dir_copies(os, from, to, items, m) == dir_copies(os, from, to, items, n),
    decreases m,
{
    if n < m {
        lemma_copies_stop(os, from, to, items, n, (m - 1) as nat);
    }
}

/// The step that comes before a directory is read to be copied.
pub fn copy_dir_start(to: &str) -> (r: Step)
    ensures
        r@ == (FsStepView::MakeDir(to@), "Failed to create dir: "@),
{
    Step { act: FsStep::MakeDir(to.to_owned()), fault: "Failed to create dir: ".to_owned() }
}

/// What copying the things in a directory comes to: the steps, in their order,
/// and what is said after them when the directory was not read to its end.
pub fn copy_dir_recursive(
    os: Platform,
    from: &str,
    to: &str,
    listing: &Result<Vec<CopyItem>, String>,
) -> (r: (Vec<Step>, Option<String>))
    ensures
        (step_views(r.0@), text_view(r.1)) == (match *listing {
            Ok(items) => dir_copies(os, from@, to@, items@, items@.len()),
            Err(e) => (no_steps(), Some("Failed to read dir: "@ + e@)),
        }),
{
    let mut steps = Steps::new();
    match listing {
        Err(e) => (steps.list(), Some(cat2("Failed to read dir: ", e.as_str()))),
        Ok(items) => {
            proof {
                reveal_strlit("");
                assert(""@ =~= Seq::<char>::empty());
            }
            let mut i: usize = 0;
            while i < items.len()
                invariant
                    i <= items@.len(),
                    *listing == Ok::<Vec<CopyItem>, String>(*items),
                    ""@ == Seq::<char>::empty(),
                    dir_copies(os, from@, to@, items@, i as nat) == (
                        steps.value(),
                        None::<Seq<char>>,
                    ),
                decreases items@.len() - i,
            {
                match &items[i] {
                    CopyItem::Unread(e) => {
                        proof {
                            lemma_copies_stop(os, from@, to@, items@, (i + 1) as nat, items@.len());
                        }
                        return (steps.list(), Some(cat2("Failed to read entry: ", e.as_str())));
                    },
                    CopyItem::Unknown(e) => {
                        proof {
                            lemma_copies_stop(os, from@, to@, items@, (i + 1) as nat, items@.len());
                        }
                        return (
                            steps.list(),
                            Some(cat2("Failed to read metadata: ", e.as_str())),
                        );
                    },
                    CopyItem::Known { name, is_dir } => {
                        let a = join_path(os, from, name.as_str());
                        let b = join_path(os, to, name.as_str());
                        if *is_dir {
                            steps = steps.and(FsStep::CopyTree { from: a, to: b }, "");
                        } else {
                            steps = steps.and(
                                FsStep::CopyFile { from: a, to: b },
                                "Failed to copy file: ",
                            );
                        }
                    },
                }
                i += 1;
            }
            (steps.list(), None)
        },
    }
}

/// What is known of a file, with the number of things in it.
#[derive(Debug, PartialEq)]
pub struct StatResult {
    pub entry: FileEntry,
    pub children: Option<u64>,
}

/// What a request for all that is known of a file comes to. It has no name where
/// its path ends in no name, and only a directory has things in it.
pub open spec fn stat_result(
    os: Platform,
    found: bool,
    stat: Result<FileStat, String>,
    children: Result<u64, String>,
) -> Result<(EntryView, Option<u64>), Seq<char>> {
    if !found {
        Err("Path not found"@)
    } else {
        match stat {
            Err(e) => Err("Failed to read metadata: "@ + e@),
            Ok(s) => {
                let name = match file_name(os, s.path@) {
                    Some(n) => n,
                    None => Seq::empty(),
                };
                if !s.is_dir {
                    Ok((entry_of(os, name, s), None))
                } else {
                    match children {
                        Err(e) => Err("Failed to read dir: "@ + e@),
                        Ok(n) => Ok((entry_of(os, name, s), Some(n))),
                    }
                }
            },
        }
    }
}

/// The view of what is known of a file or of a refusal.
pub open spec fn stat_view(r: Result<StatResult, String>) -> Result<
    (EntryView, Option<u64>),
    Seq<char>,
> {
    match r {
        Ok(s) => Ok((s.entry@, s.children)),
        Err(e) => Err(e@),
    }
}

/// Tells all that is known of a file.
pub fn stat_handler(
    os: Platform,
    found: bool,
    stat: &Result<FileStat, String>,
    children: &Result<u64, String>,
) -> (r: Result<StatResult, String>)
    ensures
        stat_view(r) == stat_result(os, found, *stat, *children),
{
    if !found {
        return Err("Path not found".to_owned());
    }
    match stat {
        Err(e) => Err(cat2("Failed to read metadata: ", e.as_str())),
        Ok(s) => {
            let count = if s.is_dir {
                match children {
                    Err(e) => {
                        return Err(cat2("Failed to read dir: ", e.as_str()));
                    },
                    Ok(n) => Some(*n),
                }
            } else {
                None
            };
            let name = match file_name_of(os, s.path.as_str()) {
                Some(n) => n,
                None => {
                    proof {
                        reveal_strlit("");
                        assert(""@ =~= Seq::<char>::empty());
                    }
                    "".to_owned()
                },
            };
            Ok(StatResult { entry: make_entry(os, name, s), children: count })
        },
    }
}

/// How many files a search by name shows at most.
pub const MAX_HITS: usize = 500;

/// How deep a search by name goes when nothing else is said.
pub const SEARCH_DEPTH: usize = 20;

/// A search by name.
pub struct NameSearch {
    os: Platform,
    query: String,
    hits: Vec<FileEntry>,
}

/// What a search by name stands for.
pub struct NameSearchView {
    pub os: Platform,
    pub query: Seq<char>,
    pub hits: Seq<EntryView>,
}

impl View for NameSearch {
    type V = NameSearchView;

    closed spec fn view(&self) -> NameSearchView {
        NameSearchView { os: self.os, query: self.query@, hits: entry_views(self.hits@) }
    }
}

impl NameSearchView {
    /// The search after something with a name was come across.
    pub open spec fn after(self, name: Seq<char>, stat: Option<FileStat>) -> NameSearchView {
        if self.hits.len() < MAX_HITS && contains(lowercase(name), self.query) {
            match shown(self.os, stat) {
                Some(e) => NameSearchView { hits: self.hits.push(e), ..self },
                None => self,
            }
        } else {
            self
        }
    }
}

impl NameSearch {
    /// No more files than a search shows.
    pub closed spec fn wf(&self) -> bool {
        self.hits@.len() <= MAX_HITS
    }

    /// Tells whether the search has all that it shows.
    pub fn is_full(&self) -> (r: bool)
        ensures
            r == (self@.hits.len() >= MAX_HITS),
    {
        self.hits.len() >= MAX_HITS
    }

    /// Tells whether a name is looked for.
    pub fn wants(&self, name: &str) -> (r: bool)
        ensures
            r == contains(lowercase(name@), self@.query),
    {
        let small = to_lowercase(name);
        let chars = chars_of(small.as_str());
        holds(chars.as_slice(), self.query.as_str())
    }

    /// Takes in something with a name.
    pub fn offer(&mut self, name: &str, stat: &Option<FileStat>)
        requires
            old(self).wf(),
        ensures
            final(self).wf(),
            final(self)@ == old(self)@.after(name@, *stat),
    {
        if self.hits.len() < MAX_HITS && self.wants(name) {
            match file_entry_from_path(self.os, stat) {
                Some(e) => {
                    let ghost before = self@.hits;
                    self.hits.push(e);
                    assert(self@.hits =~= before.push(e@));
                },
                None => {},
            }
        }
    }

    /// The files that were found.
    pub fn into_hits(self) -> (r: Vec<FileEntry>)
        ensures
            entry_views(r@) == self@.hits,
    {
        self.hits
    }
}

/// Begins a search for a part of a name, in capitals or not.
pub fn search_handler(os: Platform, found: bool, query: &str) -> (r: Result<NameSearch, String>)
    ensures
        match r {
            Err(e) => !found && e@ == "Path not found"@,
            Ok(s) => found && s.wf() && s@ == (NameSearchView {
                os,
                query: lowercase(query@),
                hits: Seq::empty(),
            }),
        },
{
    if !found {
        return Err("Path not found".to_owned());
    }
    let s = NameSearch { os, query: to_lowercase(query), hits: Vec::new() };
    assert(s@.hits =~= Seq::empty());
    Ok(s)
}

/// How deep a search by name goes.
pub fn search_depth(max_depth: Option<usize>) -> (r: usize)
    ensures
        r == (match max_depth {
            Some(n) => n,
            None => 20,
        }),
{
    match max_depth {
        Some(n) => n,
        None => SEARCH_DEPTH,
    }
}

/// The media type of files with an extension.
pub uninterp spec fn mime_of(ext: Seq<char>) -> Seq<char>;

/// `mime_guess::from_ext` and `first_or_octet_stream`: the type depends on the
/// extension alone, and is that of plain bytes where the extension is empty. Which
/// extension has which type is left unsaid.
#[verifier::external_body]
fn guess_mime(ext: &str) -> (r: String)
    ensures
        r@ == mime_of(ext@),
        ext@.len() == 0 ==> r@ == "application/octet-stream"@,
{
    mime_guess::from_ext(ext).first_or_octet_stream().to_string()
}

/// The media type of a file, by its path: that of plain bytes where the path has
/// no extension.
pub open spec fn content_type(os: Platform, path: Seq<char>) -> Seq<char> {
    match extension(os, path) {
        Some(e) => mime_of(e),
        None => "application/octet-stream"@,
    }
}

/// A download, and what it is told to be.
#[derive(Debug, PartialEq)]
pub struct Download {
    pub content_type: String,
    pub disposition: String,
    pub content: Vec<u8>,
}

/// The name under which a file is downloaded.
pub open spec fn download_name(os: Platform, path: Seq<char>) -> Seq<char> {
    match file_name(os, path) {
        Some(n) => n,
        None => "download"@,
    }
}

/// Hands out a file.
pub fn download_handler(
    os: Platform,
    path: &str,
    found: bool,
    is_dir: bool,
    content: Result<Vec<u8>, String>,
) -> (r: Result<Download, String>)
    ensures
        if !found {
            r matches Err(e) && e@ == "File not found"@
        } else if is_dir {
            r matches Err(e) && e@ == "Cannot download a directory"@
        } else {
            match content {
                Err(e) => r matches Err(t) && t@ == "Failed to read file: "@ + e@,
                Ok(b) => r matches Ok(d) && d.content@ == b@ && d.content_type@ == content_type(
                    os,
                    path@,
                ) && d.disposition@ == "attachment; filename=\""@ + download_name(os, path@)
                    + "\""@,
            }
        },
{
    if !found {
        return Err("File not found".to_owned());
    }
    if is_dir {
        return Err("Cannot download a directory".to_owned());
    }
    match content {
        Err(e) => Err(cat2("Failed to read file: ", e.as_str())),
        Ok(content) => {
            let name = match file_name_of(os, path) {
                Some(n) => n,
                None => "download".to_owned(),
            };
            let content_type = match extension_of(os, path) {
                Some(e) => guess_mime(e.as_str()),
                None => "application/octet-stream".to_owned(),
            };
            let disposition = cat3("attachment; filename=\"", name.as_str(), "\"");
            Ok(Download { content_type, disposition, content })
        },
    }
}

/// An upload.
pub struct Upload {
    target_dir: String,
    file_name: String,
}

/// What an upload stands for.
pub struct UploadView {
    pub target_dir: Seq<char>,
    pub file_name: Seq<char>,
}

impl View for Upload {
    type V = UploadView;

    closed spec fn view(&self) -> UploadView {
        UploadView { target_dir: self.target_dir@, file_name: self.file_name@ }
    }
}

/// What a field of an upload is.
#[derive(Debug, Clone, Copy, PartialEq, Eq, Structural)]
pub enum UploadField {
    /// The directory to which the files after it go.
    Path,
    File,
    /// The field is passed over.
    Other,
}

/// What a field of that name is.
pub fn upload_field(name: &str) -> (r: UploadField)
    ensures
        r == (if name@ == "path"@ {
            UploadField::Path
        } else if name@ == "file"@ {
            UploadField::File
        } else {
            UploadField::Other
        }),
{
    if same(name, "path") {
        UploadField::Path
    } else if same(name, "file") {
        UploadField::File
    } else {
        UploadField::Other
    }
}

/// Where an upload fails.
#[derive(Debug, Clone, Copy, PartialEq, Eq, Structural)]
pub enum UploadFault {
    /// The next field cannot be read.
    Field,
    PathText,
    FileData,
    MakeDir,
    CreateFile,
    WriteFile,
}

/// What is said when an upload fails.
pub fn upload_failure(at: UploadFault, e: &str) -> (r: String)
    ensures
        r@ == (match at {
            UploadFault::Field => "Multipart error: "@,
            UploadFault::PathText => "Failed to read path field: "@,
            UploadFault::FileData => "Failed to read file data: "@,
            UploadFault::MakeDir => "Failed to create dir: "@,
            UploadFault::CreateFile => "Failed to create file: "@,
            UploadFault::WriteFile => "Failed to write file: "@,
        }) + e@,
{
    let said = match at {
        UploadFault::Field => "Multipart error: ",
        UploadFault::PathText => "Failed to read path field: ",
        UploadFault::FileData => "Failed to read file data: ",
        UploadFault::MakeDir => "Failed to create dir: ",
        UploadFault::CreateFile => "Failed to create file: ",
        UploadFault::WriteFile => "Failed to write file: ",
    };
    cat2(said, e)
}

/// The name under which a file is stored.
pub open spec fn uploaded_name(name: Option<String>) -> Seq<char> {
    match name {
        Some(t) => t@,
        None => "uploaded_file"@,
    }
}

impl Upload {
    /// An upload that begins.
    pub fn new() -> (r: Self)
        ensures
            r@ == (UploadView { target_dir: Seq::empty(), file_name: Seq::empty() }),
    {
        proof {
            reveal_strlit("");
            assert(""@ =~= Seq::<char>::empty());
        }
        Upload { target_dir: "".to_owned(), file_name: "".to_owned() }
    }

    /// Takes in the directory to which the files after it go.
    pub fn path(&mut self, text: String)
        ensures
            final(self)@ == (UploadView { target_dir: text@, ..old(self)@ }),
    {
        self.target_dir = text;
    }

    /// Takes in a file, and gives the directory that has to be there and the path
    /// to which the file goes.
    pub fn file(&mut self, os: Platform, name: Option<String>, home: &Option<String>) -> (r: (
        String,
        String,
    ))
        ensures
            final(self)@ == (UploadView { file_name: uploaded_name(name), ..old(self)@ }),
            r.0@ == cleaned(os, expanded(os, old(self)@.target_dir, text_view(*home))),
            r.1@ == join(os, r.0@, uploaded_name(name)),
    {
        let n = match name {
            Some(t) => t,
            None => "uploaded_file".to_owned(),
        };
        let dir = normalize_path(os, self.target_dir.as_str(), home);
        let dest = join_path(os, dir.as_str(), n.as_str());
        self.file_name = n;
        (dir, dest)
    }

    /// What is told of the upload.
    pub fn reply(&self) -> (r: Json)
        ensures
            r@ == JsonView::Object(
                no_fields().push(("ok"@, JsonView::Bool(true))).push(
                    ("name"@, JsonView::Str(self@.file_name)),
                ),
            ),
    {
        Fields::new().flag("ok", true).text("name", self.file_name.as_str()).object()
    }
}

/// A tilde at the front of a path stands for the home directory, or for the place itself where
/// there is none, and every other path stands for itself.
pub proof fn tildes_stand_for_the_home(
    os: Platform,
    path: Seq<char>,
    rest: Seq<char>,
    home: Seq<char>,
)
    ensures
        expanded(os, "~"@, Some(home)) == home,
        expanded(os, "~"@, None) == seq!['.'],
        expanded(os, seq!['~', '/'] + rest, Some(home)) == join(os, home, rest),
        expanded(os, seq!['~', '/'] + rest, None) == join(os, seq!['.'], rest),
        path.len() == 0 || path[0] != '~' ==> expanded(os, path, Some(home)) == path,
        path.len() > 1 && path[1] != '/' ==> expanded(os, path, Some(home)) == path,
{
    reveal_strlit("~");
    reveal_strlit("~/");
    reveal_strlit(".");
    let two = seq!['~', '/'] + rest;
    assert("."@ =~= seq!['.']);
    assert(two.take(2) =~= "~/"@);
    assert(two.skip(2) =~= rest);
    assert(!starts_with("~"@, "~/"@));
    if path.len() > 1 {
        assert(path.take(2)[0] == path[0] && path.take(2)[1] == path[1]);
        assert("~/"@[0] == '~' && "~/"@[1] == '/');
    }
}

/// The number that a run of octal digits writes.
pub open spec fn octal_value(s: Seq<char>) -> int
    decreases s.len(),
{
    if s.len() == 0 {
        0
    } else {
        octal_value(s.drop_last()) * 8 + (s.last() as int - '0' as int)
    }
}

/// The permissions of a file are the nine lowest bits of its mode, in octal.
pub proof fn permissions_are_in_octal(mode: u32)
    ensures
        permissions_of(None) is None,
        permissions_of(Some(mode)) matches Some(t) && octal_value(t) == mode % 512 && 1 <= t.len()
            <= 3 && forall|i: int| 0 <= i < t.len() ==> '0' <= #[trigger] t[i] <= '7',
{
    lemma_octal((mode % 512) as nat, 3);
}

proof fn lemma_octal(n: nat, most: nat)
    requires
        most == 3 && n < 512 || most == 2 && n < 64 || most == 1 && n < 8,
    ensures
        octal_value(octal(n)) == n,
        1 <= octal(n).len() <= most,
        forall|i: int| 0 <= i < octal(n).len() ==> '0' <= #[trigger] octal(n)[i] <= '7',
    decreases n,
{
    let d = octal(n);
    if n < 8 {
        assert(d.drop_last() =~= Seq::<char>::empty());
        assert(octal_value(d.drop_last()) == 0);
        assert(d.last() as int == '0' as int + n);
    } else {
        lemma_octal(n / 8, (most - 1) as nat);
        assert(d.drop_last() =~= octal(n / 8));
        assert(d.last() as int == '0' as int + n % 8);
    }
}

/// A file is shown with what is known of it, under the name that its path ends in; one without
/// a name, or of which nothing is known, is not shown.
pub proof fn files_are_shown_as_they_are(os: Platform, s: FileStat)
    ensures
        shown(os, None) is None,
        shown(os, Some(s)) is Some <==> file_name(os, s.path@) is Some,
        shown(os, Some(s)) matches Some(e) ==> {
            &&& Some(e.name) == file_name(os, s.path@)
            &&& e.path == s.path@
            &&& e.is_dir == s.is_dir
            &&& e.size == s.size
            &&& e.permissions == permissions_of(s.mode)
            &&& e.extension == extension(os, s.path@)
            &&& s.modified is None ==> e.modified is None
            &&& s.modified matches Some(t) ==> e.modified == rfc3339(t.0, t.1)
        },
{
}

/// In a listing no file stands before a directory, and of two directories or two files the one
/// with the smaller name stands first, in capitals or not.
pub proof fn directories_are_listed_first(os: Platform, v: Seq<LsItem>, i: int, j: int)
    requires
        ranked_entries(os, v, v.len()) is Ok,
        0 <= i < j < v.len(),
    ensures
        ({
            let shown = seconds(ranked_entries(os, v, v.len())->Ok_0);
            &&& shown.len() == v.len()
            &&& shown[j].is_dir ==> shown[i].is_dir
            &&& shown[i].is_dir == shown[j].is_dir ==> !before(
                lowercase(shown[j].name),
                lowercase(shown[i].name),
            )
        }),
{
    listing_is_in_order(os, v, v.len());
    let s = ranked_entries(os, v, v.len())->Ok_0;
    assert(!rank_before(s[j].0, s[i].0));
    assert(s[i].0 == node_rank(s[i].1.is_dir, s[i].1.name));
    assert(s[j].0 == node_rank(s[j].1.is_dir, s[j].1.name));
}

/// Every item of a listing is shown as what is known of it. It hands out where.
pub proof fn every_item_is_listed(os: Platform, v: Seq<LsItem>, n: nat, i: int) -> (at: int)
    requires
        n <= v.len(),
        ranked_entries(os, v, n) is Ok,
        0 <= i < n,
    ensures
        0 <= at < n,
        ranked_entries(os, v, n)->Ok_0.len() == n,
        v[i] matches LsItem::Known { name, stat } && {
            let e = ranked_entries(os, v, n)->Ok_0[at].1;
            &&& e.name == name@
            &&& e.path == stat.path@
            &&& e.is_dir == stat.is_dir
            &&& e.size == stat.size
            &&& e.permissions == permissions_of(stat.mode)
            &&& e.extension == extension(os, stat.path@)
        },
    decreases n,
{
    listing_is_in_order(os, v, n);
    listing_is_in_order(os, v, (n - 1) as nat);
    let front = ranked_entries(os, v, (n - 1) as nat)->Ok_0;
    match v[n - 1] {
        LsItem::Known { name, stat } => {
            let k = node_rank(stat.is_dir, name@);
            let x = entry_of(os, name@, stat);
            lemma_placed(front, k, x);
            let p = slot(front, k);
            if i == n - 1 {
                p
            } else {
                let q = every_item_is_listed(os, v, (n - 1) as nat, i);
                if q < p {
                    assert(placed(front, k, x)[q] == front[q]);
                    q
                } else {
                    assert(placed(front, k, x)[q + 1] == front[q]);
                    q + 1
                }
            }
        },
        _ => 0,
    }
}

/// A listing is refused at the first item that cannot be read or of which nothing can be
/// learnt, and for that reason.
pub proof fn listings_fail_at_the_first_fault(os: Platform, v: Seq<LsItem>, i: int)
    requires
        0 <= i < v.len(),
        forall|j: int| 0 <= j < i ==> #[trigger] v[j] is Known,
        !(v[i] is Known),
    ensures
        v[i] matches LsItem::Unread(e) ==> ranked_entries(os, v, v.len()) == Err::<
            Seq<(RankView, EntryView)>,
            Seq<char>,
        >("Failed to read entry: "@ + e@),
        v[i] matches LsItem::Unknown(e) ==> ranked_entries(os, v, v.len()) == Err::<
            Seq<(RankView, EntryView)>,
            Seq<char>,
        >("Failed to read metadata: "@ + e@),
{
    lemma_known_items(os, v, i as nat);
    lemma_fault_stays(os, v, (i + 1) as nat, v.len());
}

proof fn lemma_known_items(os: Platform, v: Seq<LsItem>, n: nat)
    requires
        n <= v.len(),
        forall|j: int| 0 <= j < n ==> #[trigger] v[j] is Known,
    ensures
        ranked_entries(os, v, n) is Ok,
    decreases n,
{
    if n > 0 {
        lemma_known_items(os, v, (n - 1) as nat);
        assert(v[n - 1] is Known);
    }
}

/// A file is shown by its text unless it holds a zero byte or is too large; what is told names
/// its path and its size either way, and says that it is no text just where it is not shown.
pub proof fn files_are_read_as_texts(
    path: Seq<char>,
    size: u64,
    content: Vec<u8>,
    fault: ReadFault,
)
    ensures
        ({
            let told = read_result(path, true, false, Ok(size), Ok(content));
            let text = size <= 10 * 1024 * 1024 && !content@.contains(0u8);
            &&& told is Ok
            &&& told->Ok_0.says("path"@, JsonView::Str(path))
            &&& told->Ok_0.says("size"@, JsonView::Unsigned(size))
            &&& told->Ok_0.says("binary"@, JsonView::Bool(!text))
            &&& text ==> told->Ok_0.says("content"@, JsonView::Str(lossy(content@)))
            &&& !text ==> told->Ok_0.says("content"@, JsonView::Null)
            &&& size > 10 * 1024 * 1024 ==> told->Ok_0.says(
                "message"@,
                JsonView::Str("File too large to display"@),
            )
            &&& size <= 10 * 1024 * 1024 && !text ==> told->Ok_0.says(
                "message"@,
                JsonView::Str("Binary file"@),
            )
        }),
        size <= 10 * 1024 * 1024 <==> read_result(path, true, false, Ok(size), Err(fault)) is Err,
{
    let told = read_result(path, true, false, Ok(size), Ok(content))->Ok_0;
    let f = told->Object_0;
    assert(f[0].0 == "path"@ && f[1].0 == "size"@ && f[2].0 == "binary"@ && f[3].0 == "content"@);
    assert(f.contains(f[0]) && f.contains(f[1]) && f.contains(f[2]) && f.contains(f[3]));
    if f.len() == 5 {
        assert(f[4].0 == "message"@);
        assert(f.contains(f[4]));
    }
}

/// A file that is not there or is a directory is not read, whatever else is known of it.
pub proof fn only_files_are_read(
    path: Seq<char>,
    is_dir: bool,
    size: Result<u64, String>,
    content: Result<Vec<u8>, ReadFault>,
)
    ensures
        read_result(path, false, is_dir, size, content) == Err::<JsonView, Seq<char>>(
            "File not found"@,
        ),
        read_result(path, true, true, size, content) == Err::<JsonView, Seq<char>>(
            "Cannot read a directory"@,
        ),
        size matches Err(e) ==> read_result(path, true, false, size, content) == Err::<
            JsonView,
            Seq<char>,
        >("Failed to read metadata: "@ + e@),
{
}

/// What is moved or copied goes under its own name into a destination that is a directory, and
/// else in the place of the destination.
pub proof fn things_go_where_they_are_sent(
    os: Platform,
    source: Seq<char>,
    dest: Seq<char>,
    name: Seq<char>,
)
    requires
        file_name(os, source) == Some(name),
    ensures
        target_of(os, source, dest, true) == join(os, dest, name),
        target_of(os, source, dest, false) == dest,
{
}

/// A move makes the directory around its target and then gives the source that name; nothing
/// else is done, and nothing where there is no source.
pub proof fn moves_rename_the_source(
    os: Platform,
    source: Seq<char>,
    dest: Seq<char>,
    dest_is_dir: bool,
)
    ensures
        move_plan(os, source, dest, false, dest_is_dir) == Err::<TransferView, Seq<char>>(
            "Source not found"@,
        ),
        move_plan(os, source, dest, true, dest_is_dir) matches Ok(t) && {
            &&& t.target == target_of(os, source, dest, dest_is_dir)
            &&& t.steps.len() == 2
            &&& t.steps[0].0 == FsStepView::MakeParent(t.target)
            &&& t.steps[1].0 == (FsStepView::Rename { from: source, to: t.target })
        },
{
}

/// A copy ends with the source copied to the target: a file as a file, whatever is said of
/// directories, and a directory with all that it holds, but only where that is asked for.
pub proof fn copies_copy_the_source(
    os: Platform,
    source: Seq<char>,
    dest: Seq<char>,
    source_is_dir: bool,
    dest_is_dir: bool,
    recursive: Option<bool>,
)
    ensures
        copy_plan(os, source, dest, false, source_is_dir, dest_is_dir, recursive) == Err::<
            TransferView,
            Seq<char>,
        >("Source not found"@),
        ({
            let plan = copy_plan(os, source, dest, true, source_is_dir, dest_is_dir, recursive);
            let target = target_of(os, source, dest, dest_is_dir);
            &&& plan is Err <==> source_is_dir && recursive != Some(true)
            &&& plan matches Err(e) ==> e == "Source is a directory (use recursive: true)"@
            &&& plan matches Ok(t) ==> {
                let last = t.steps.last().0;
                &&& t.target == target
                &&& t.steps.len() > 0
                &&& source_is_dir ==> t.steps.len() == 1 && last == (FsStepView::CopyTree {
                    from: source,
                    to: target,
                })
                &&& !source_is_dir ==> last == (FsStepView::CopyFile { from: source, to: target })
                &&& !source_is_dir && dest_is_dir ==> t.steps.len() == 1
                &&& !source_is_dir && !dest_is_dir ==> t.steps.len() == 2 && t.steps[0].0
                    == FsStepView::MakeParent(target)
            }
        }),
{
}

/// A directory is copied thing by thing, each under its own name from the one directory to the
/// other.
pub proof fn directories_are_copied_thing_by_thing(
    os: Platform,
    from: Seq<char>,
    to: Seq<char>,
    items: Seq<CopyItem>,
    n: nat,
    i: int,
)
    requires
        n <= items.len(),
        0 <= i < n,
        forall|j: int| 0 <= j < n ==> #[trigger] items[j] is Known,
    ensures
        ({
            let (steps, fault) = dir_copies(os, from, to, items, n);
            let name = items[i]->name@;
            &&& fault is None
            &&& steps.len() == n
            &&& steps[i].0 == (if items[i]->is_dir {
                FsStepView::CopyTree { from: join(os, from, name), to: join(os, to, name) }
            } else {
                FsStepView::CopyFile { from: join(os, from, name), to: join(os, to, name) }
            })
        }),
    decreases n,
{
    assert(items[n - 1] is Known);
    if n > 1 {
        let k = if i < n - 1 {
            i
        } else {
            0
        };
        directories_are_copied_thing_by_thing(os, from, to, items, (n - 1) as nat, k);
    } else {
        assert(dir_copies(os, from, to, items, 0) == (no_steps(), None::<Seq<char>>));
    }
}

/// The copy of a directory stops at the first thing that cannot be read, with the things before
/// that copied.
pub proof fn copies_stop_at_the_first_fault(
    os: Platform,
    from: Seq<char>,
    to: Seq<char>,
    items: Seq<CopyItem>,
    i: int,
)
    requires
        0 <= i < items.len(),
        forall|j: int| 0 <= j < i ==> #[trigger] items[j] is Known,
        !(items[i] is Known),
    ensures
        ({
            let (steps, fault) = dir_copies(os, from, to, items, items.len());
            &&& steps.len() == i
            &&& items[i] matches CopyItem::Unread(e) ==> fault == Some(
                "Failed to read entry: "@ + e@,
            )
            &&& items[i] matches CopyItem::Unknown(e) ==> fault == Some(
                "Failed to read metadata: "@ + e@,
            )
        }),
{
    if i > 0 {
        directories_are_copied_thing_by_thing(os, from, to, items, i as nat, 0);
    } else {
        assert(dir_copies(os, from, to, items, 0) == (no_steps(), None::<Seq<char>>));
    }
    lemma_copies_stop(os, from, to, items, (i + 1) as nat, items.len());
}

/// All that is known of a path is told where it is there; only of a directory are the things in
/// it counted, and only there does it matter whether they can be.
pub proof fn only_directories_are_counted(
    os: Platform,
    s: FileStat,
    stat: Result<FileStat, String>,
    children: Result<u64, String>,
)
    ensures
        stat_result(os, false, stat, children) == Err::<(EntryView, Option<u64>), Seq<char>>(
            "Path not found"@,
        ),
        !s.is_dir ==> (stat_result(os, true, Ok(s), children) matches Ok(r) && r.1 is None),
        s.is_dir ==> (stat_result(os, true, Ok(s), children) is Ok <==> children is Ok),
        stat_result(os, true, Ok(s), children) matches Ok(r) ==> {
            &&& s.is_dir ==> r.1 == Some(children->Ok_0)
            &&& r.0.path == s.path@ && r.0.is_dir == s.is_dir && r.0.size == s.size
            &&& file_name(os, s.path@) matches Some(n) ==> r.0.name == n
            &&& file_name(os, s.path@) is None ==> r.0.name.len() == 0
        },
{
}

/// A search by name takes in what it comes across just where the name holds what is looked for,
/// in capitals or not, until it has as many as it shows.
pub proof fn searches_by_name_find_the_name(
    s: NameSearchView,
    name: Seq<char>,
    stat: FileStat,
)
    requires
        file_name(s.os, stat.path@) is Some,
    ensures
        ({
            let t = s.after(name, Some(stat));
            let wanted = s.hits.len() < 500 && contains(lowercase(name), s.query);
            &&& t.query == s.query && t.os == s.os
            &&& !wanted ==> t.hits == s.hits
            &&& wanted ==> t.hits.drop_last() == s.hits && t.hits.len() == s.hits.len() + 1
                && t.hits.last().path == stat.path@
            &&& s.after(name, None).hits == s.hits
        }),
{
    let t = s.after(name, Some(stat));
    if t.hits.len() > s.hits.len() {
        assert(t.hits.drop_last() =~= s.hits);
    }
}

/// A file is handed out under the name that its path ends in, as what its extension says.
pub proof fn downloads_are_named(os: Platform, path: Seq<char>)
    ensures
        file_name(os, path) matches Some(n) ==> download_name(os, path) == n,
        file_name(os, path) is None ==> download_name(os, path) == "download"@,
        extension(os, path) matches Some(e) ==> content_type(os, path) == mime_of(e),
        extension(os, path) is None ==> content_type(os, path) == "application/octet-stream"@,
{
}

/// A file that is uploaded is stored under its own name, or under one that says what it is.
pub proof fn uploads_keep_their_names(name: String)
    ensures
        uploaded_name(Some(name)) == name@,
        uploaded_name(None) == "uploaded_file"@,
{
}

} // verus!
