//! Changing files and directories.

use vstd::prelude::*;
use vstd::string::*;
use vstd::utf8::encode_utf8;

use crate::base64::{base64_bytes, base64_text, decode, encode, stands_for};
use crate::path::{join, join_path, Platform};
use crate::text::cat2;

verus! {

/// Something that is done to files.
#[derive(Debug, PartialEq)]
pub enum FsStep {
    /// Make a directory, with all above it.
    MakeDir(String),
    /// Make the directory that something lies in, with all above it.
    MakeParent(String),
    Write { path: String, bytes: Vec<u8> },
    Rename { from: String, to: String },
    /// Copy something with all that is in it.
    CopyTree { from: String, to: String },
    CopyFile { from: String, to: String },
    /// Delete a directory with all that is in it.
    RemoveTree(String),
    RemoveFile(String),
}

/// What a step stands for.
pub enum FsStepView {
    MakeDir(Seq<char>),
    MakeParent(Seq<char>),
    Write { path: Seq<char>, bytes: Seq<u8> },
    Rename { from: Seq<char>, to: Seq<char> },
    CopyTree { from: Seq<char>, to: Seq<char> },
    CopyFile { from: Seq<char>, to: Seq<char> },
    RemoveTree(Seq<char>),
    RemoveFile(Seq<char>),
}

impl View for FsStep {
    type V = FsStepView;

    open spec fn view(&self) -> FsStepView {
        match self {
            FsStep::MakeDir(p) => FsStepView::MakeDir(p@),
            FsStep::MakeParent(p) => FsStepView::MakeParent(p@),
            FsStep::Write { path, bytes } => FsStepView::Write { path: path@, bytes: bytes@ },
            FsStep::Rename { from, to } => FsStepView::Rename { from: from@, to: to@ },
            FsStep::CopyTree { from, to } => FsStepView::CopyTree { from: from@, to: to@ },
            FsStep::CopyFile { from, to } => FsStepView::CopyFile { from: from@, to: to@ },
            FsStep::RemoveTree(p) => FsStepView::RemoveTree(p@),
            FsStep::RemoveFile(p) => FsStepView::RemoveFile(p@),
        }
    }
}

/// A step, and what is said before its error when it fails.
#[derive(Debug, PartialEq)]
pub struct Step {
    pub act: FsStep,
    pub fault: String,
}

/// What a step with its fault stands for.
pub type StepView = (FsStepView, Seq<char>);

impl View for Step {
    type V = StepView;

    open spec fn view(&self) -> StepView {
        (self.act@, self.fault@)
    }
}

/// The views of a list of steps.
pub open spec fn step_views(v: Seq<Step>) -> Seq<StepView> {
    Seq::new(v.len(), |i: int| v[i]@)
}

/// The view of a list of steps or of a refusal.
pub open spec fn plan_view(r: Result<Vec<Step>, String>) -> Result<Seq<StepView>, Seq<char>> {
    match r {
        Ok(v) => Ok(step_views(v@)),
        Err(e) => Err(e@),
    }
}

/// No steps.
pub open spec fn no_steps() -> Seq<StepView> {
    Seq::empty()
}

/// A list of steps that is being put together.
pub struct Steps {
    list: Vec<Step>,
}

impl Steps {
    /// The steps so far.
    pub closed spec fn value(&self) -> Seq<StepView> {
        step_views(self.list@)
    }

    /// No steps yet.
    pub fn new() -> (r: Self)
        ensures
            r.value() == no_steps(),
    {
        let r = Steps { list: Vec::new() };
        assert(r.value() =~= no_steps());
        r
    }

    /// The list with one more step.
    pub fn and(self, act: FsStep, fault: &str) -> (r: Self)
        ensures
            r.value() == self.value().push((act@, fault@)),
    {
        let ghost before = self.value();
        let mut list = self.list;
        list.push(Step { act, fault: fault.to_owned() });
        let r = Steps { list };
        assert(r.value() =~= before.push((act@, fault@)));
        r
    }

    /// The steps.
    pub fn list(self) -> (r: Vec<Step>)
        ensures
            step_views(r@) == self.value(),
    {
        self.list
    }
}

/// What is said when a step fails.
pub fn step_failure(fault: &str, e: &str) -> (r: String)
    ensures
        r@ == fault@ + e@,
{
    cat2(fault, e)
}

/// Makes a file that is not there yet.
pub fn create_file(path: &str, content: &str, exists: bool) -> (r: Result<Vec<Step>, String>)
    ensures
        plan_view(r) == (if exists {
            Err("File already exists"@)
        } else {
            Ok(
                no_steps().push(
                    (FsStepView::MakeParent(path@), "Failed to create parent dir: "@),
                ).push(
                    (
                        FsStepView::Write { path: path@, bytes: encode_utf8(content@) },
                        "Failed to write file: "@,
                    ),
                ),
            )
        }),
{
    if exists {
        return Err("File already exists".to_owned());
    }
    let write = FsStep::Write { path: path.to_owned(), bytes: content.as_bytes_vec() };
    Ok(
        Steps::new().and(
            FsStep::MakeParent(path.to_owned()),
            "Failed to create parent dir: ",
        ).and(write, "Failed to write file: ").list,
    )
}

/// Makes a directory that is not there yet.
pub fn create_directory(path: &str, exists: bool) -> (r: Result<Vec<Step>, String>)
    ensures
        plan_view(r) == (if exists {
            Err("Folder already exists"@)
        } else {
            Ok(
                no_steps().push(
                    (FsStepView::MakeDir(path@), "Failed to create folder: "@),
                ),
            )
        }),
{
    if exists {
        return Err("Folder already exists".to_owned());
    }
    Ok(
        Steps::new().and(FsStep::MakeDir(path.to_owned()), "Failed to create folder: ").list,
    )
}

/// Gives something another name that is not taken.
pub fn rename_entry(from: &str, to: &str, from_exists: bool, to_exists: bool) -> (r: Result<
    Vec<Step>,
    String,
>)
    ensures
        plan_view(r) == (if !from_exists {
            Err("Source does not exist"@)
        } else if to_exists {
            Err("Target already exists"@)
        } else {
            Ok(
                no_steps().push(
                    (FsStepView::MakeParent(to@), "Failed to create parent dir: "@),
                ).push(
                    (FsStepView::Rename { from: from@, to: to@ }, "Rename failed: "@),
                ),
            )
        }),
{
    if !from_exists {
        return Err("Source does not exist".to_owned());
    }
    if to_exists {
        return Err("Target already exists".to_owned());
    }
    let rename = FsStep::Rename { from: from.to_owned(), to: to.to_owned() };
    Ok(
        Steps::new().and(
            FsStep::MakeParent(to.to_owned()),
            "Failed to create parent dir: ",
        ).and(rename, "Rename failed: ").list,
    )
}

/// Copies something to a place that is not taken.
pub fn copy_entry(from: &str, to: &str, from_exists: bool, to_exists: bool) -> (r: Result<
    Vec<Step>,
    String,
>)
    ensures
        plan_view(r) == (if !from_exists {
            Err("Source does not exist"@)
        } else if to_exists {
            Err("Target already exists"@)
        } else {
            Ok(
                no_steps().push(
                    (FsStepView::CopyTree { from: from@, to: to@ }, "Copy failed: "@),
                ),
            )
        }),
{
    if !from_exists {
        return Err("Source does not exist".to_owned());
    }
    if to_exists {
        return Err("Target already exists".to_owned());
    }
    let copy = FsStep::CopyTree { from: from.to_owned(), to: to.to_owned() };
    Ok(Steps::new().and(copy, "Copy failed: ").list)
}

/// The copies that make up the copy of a directory, for the first `n` names in
/// it.
pub open spec fn child_copies(
    os: Platform,
    from: Seq<char>,
    to: Seq<char>,
    names: Seq<Seq<char>>,
    n: nat,
) -> Seq<StepView>
    decreases n,
{
    if n == 0 {
        no_steps().push((FsStepView::MakeDir(to), Seq::<char>::empty()))
    } else {
        child_copies(os, from, to, names, (n - 1) as nat).push(
            (
                FsStepView::CopyTree {
                    from: join(os, from, names[n - 1]),
                    to: join(os, to, names[n - 1]),
                },
                Seq::<char>::empty(),
            ),
        )
    }
}

/// What copying something comes to: a directory is made and everything in it is
/// copied in turn, a file is copied into a directory that is there.
pub fn copy_recursive(
    os: Platform,
    from: &str,
    to: &str,
    is_dir: bool,
    names: &Vec<String>,
) -> (r: Vec<Step>)
    ensures
        step_views(r@) == (if is_dir {
            child_copies(os, from@, to@, crate::text::texts(names@), names@.len())
        } else {
            no_steps().push((FsStepView::MakeParent(to@), Seq::<char>::empty())).push(
                (FsStepView::CopyFile { from: from@, to: to@ }, Seq::<char>::empty()),
            )
        }),
{
    proof {
        reveal_strlit("");
        assert(""@ =~= Seq::<char>::empty());
    }
    if is_dir {
        let ghost all = crate::text::texts(names@);
        let mut steps = Steps::new().and(FsStep::MakeDir(to.to_owned()), "");
        let mut i: usize = 0;
        while i < names.len()
            invariant
                i <= names@.len(),
                all == crate::text::texts(names@),
                ""@ == Seq::<char>::empty(),
                steps.value() == child_copies(os, from@, to@, all, i as nat),
            decreases names@.len() - i,
        {
            let name = names[i].as_str();
            assert(all[i as int] == name@);
            let copy = FsStep::CopyTree {
                from: join_path(os, from, name),
                to: join_path(os, to, name),
            };
            steps = steps.and(copy, "");
            i += 1;
        }
        steps.list
    } else {
        let copy = FsStep::CopyFile { from: from.to_owned(), to: to.to_owned() };
        Steps::new().and(FsStep::MakeParent(to.to_owned()), "").and(copy, "").list
    }
}

/// Deletes something that is there.
pub fn delete_entry(path: &str, exists: bool, is_dir: bool) -> (r: Result<Vec<Step>, String>)
    ensures
        plan_view(r) == (if !exists {
            Err("Path does not exist"@)
        } else if is_dir {
            Ok(no_steps().push((FsStepView::RemoveTree(path@), "Delete failed: "@)))
        } else {
            Ok(no_steps().push((FsStepView::RemoveFile(path@), "Delete failed: "@)))
        }),
{
    if !exists {
        return Err("Path does not exist".to_owned());
    }
    let act = if is_dir {
        FsStep::RemoveTree(path.to_owned())
    } else {
        FsStep::RemoveFile(path.to_owned())
    };
    Ok(Steps::new().and(act, "Delete failed: ").list)
}

/// The steps that write a file.
pub open spec fn write_steps(path: Seq<char>, bytes: Seq<u8>) -> Seq<StepView> {
    no_steps().push((FsStepView::MakeParent(path), "Failed to create directory: "@)).push(
        (FsStepView::Write { path, bytes }, "Failed to write file: "@),
    )
}

fn writing(path: &str, bytes: Vec<u8>) -> (r: Vec<Step>)
    ensures
        step_views(r@) == write_steps(path@, bytes@),
{
    let write = FsStep::Write { path: path.to_owned(), bytes };
    Steps::new().and(
        FsStep::MakeParent(path.to_owned()),
        "Failed to create directory: ",
    ).and(write, "Failed to write file: ").list
}

/// Writes a text to a file.
pub fn write_file(path: &str, content: &str) -> (r: Vec<Step>)
    ensures
        step_views(r@) == write_steps(path@, encode_utf8(content@)),
{
    writing(path, content.as_bytes_vec())
}

/// What an upload comes to.
pub open spec fn upload_plan(path: Seq<char>, content: Seq<char>) -> Result<
    Seq<StepView>,
    Seq<char>,
> {
    match base64_bytes(content) {
        Ok(bytes) => Ok(write_steps(path, bytes)),
        Err(e) => Err("Invalid base64: "@ + e),
    }
}

/// Writes what a text in Base64 stands for to a file.
pub fn upload_file(path: &str, content: &str) -> (r: Result<Vec<Step>, String>)
    ensures
        plan_view(r) == upload_plan(path@, content@),
{
    match decode(content) {
        Ok(bytes) => Ok(writing(path, bytes)),
        Err(e) => Err(cat2("Invalid base64: ", e.as_str())),
    }
}

/// The contents of a file, or why they cannot be read.
pub fn read_file(content: Result<String, String>) -> (r: Result<String, String>)
    ensures
        match content {
            Ok(t) => r matches Ok(u) && u@ == t@,
            Err(e) => r matches Err(u) && u@ == "Failed to read file: "@ + e@,
        },
{
    match content {
        Ok(t) => Ok(t),
        Err(e) => Err(cat2("Failed to read file: ", e.as_str())),
    }
}

/// The contents of a file in Base64, or why they cannot be read.
pub fn read_file_base64(bytes: Result<Vec<u8>, String>) -> (r: Result<String, String>)
    ensures
        match bytes {
            Ok(b) => r matches Ok(t) && t@ == base64_text(b@) && stands_for(t@, b@),
            Err(e) => r matches Err(t) && t@ == "Failed to read file: "@ + e@,
        },
{
    match bytes {
        Ok(b) => Ok(encode(b.as_slice())),
        Err(e) => Err(cat2("Failed to read file: ", e.as_str())),
    }
}

/// A file for download in Base64, or why it cannot be read.
pub fn download_file(bytes: Result<Vec<u8>, String>) -> (r: Result<String, String>)
    ensures
        match bytes {
            Ok(b) => r matches Ok(t) && t@ == base64_text(b@) && stands_for(t@, b@),
            Err(e) => r matches Err(t) && t@ == "Failed to read file for download: "@ + e@,
        },
{
    match bytes {
        Ok(b) => Ok(encode(b.as_slice())),
        Err(e) => Err(cat2("Failed to read file for download: ", e.as_str())),
    }
}

/// Uploading what a download gave writes the same bytes.
pub proof fn upload_writes_what_was_downloaded(path: Seq<char>, text: Seq<char>, bytes: Seq<u8>)
    requires
        stands_for(text, bytes),
    ensures
        upload_plan(path, text) == Ok::<Seq<StepView>, Seq<char>>(write_steps(path, bytes)),
{
}

/// The directory in which the server works, or why it cannot be told.
pub fn get_cwd(dir: Result<String, String>) -> (r: Result<String, String>)
    ensures
        match dir {
            Ok(t) => r matches Ok(u) && u@ == t@,
            Err(e) => r matches Err(u) && u@ == "Failed to get cwd: "@ + e@,
        },
{
    match dir {
        Ok(t) => Ok(t),
        Err(e) => Err(cat2("Failed to get cwd: ", e.as_str())),
    }
}

/// A directory is copied by making the one it goes to first and then copying all that is in it,
/// each under its own name from the one to the other.
pub proof fn directories_are_copied_name_by_name(
    os: Platform,
    from: Seq<char>,
    to: Seq<char>,
    names: Seq<Seq<char>>,
    n: nat,
    i: int,
)
    requires
        n <= names.len(),
        0 <= i < n,
    ensures
        ({
            let steps = child_copies(os, from, to, names, n);
            &&& steps.len() == n + 1
            &&& steps[0].0 == FsStepView::MakeDir(to)
            &&& steps[i + 1].0 == (FsStepView::CopyTree {
                from: join(os, from, names[i]),
                to: join(os, to, names[i]),
            })
        }),
    decreases n,
{
    if n > 1 {
        let k = if i < n - 1 {
            i
        } else {
            0
        };
        directories_are_copied_name_by_name(os, from, to, names, (n - 1) as nat, k);
    } else {
        assert(child_copies(os, from, to, names, 0).len() == 1);
    }
}

/// A file is written by making the directory around it first; then its bytes are all that is
/// written, and to its own path.
pub proof fn files_are_written_to_their_path(path: Seq<char>, bytes: Seq<u8>)
    ensures
        write_steps(path, bytes).len() == 2,
        write_steps(path, bytes)[0].0 == FsStepView::MakeParent(path),
        write_steps(path, bytes)[1].0 == (FsStepView::Write { path, bytes }),
{
}

/// An upload that does not stand for any bytes is refused for the reason that the decoder
/// gives, and writes nothing.
pub proof fn broken_uploads_are_refused(path: Seq<char>, content: Seq<char>)
    ensures
        upload_plan(path, content) is Ok <==> base64_bytes(content) is Ok,
        base64_bytes(content) matches Err(e) ==> upload_plan(path, content) == Err::<
            Seq<StepView>,
            Seq<char>,
        >("Invalid base64: "@ + e),
{
}

} // verus!
