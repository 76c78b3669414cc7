//! What a chat message carries besides its text.

use vstd::prelude::*;
use vstd::string::*;
use vstd::utf8::encode_utf8;

use crate::base64::{base64_bytes, decode};
use crate::json::{array_view, object_view, values, Json, JsonView};
use crate::path::{
    extension, extension_of, is_free, is_sep, is_verbatim, last_dot, lemma_last_dot, lemma_pieces,
    main_separator, pieces, separator, Platform,
};
use crate::text::{chars_of, replace_char, replaced, split, split_at_char, string_of, texts};
use crate::text::{decimal, lemma_decimal, slices, starts_with, text_view, write_number};

verus! {

/// A file that a chat message carries, delivered with its contents.
#[derive(Debug, PartialEq)]
pub struct ChatAttachmentInput {
    /// The name of the file.
    pub name: String,
    pub mime_type: Option<String>,
    /// The contents in Base64, perhaps behind a `data:...;base64,` prefix.
    pub base64: Option<String>,
    /// The contents of a text file.
    pub content: Option<String>,
}

/// What an attachment stands for.
pub struct AttachmentView {
    pub name: Seq<char>,
    pub mime_type: Option<Seq<char>>,
    pub base64: Option<Seq<char>>,
    pub content: Option<Seq<char>>,
}

impl View for ChatAttachmentInput {
    type V = AttachmentView;

    open spec fn view(&self) -> AttachmentView {
        AttachmentView {
            name: self.name@,
            mime_type: text_view(self.mime_type),
            base64: text_view(self.base64),
            content: text_view(self.content),
        }
    }
}

/// The views of a list of attachments.
pub open spec fn attachment_views(v: Seq<ChatAttachmentInput>) -> Seq<AttachmentView> {
    Seq::new(v.len(), |i: int| v[i]@)
}

/// A text that may be missing: absent and null mean that it is; anything else
/// than a text is no answer.
pub open spec fn maybe_text(v: Option<JsonView>) -> Option<Option<Seq<char>>> {
    match v {
        None => Some(None),
        Some(JsonView::Null) => Some(None),
        Some(JsonView::Str(s)) => Some(Some(s)),
        Some(_) => None,
    }
}

/// The item of a list, when there are that many.
pub open spec fn item(v: Seq<JsonView>, i: int) -> Option<JsonView> {
    if i < v.len() {
        Some(v[i])
    } else {
        None
    }
}

/// The attachment that has these four parts, when each is of the right kind.
pub open spec fn attachment_of(
    name: Option<JsonView>,
    mime_type: Option<JsonView>,
    base64: Option<JsonView>,
    content: Option<JsonView>,
) -> Option<AttachmentView> {
    match (name, maybe_text(mime_type), maybe_text(base64), maybe_text(content)) {
        (Some(JsonView::Str(n)), Some(m), Some(b), Some(c)) => Some(
            AttachmentView { name: n, mime_type: m, base64: b, content: c },
        ),
        _ => None,
    }
}

/// The attachment that a value describes: by the names of its parts, or as a
/// list of them in order.
pub open spec fn described_attachment(v: JsonView) -> Option<AttachmentView> {
    match v {
        JsonView::Object(_) => attachment_of(
            v.get("name"@),
            v.get("mimeType"@),
            v.get("base64"@),
            v.get("content"@),
        ),
        JsonView::Array(a) => if a.len() <= 4 {
            attachment_of(item(a, 0), item(a, 1), item(a, 2), item(a, 3))
        } else {
            None
        },
        _ => None,
    }
}

/// The attachments that a value describes, when it is a list of them.
pub open spec fn described_attachments(v: JsonView) -> Option<Seq<AttachmentView>> {
    match v {
        JsonView::Array(a) => if forall|i: int|
            0 <= i < a.len() ==> described_attachment(#[trigger] a[i]) is Some {
            Some(Seq::new(a.len(), |i: int| described_attachment(a[i])->0))
        } else {
            None
        },
        _ => None,
    }
}

/// The view of a value that may be missing.
pub open spec fn json_view(v: Option<&Json>) -> Option<JsonView> {
    match v {
        Some(j) => Some(j@),
        None => None,
    }
}

fn read_maybe_text(v: Option<&Json>) -> (r: Option<Option<String>>)
    ensures
        match r {
            Some(t) => maybe_text(json_view(v)) == Some(text_view(t)),
            None => maybe_text(json_view(v)) is None,
        },
{
    match v {
        None => Some(None),
        Some(Json::Null) => Some(None),
        Some(Json::Str(s)) => Some(Some(s.clone())),
        Some(_) => None,
    }
}

fn read_parts(
    name: Option<&Json>,
    mime_type: Option<&Json>,
    base64: Option<&Json>,
    content: Option<&Json>,
) -> (r: Option<ChatAttachmentInput>)
    ensures
        match r {
            Some(a) => attachment_of(
                json_view(name),
                json_view(mime_type),
                json_view(base64),
                json_view(content),
            ) == Some(a@),
            None => attachment_of(
                json_view(name),
                json_view(mime_type),
                json_view(base64),
                json_view(content),
            ) is None,
        },
{
    let m = read_maybe_text(mime_type);
    let b = read_maybe_text(base64);
    let c = read_maybe_text(content);
    match (name, m, b, c) {
        (Some(Json::Str(n)), Some(mime_type), Some(base64), Some(content)) => Some(
            ChatAttachmentInput { name: n.clone(), mime_type, base64, content },
        ),
        _ => None,
    }
}

fn item_of(v: &Vec<Json>, i: usize) -> (r: Option<&Json>)
    ensures
        json_view(r) == item(values(v@), i as int),
{
    if i < v.len() {
        Some(&v[i])
    } else {
        None
    }
}

/// The attachment that a value describes.
pub fn read_attachment(v: &Json) -> (r: Option<ChatAttachmentInput>)
    ensures
        match r {
            Some(a) => described_attachment(v@) == Some(a@),
            None => described_attachment(v@) is None,
        },
{
    match v {
        Json::Object(f) => {
            proof {
                object_view(*f);
            }
            read_parts(v.get("name"), v.get("mimeType"), v.get("base64"), v.get("content"))
        },
        Json::Array(a) => {
            proof {
                array_view(*a);
            }
            if a.len() <= 4 {
                read_parts(item_of(a, 0), item_of(a, 1), item_of(a, 2), item_of(a, 3))
            } else {
                None
            }
        },
        _ => None,
    }
}

/// The attachments that a value describes, when it is a list of them.
pub fn read_attachments(v: &Json) -> (r: Option<Vec<ChatAttachmentInput>>)
    ensures
        match r {
            Some(a) => described_attachments(v@) == Some(attachment_views(a@)),
            None => described_attachments(v@) is None,
        },
{
    match v {
        Json::Array(a) => {
            proof {
                array_view(*a);
            }
            let ghost all = values(a@);
            let mut out: Vec<ChatAttachmentInput> = Vec::new();
            let mut i: usize = 0;
            while i < a.len()
                invariant
                    i <= a@.len(),
                    all == values(a@),
                    v@ == JsonView::Array(all),
                    out@.len() == i,
                    forall|j: int|
                        0 <= j < i ==> described_attachment(#[trigger] all[j]) == Some(out@[j]@),
                decreases a@.len() - i,
            {
                assert(all[i as int] == a@[i as int]@);
                match read_attachment(&a[i]) {
                    Some(x) => {
                        out.push(x);
                    },
                    None => {
                        assert(described_attachment(all[i as int]) is None);
                        return None;
                    },
                }
                i += 1;
            }
            assert(attachment_views(out@) =~= Seq::new(
                all.len(),
                |j: int| described_attachment(all[j])->0,
            ));
            Some(out)
        },
        _ => None,
    }
}

/// A file to be written for an attachment.
#[derive(Debug, PartialEq)]
pub struct TempFile {
    /// The name of the attachment.
    pub attachment: String,
    /// The name of the file.
    pub name: String,
    pub data: Vec<u8>,
}

/// What a file stands for.
pub struct TempFileView {
    pub attachment: Seq<char>,
    pub name: Seq<char>,
    pub data: Seq<u8>,
}

impl View for TempFile {
    type V = TempFileView;

    open spec fn view(&self) -> TempFileView {
        TempFileView { attachment: self.attachment@, name: self.name@, data: self.data@ }
    }
}

/// The views of a list of files.
pub open spec fn file_views(v: Seq<TempFile>) -> Seq<TempFileView> {
    Seq::new(v.len(), |i: int| v[i]@)
}

/// The files to be written for some attachments.
#[derive(Debug, PartialEq)]
pub struct AttachmentPlan {
    pub files: Vec<TempFile>,
    /// Why no more can be written after those.
    pub error: Option<String>,
}

/// The extension with its dot, when there is one.
pub open spec fn dotted_extension(os: Platform, name: Seq<char>) -> Seq<char> {
    match extension(os, name) {
        Some(e) => "."@ + e,
        None => seq![],
    }
}

/// The name of the file for the attachment at `i`: unlike that of any other
/// attachment of the same message, and without a separator of paths.
pub open spec fn temp_name(name: Seq<char>, i: nat, pid: u32, os: Platform) -> Seq<char> {
    "noide-att-"@ + decimal(pid as nat) + "-"@ + decimal(i) + "-"@ + replaced(
        replaced(name, separator(os), '_'),
        '/',
        '_',
    ) + dotted_extension(os, name)
}

/// What follows the last comma of a text, or the whole text.
pub open spec fn after_commas(s: Seq<char>) -> Seq<char> {
    split(s, ',').last()
}

/// The contents of an attachment: none when it only refers to a file.
pub open spec fn contents(a: AttachmentView) -> Option<Result<Seq<u8>, Seq<char>>> {
    match a.base64 {
        Some(b) => Some(
            match base64_bytes(after_commas(b)) {
                Ok(bytes) => Ok(bytes),
                Err(e) => Err("Failed to decode attachment '"@ + a.name + "': "@ + e),
            },
        ),
        None => match a.content {
            Some(t) => Some(Ok(encode_utf8(t))),
            None => None,
        },
    }
}

/// The files to be written for the attachments before the one at `n`, and why
/// no more can be.
pub open spec fn planned(
    a: Seq<AttachmentView>,
    n: nat,
    pid: u32,
    os: Platform,
) -> (Seq<TempFileView>, Option<Seq<char>>)
    decreases n,
{
    if n == 0 {
        (seq![], None)
    } else {
        let i = (n - 1) as nat;
        let (files, error) = planned(a, i, pid, os);
        if error is Some {
            (files, error)
        } else {
            match contents(a[i as int]) {
                None => (files, None),
                Some(Err(e)) => (files, Some(e)),
                Some(Ok(data)) => (
                    files.push(
                        TempFileView {
                            attachment: a[i as int].name,
                            name: temp_name(a[i as int].name, i, pid, os),
                            data,
                        },
                    ),
                    None,
                ),
            }
        }
    }
}

/// An attachment that cannot be decoded ends the plan.
proof fn lemma_planned_error(
    a: Seq<AttachmentView>,
    n: nat,
    m: nat,
    pid: u32,
    os: Platform,
)
    requires
        n <= m,
        planned(a, n, pid, os).1 is Some,
    ensures
        planned(a, m, pid, os) == planned(a, n, pid, os),
    decreases m,
{
    if n < m {
        lemma_planned_error(a, n, (m - 1) as nat, pid, os);
    }
}

fn make_temp_name(name: &str, i: usize, pid: u32, os: Platform) -> (r: String)
    ensures
        r@ == temp_name(name@, i as nat, pid, os),
{
    let chars = chars_of(name);
    let mut out = "noide-att-".to_owned();
    out.append(write_number(pid as u64).as_str());
    out.append("-");
    out.append(write_number(i as u64).as_str());
    out.append("-");
    let once = replace_char(chars.as_slice(), main_separator(os), '_');
    let twice = replace_char(once.as_slice(), '/', '_');
    out.append(string_of(twice.as_slice()).as_str());
    let ghost front = out@;
    match extension_of(os, name) {
        Some(e) => {
            out.append(".");
            out.append(e.as_str());
            assert(out@ =~= front + ("."@ + e@));
        },
        None => {
            assert(out@ =~= front + seq![]);
        },
    }
    out
}

/// Decides which files are written for some attachments. One that cannot be
/// decoded ends the plan; what came before it is written all the same.
pub fn write_attachment_files(
    attachments: &Vec<ChatAttachmentInput>,
    pid: u32,
    os: Platform,
) -> (r: AttachmentPlan)
    ensures
        (file_views(r.files@), text_view(r.error)) == planned(
            attachment_views(attachments@),
            attachments@.len(),
            pid,
            os,
        ),
{
    let ghost all = attachment_views(attachments@);
    let mut files: Vec<TempFile> = Vec::new();
    let mut i: usize = 0;
    assert(file_views(files@) =~= seq![]);
    while i < attachments.len()
        invariant
            i <= attachments@.len(),
            all == attachment_views(attachments@),
            planned(all, i as nat, pid, os) == (file_views(files@), None::<Seq<char>>),
        decreases attachments@.len() - i,
    {
        let a = &attachments[i];
        assert(all[i as int] == a@);
        let mut data: Option<Vec<u8>> = None;
        match &a.base64 {
            Some(b) => {
                let chars = chars_of(b.as_str());
                let parts = split_at_char(chars.as_slice(), ',');
                let last = string_of(parts[parts.len() - 1]);
                assert(slices(parts@).last() == last@);
                match decode(last.as_str()) {
                    Ok(d) => {
                        data = Some(d);
                    },
                    Err(e) => {
                        let mut t = "Failed to decode attachment '".to_owned();
                        t.append(a.name.as_str());
                        t.append("': ");
                        t.append(e.as_str());
                        proof {
                            lemma_planned_error(
                                all,
                                (i + 1) as nat,
                                attachments@.len(),
                                pid,
                                os,
                            );
                        }
                        return AttachmentPlan { files, error: Some(t) };
                    },
                }
            },
            None => match &a.content {
                Some(t) => {
                    data = Some(t.as_str().as_bytes_vec());
                },
                None => {},
            },
        }
        match data {
            Some(d) => {
                let ghost before = file_views(files@);
                let f = TempFile {
                    attachment: a.name.clone(),
                    name: make_temp_name(a.name.as_str(), i, pid, os),
                    data: d,
                };
                files.push(f);
                assert(file_views(files@) =~= before.push(f@));
            },
            None => {},
        }
        i += 1;
    }
    AttachmentPlan { files, error: None }
}

/// The message for a file that could not be written.
pub fn write_failure(attachment: &str, e: &str) -> (r: String)
    ensures
        r@ == "Failed to write attachment '"@ + attachment@ + "': "@ + e@,
{
    let mut t = "Failed to write attachment '".to_owned();
    t.append(attachment);
    t.append("': ");
    t.append(e);
    t
}

/// The flags that hand files to an agent, each path behind its own flag.
pub open spec fn file_flags(paths: Seq<Seq<char>>) -> Seq<Seq<char>>
    decreases paths.len(),
{
    if paths.len() == 0 {
        seq![]
    } else {
        file_flags(paths.drop_last()).push("-f"@).push(paths.last())
    }
}

/// Appends the flags that hand files to an agent. They come after everything
/// else, so that the prompt is not taken for a file.
pub fn inject_attachment_args(args: &mut Vec<String>, attachment_paths: &Vec<String>)
    ensures
        texts(final(args)@) == texts(old(args)@) + file_flags(texts(attachment_paths@)),
{
    let ghost before = texts(args@);
    let ghost all = texts(attachment_paths@);
    let mut i: usize = 0;
    assert(before + file_flags(all.take(0)) =~= before);
    while i < attachment_paths.len()
        invariant
            i <= attachment_paths@.len(),
            all == texts(attachment_paths@),
            texts(args@) == before + file_flags(all.take(i as int)),
        decreases attachment_paths@.len() - i,
    {
        let ghost now = texts(args@);
        args.push("-f".to_owned());
        assert(texts(args@) =~= now.push("-f"@));
        let p = attachment_paths[i].clone();
        args.push(p);
        assert(texts(args@) =~= now.push("-f"@).push(p@));
        assert(all.take(i + 1).drop_last() =~= all.take(i as int));
        assert(texts(args@) =~= before + file_flags(all.take(i + 1)));
        i += 1;
    }
    assert(all.take(i as int) =~= all);
}

/// Tells whether the flags hand over a path as the file at `i`.
pub open spec fn flagged(flags: Seq<Seq<char>>, path: Seq<char>, i: int) -> bool {
    flags[2 * i] == "-f"@ && flags[2 * i + 1] == path
}

/// Whatever files are handed over, the arguments before them stay as they are,
/// and two more follow for each file.
pub proof fn files_follow_the_prompt(args: Seq<Seq<char>>, paths: Seq<Seq<char>>)
    ensures
        (args + file_flags(paths)).take(args.len() as int) == args,
        file_flags(paths).len() == 2 * paths.len(),
        forall|i: int|
            0 <= i < paths.len() ==> #[trigger] flagged(file_flags(paths), paths[i], i),
    decreases paths.len(),
{
    assert((args + file_flags(paths)).take(args.len() as int) =~= args);
    if paths.len() > 0 {
        files_follow_the_prompt(args, paths.drop_last());
        let front = file_flags(paths.drop_last());
        assert forall|i: int| 0 <= i < paths.len() implies #[trigger] flagged(
            file_flags(paths),
            paths[i],
            i,
        ) by {
            if i < paths.len() - 1 {
                assert(flagged(front, paths.drop_last()[i], i));
            }
        }
    }
}

/// The files of two attachments of a message do not collide: their names differ.
pub proof fn attachment_files_do_not_collide(
    a: Seq<char>,
    i: nat,
    b: Seq<char>,
    j: nat,
    pid: u32,
    os: Platform,
)
    requires
        i != j,
    ensures
        temp_name(a, i, pid, os) != temp_name(b, j, pid, os),
{
    let start = "noide-att-"@ + decimal(pid as nat) + "-"@;
    let x = temp_name(a, i, pid, os);
    let y = temp_name(b, j, pid, os);
    let di = decimal(i);
    let dj = decimal(j);
    let n = start.len() as int;
    lemma_decimal(i);
    lemma_decimal(j);
    reveal_strlit("-");
    assert(x.skip(n).take(di.len() as int) =~= di);
    assert(y.skip(n).take(dj.len() as int) =~= dj);
    assert(x[n + di.len()] == '-');
    assert(y[n + dj.len()] == '-');
    if x == y {
        if di.len() < dj.len() {
            assert(y[n + di.len()] == dj[di.len() as int]);
        } else if dj.len() < di.len() {
            assert(x[n + dj.len()] == di[dj.len() as int]);
        } else {
            assert(di =~= dj);
        }
    }
}

/// The name of the file for an attachment leads nowhere: it holds no separator.
/// On Windows that leaves out an attachment with a verbatim path for a name, of
/// which the extension may hold a `/`.
pub proof fn attachment_files_stay_in_place(name: Seq<char>, i: nat, pid: u32, os: Platform)
    requires
        !is_verbatim(os, name),
    ensures
        is_free(os, temp_name(name, i, pid, os)),
{
    reveal_strlit("noide-att-");
    reveal_strlit("-");
    reveal_strlit(".");
    lemma_decimal(i);
    lemma_decimal(pid as nat);
    lemma_pieces(os, name);
    let safe = replaced(replaced(name, separator(os), '_'), '/', '_');
    let start = "noide-att-"@ + decimal(pid as nat) + "-"@ + decimal(i) + "-"@;
    let ext = dotted_extension(os, name);
    assert(is_free(os, ext)) by {
        match extension(os, name) {
            Some(e) => {
                let p = pieces(os, name);
                let last = p[p.len() - 1];
                let d = last_dot(last, last.len() - 1);
                assert(is_free(os, last));
                lemma_last_dot(last, last.len() - 1);
                assert(e == last.skip(d + 1));
                assert("."@.len() == 1);
                assert forall|k: int| 0 <= k < ext.len() implies !is_sep(os, #[trigger] ext[k]) by {
                    if k > 0 {
                        assert(ext[k] == e[k - 1]);
                        assert(ext[k] == last[d + k]);
                    }
                }
            },
            None => {},
        }
    }
    let all = temp_name(name, i, pid, os);
    assert forall|k: int| 0 <= k < all.len() implies !is_sep(os, #[trigger] all[k]) by {
        if k < start.len() {
            assert(all[k] == start[k]);
        } else if k < start.len() + safe.len() {
            assert(all[k] == safe[k - start.len()]);
        } else {
            assert(all[k] == ext[k - start.len() - safe.len()]);
        }
    }
}

/// An attachment is read by the names of its parts, whatever else the value holds: only its
/// name has to be there, and each part has to be a text.
pub proof fn attachments_are_read_by_name(v: JsonView)
    requires
        v is Object,
    ensures
        match described_attachment(v) {
            Some(a) => {
                &&& v.get("name"@) == Some(JsonView::Str(a.name))
                &&& a.mime_type matches Some(t) ==> v.get("mimeType"@) == Some(JsonView::Str(t))
                &&& a.base64 matches Some(t) ==> v.get("base64"@) == Some(JsonView::Str(t))
                &&& a.content matches Some(t) ==> v.get("content"@) == Some(JsonView::Str(t))
                &&& a.mime_type is None ==> v.get("mimeType"@) is None || v.get("mimeType"@)
                    == Some(JsonView::Null)
                &&& a.base64 is None ==> v.get("base64"@) is None || v.get("base64"@) == Some(
                    JsonView::Null,
                )
                &&& a.content is None ==> v.get("content"@) is None || v.get("content"@) == Some(
                    JsonView::Null,
                )
            },
            None => {
                ||| !(v.get("name"@) matches Some(JsonView::Str(_)))
                ||| maybe_text(v.get("mimeType"@)) is None
                ||| maybe_text(v.get("base64"@)) is None
                ||| maybe_text(v.get("content"@)) is None
            },
        },
{
}

/// The contents of an attachment are what its text in Base64 stands for, after what comes
/// before its last comma, or else its plain text; one with neither has none.
pub proof fn contents_are_taken_as_given(
    a: AttachmentView,
    front: Seq<char>,
    text: Seq<char>,
    bytes: Seq<u8>,
)
    requires
        !text.contains(','),
        base64_bytes(text) == Ok::<Seq<u8>, Seq<char>>(bytes),
    ensures
        a.base64 == Some(front.push(',') + text) ==> contents(a) == Some(
            Ok::<Seq<u8>, Seq<char>>(bytes),
        ),
        a.base64 == Some(text) ==> contents(a) == Some(Ok::<Seq<u8>, Seq<char>>(bytes)),
        a.base64 is None && a.content is None ==> contents(a) is None,
        a.base64 is None ==> (a.content matches Some(t) ==> contents(a) == Some(
            Ok::<Seq<u8>, Seq<char>>(encode_utf8(t)),
        )),
{
    crate::text::lemma_split_last(front, text, ',');
    crate::text::lemma_position(text, ',');
}

/// Every attachment with contents gets a file with just those, in the order of the attachments,
/// until one cannot be read.
pub proof fn attachments_get_their_files(
    a: Seq<AttachmentView>,
    n: nat,
    pid: u32,
    os: Platform,
)
    requires
        0 < n <= a.len(),
        planned(a, (n - 1) as nat, pid, os).1 is None,
    ensures
        ({
            let before = planned(a, (n - 1) as nat, pid, os).0;
            let (files, error) = planned(a, n, pid, os);
            match contents(a[n - 1]) {
                None => files == before && error is None,
                Some(Err(e)) => files == before && error == Some(e),
                Some(Ok(data)) => {
                    &&& error is None
                    &&& files.len() == before.len() + 1
                    &&& files.drop_last() == before
                    &&& files.last().attachment == a[n - 1].name
                    &&& files.last().data == data
                    &&& starts_with(
                        files.last().name,
                        "noide-att-"@ + decimal(pid as nat) + "-"@ + decimal((n - 1) as nat) + "-"@,
                    )
                },
            }
        }),
{
    let before = planned(a, (n - 1) as nat, pid, os).0;
    let files = planned(a, n, pid, os).0;
    if files.len() > before.len() {
        assert(files.drop_last() =~= before);
        let start = "noide-att-"@ + decimal(pid as nat) + "-"@ + decimal((n - 1) as nat) + "-"@;
        assert(files.last().name.take(start.len() as int) =~= start);
    }
}

/// An attachment may also be a list of its parts, in the order of name, type, Base64 and text;
/// the last ones may be left out.
pub proof fn attachments_are_read_in_order(a: Seq<JsonView>, n: Seq<char>)
    ensures
        described_attachment(JsonView::Array(a)) matches Some(x) ==> {
            &&& 1 <= a.len() <= 4
            &&& a[0] == JsonView::Str(x.name)
            &&& x.mime_type matches Some(t) ==> a.len() > 1 && a[1] == JsonView::Str(t)
            &&& x.base64 matches Some(t) ==> a.len() > 2 && a[2] == JsonView::Str(t)
            &&& x.content matches Some(t) ==> a.len() > 3 && a[3] == JsonView::Str(t)
        },
        described_attachment(JsonView::Array(seq![JsonView::Str(n)])) matches Some(x) && x.name == n
            && x.mime_type is None && x.base64 is None && x.content is None,
{
}

} // verus!
