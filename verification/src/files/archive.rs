//! Unpacking archives.

use vstd::prelude::*;
use vstd::slice::slice_subrange;
use vstd::string::*;

use crate::base64::{base64_bytes, decode};
use crate::path::{
    all_plain, extend_by_names, extended, has_root, is_name, is_plain, is_sep, join, join_path,
    lemma_extended_names, lemma_names_are_kept, lemma_names_lead_down, main_separator, names_in,
    pieces, prefix, separator, Platform,
};
use crate::text::{
    cat2, chars_of, copy_texts, joined, lemma_position, position, position_of, replace_char,
    replaced, text_view, texts,
};

verus! {

/// A reader over bytes in memory.
#[verifier::external_type_specification]
#[verifier::external_body]
#[verifier::reject_recursive_types(T)]
pub struct ExCursor<T>(std::io::Cursor<T>);

/// A ZIP archive.
#[verifier::external_type_specification]
#[verifier::external_body]
#[verifier::reject_recursive_types(R)]
pub struct ExZipArchive<R>(zip::ZipArchive<R>);

/// The entries of an archive: the name, whether it is a directory, the bytes
/// that can be read and what is wrong with the rest, or why the entry cannot be
/// opened.
pub uninterp spec fn zip_entries(a: zip::ZipArchive<std::io::Cursor<Vec<u8>>>) -> Seq<
    Result<(Seq<char>, bool, Seq<u8>, Option<Seq<char>>), Seq<char>>,
>;

/// The archive that some bytes hold, or what is wrong with them.
pub uninterp spec fn archive_in(bytes: Seq<u8>) -> Result<
    zip::ZipArchive<std::io::Cursor<Vec<u8>>>,
    Seq<char>,
>;

/// The view of an archive or of an error.
pub open spec fn archive_view(
    r: Result<zip::ZipArchive<std::io::Cursor<Vec<u8>>>, String>,
) -> Result<zip::ZipArchive<std::io::Cursor<Vec<u8>>>, Seq<char>> {
    match r {
        Ok(a) => Ok(a),
        Err(e) => Err(e@),
    }
}

/// `zip::ZipArchive::new` on bytes in memory: the archive, or the message of the
/// error, depends on the bytes alone. The format is left unsaid.
#[verifier::external_body]
fn open_archive(bytes: Vec<u8>) -> (r: Result<
    zip::ZipArchive<std::io::Cursor<Vec<u8>>>,
    String,
>)
    ensures
        archive_view(r) == archive_in(bytes@),
{
    zip::ZipArchive::new(std::io::Cursor::new(bytes)).map_err(|e| e.to_string())
}

/// `zip::ZipArchive::len`: how many entries an archive has.
#[verifier::external_body]
fn archive_len(a: &zip::ZipArchive<std::io::Cursor<Vec<u8>>>) -> (r: usize)
    ensures
        r == zip_entries(*a).len(),
{
    a.len()
}

/// An entry of an archive.
struct ZipItem {
    name: String,
    is_dir: bool,
    data: Vec<u8>,
    fault: Option<String>,
}

/// The view of an entry or of an error.
spec fn item_view(r: Result<ZipItem, String>) -> Result<
    (Seq<char>, bool, Seq<u8>, Option<Seq<char>>),
    Seq<char>,
> {
    match r {
        Ok(x) => Ok((x.name@, x.is_dir, x.data@, text_view(x.fault))),
        Err(e) => Err(e@),
    }
}

/// The separator that a system does not write.
pub open spec fn other_separator(os: Platform) -> char {
    match os {
        Platform::Unix => '\\',
        Platform::Windows => '/',
    }
}

/// The name of an entry as far as it is read, with the separators of a system.
/// An archive may hold either separator.
pub open spec fn told_name(os: Platform, name: Seq<char>) -> Seq<char> {
    replaced(name.take(position(name, '\0')), other_separator(os), separator(os))
}

/// Where an entry goes below the directory to which an archive is unpacked: what
/// its name begins with and what leads up is passed over.
pub open spec fn entry_path(os: Platform, name: Seq<char>) -> Seq<char> {
    extended(os, Seq::empty(), names_in(os, told_name(os, name)))
}

fn find_entry_path(os: Platform, name: &str) -> (r: String)
    ensures
        r@ == entry_path(os, name@),
{
    let chars = chars_of(name);
    let n = position_of(chars.as_slice(), '\0');
    let read = slice_subrange(chars.as_slice(), 0, n);
    assert(read@ =~= name@.take(n as int));
    let other = match os {
        Platform::Unix => '\\',
        Platform::Windows => '/',
    };
    let told = replace_char(read, other, main_separator(os));
    let start = String::new();
    assert(start@ =~= Seq::<char>::empty());
    extend_by_names(os, start, told.as_slice())
}

/// Tells whether a path stays below the place from which it is taken.
pub open spec fn stays_below(os: Platform, path: Seq<char>) -> bool {
    prefix(os, path) is None && !has_root(os, path) && !pieces(os, path).contains(seq!['.', '.'])
}

/// What is unpacked stays below the directory to which the archive is unpacked:
/// its path is taken from there and leads nowhere up. On Windows that leaves out
/// an entry with a name in its path that begins as a drive does.
pub proof fn entries_stay_below(os: Platform, name: Seq<char>)
    requires
        forall|i: int|
            0 <= i < names_in(os, told_name(os, name)).len() ==> prefix(
                os,
                #[trigger] names_in(os, told_name(os, name))[i],
            ) is None,
    ensures
        stays_below(os, entry_path(os, name)),
{
    let told = told_name(os, name);
    let ps = names_in(os, told);
    lemma_position(name, '\0');
    assert(os == Platform::Windows ==> !told.contains('/'));
    lemma_names_are_kept(os, told);
    assert forall|i: int| 0 <= i < ps.len() implies is_plain(os, #[trigger] ps[i]) by {
        assert(is_name(ps[i]));
    }
    lemma_names_lead_down(os, ps);
    assert forall|i: int| 0 <= i < ps.len() implies #[trigger] ps[i] != seq!['.', '.'] by {
        assert(is_name(ps[i]));
    }
}

/// `zip::ZipArchive::by_index`, with `name`, `is_dir` and the bytes of the entry:
/// what is at the index in the archive, which stays as it is.
#[verifier::external_body]
fn entry_at(a: &mut zip::ZipArchive<std::io::Cursor<Vec<u8>>>, i: usize) -> (r: Result<
    ZipItem,
    String,
>)
    requires
        i < zip_entries(*old(a)).len(),
    ensures
        zip_entries(*final(a)) == zip_entries(*old(a)),
        item_view(r) == zip_entries(*old(a))[i as int],
{
    let mut entry = a.by_index(i).map_err(|e| e.to_string())?;
    let name = entry.name().to_owned();
    let is_dir = entry.is_dir();
    let mut data = Vec::new();
    let fault = std::io::Read::read_to_end(&mut entry, &mut data).err().map(|e| e.to_string());
    Ok(ZipItem { name, is_dir, data, fault })
}

/// An archive that is being unpacked.
pub struct Unpacking {
    os: Platform,
    archive: zip::ZipArchive<std::io::Cursor<Vec<u8>>>,
    dest: String,
    begun: bool,
    at: usize,
    extracted: Vec<String>,
    pending: Option<(String, Option<String>)>,
}

/// What an archive that is being unpacked stands for.
#[verifier::ext_equal]
pub struct UnpackingView {
    pub os: Platform,
    pub entries: Seq<Result<(Seq<char>, bool, Seq<u8>, Option<Seq<char>>), Seq<char>>>,
    pub dest: Seq<char>,
    /// Whether the directory to which the archive is unpacked was asked for.
    pub begun: bool,
    /// The entry that comes next.
    pub at: int,
    /// The paths of the entries that were unpacked.
    pub extracted: Seq<Seq<char>>,
    /// The path of the entry that is being unpacked, and why it cannot be read to
    /// its end.
    pub pending: Option<(Seq<char>, Option<Seq<char>>)>,
}

impl View for Unpacking {
    type V = UnpackingView;

    closed spec fn view(&self) -> UnpackingView {
        UnpackingView {
            os: self.os,
            entries: zip_entries(self.archive),
            dest: self.dest@,
            begun: self.begun,
            at: self.at as int,
            extracted: texts(self.extracted@),
            pending: match self.pending {
                Some(p) => Some((p.0@, text_view(p.1))),
                None => None,
            },
        }
    }
}

/// What is to be done for an entry.
#[derive(Debug, PartialEq)]
pub enum Unpack {
    /// Make a directory.
    Dir(String),
    /// Make the directory that the file lies in, then the file with these bytes;
    /// after them comes the error, when there is one.
    File { path: String, data: Vec<u8>, fault: Option<String> },
}

/// What is to be done stands for.
pub enum UnpackView {
    Dir(Seq<char>),
    File { path: Seq<char>, data: Seq<u8>, fault: Option<Seq<char>> },
}

impl View for Unpack {
    type V = UnpackView;

    open spec fn view(&self) -> UnpackView {
        match self {
            Unpack::Dir(p) => UnpackView::Dir(p@),
            Unpack::File { path, data, fault } => UnpackView::File {
                path: path@,
                data: data@,
                fault: text_view(*fault),
            },
        }
    }
}

/// The view of what is to be done or of an error.
pub open spec fn unpack_view(r: Result<Unpack, String>) -> Result<UnpackView, Seq<char>> {
    match r {
        Ok(u) => Ok(u@),
        Err(e) => Err(e@),
    }
}

/// The path of something that is to be done.
pub open spec fn unpack_path(u: UnpackView) -> Seq<char> {
    match u {
        UnpackView::Dir(p) => p,
        UnpackView::File { path, data, fault } => path,
    }
}

/// Why something that is to be done ends unpacking after it.
pub open spec fn unpack_fault(u: UnpackView) -> Option<Seq<char>> {
    match u {
        UnpackView::Dir(_) => None,
        UnpackView::File { path, data, fault } => fault,
    }
}

/// What is to be done next in order to unpack an archive.
#[derive(Debug, PartialEq)]
pub enum UnpackAction {
    /// Make the directory to which the archive is unpacked.
    MakeDest(String),
    Unpack(Unpack),
    /// The paths of what was in the archive, or why it was not unpacked.
    Done(Result<Vec<String>, String>),
}

/// What is to be done next stands for.
pub enum UnpackActionView {
    MakeDest(Seq<char>),
    Unpack(UnpackView),
    Done(Result<Seq<Seq<char>>, Seq<char>>),
}

impl View for UnpackAction {
    type V = UnpackActionView;

    open spec fn view(&self) -> UnpackActionView {
        match self {
            UnpackAction::MakeDest(p) => UnpackActionView::MakeDest(p@),
            UnpackAction::Unpack(u) => UnpackActionView::Unpack(u@),
            UnpackAction::Done(Ok(v)) => UnpackActionView::Done(Ok(texts(v@))),
            UnpackAction::Done(Err(e)) => UnpackActionView::Done(Err(e@)),
        }
    }
}

impl UnpackingView {
    /// What is to be done for the entry at an index.
    pub open spec fn unpacked(self, i: int) -> Result<UnpackView, Seq<char>> {
        match self.entries[i] {
            Err(e) => Err("Failed to read zip entry: "@ + e),
            Ok(x) => {
                let path = join(self.os, self.dest, entry_path(self.os, x.0));
                if x.1 {
                    Ok(UnpackView::Dir(path))
                } else {
                    Ok(
                        UnpackView::File {
                            path,
                            data: x.2,
                            fault: match x.3 {
                                Some(e) => Some("Failed to write file: "@ + e),
                                None => None,
                            },
                        },
                    )
                }
            },
        }
    }

    /// The state once the entry that was being unpacked is.
    pub open spec fn settled(self) -> UnpackingView {
        match self.pending {
            Some(p) => UnpackingView {
                extracted: self.extracted.push(p.0),
                pending: None,
                ..self
            },
            None => self,
        }
    }

    /// Why the entry that is being unpacked cannot be read to its end.
    pub open spec fn broken_off(self) -> Option<Seq<char>> {
        match self.pending {
            Some(p) => p.1,
            None => None,
        }
    }

    /// What is to be done next when nothing failed, and the state then.
    pub open spec fn next(self) -> (UnpackingView, UnpackActionView) {
        if !self.begun {
            (UnpackingView { begun: true, ..self }, UnpackActionView::MakeDest(self.dest))
        } else if self.broken_off() is Some {
            (self, UnpackActionView::Done(Err(self.broken_off()->0)))
        } else if self.at < self.entries.len() {
            match self.unpacked(self.at) {
                Err(e) => (self.settled(), UnpackActionView::Done(Err(e))),
                Ok(u) => (
                    UnpackingView {
                        at: self.at + 1,
                        pending: Some((unpack_path(u), unpack_fault(u))),
                        ..self.settled()
                    },
                    UnpackActionView::Unpack(u),
                ),
            }
        } else {
            (self.settled(), UnpackActionView::Done(Ok(self.settled().extracted)))
        }
    }

    /// The paths of the first `n` entries.
    pub open spec fn paths(self, n: int) -> Seq<Seq<char>> {
        Seq::new(
            n as nat,
            |i: int| join(self.os, self.dest, entry_path(self.os, self.entries[i]->Ok_0.0)),
        )
    }

    /// Tells whether the paths of the entries before the next one are known.
    pub open spec fn keeps_count(self) -> bool {
        &&& 0 <= self.at <= self.entries.len()
        &&& self.settled().extracted == self.paths(self.at)
    }
}

/// Begins to unpack an archive that a text in Base64 stands for.
pub fn extract_zip(os: Platform, content: &str, dest_dir: &str) -> (r: Result<
    Unpacking,
    String,
>)
    ensures
        match base64_bytes(content@) {
            Err(e) => r matches Err(t) && t@ == "Invalid base64: "@ + e,
            Ok(bytes) => match archive_in(bytes) {
                Err(e) => r matches Err(t) && t@ == "Failed to open zip: "@ + e,
                Ok(a) => r matches Ok(u) && u@ == (UnpackingView {
                    os,
                    entries: zip_entries(a),
                    dest: dest_dir@,
                    begun: false,
                    at: 0,
                    extracted: Seq::empty(),
                    pending: None,
                }),
            },
        },
        r matches Ok(u) ==> u@.keeps_count(),
{
    match decode(content) {
        Err(e) => Err(cat2("Invalid base64: ", e.as_str())),
        Ok(bytes) => match open_archive(bytes) {
            Err(e) => Err(cat2("Failed to open zip: ", e.as_str())),
            Ok(archive) => {
                let u = Unpacking {
                    os,
                    archive,
                    dest: dest_dir.to_owned(),
                    begun: false,
                    at: 0,
                    extracted: Vec::new(),
                    pending: None,
                };
                assert(texts(u.extracted@) =~= Seq::empty());
                assert(u@.extracted =~= u@.paths(0));
                Ok(u)
            },
        },
    }
}

/// Where unpacking fails.
#[derive(Debug, Clone, Copy, PartialEq, Eq, Structural)]
pub enum UnpackFault {
    /// The directory to which the archive is unpacked cannot be made.
    Destination,
    MakeDir,
    CreateFile,
    WriteFile,
}

/// What is said when unpacking fails.
pub open spec fn unpack_complaint(at: UnpackFault, e: Seq<char>) -> Seq<char> {
    (match at {
        UnpackFault::Destination => "Failed to create destination: "@,
        UnpackFault::MakeDir => "Failed to create dir: "@,
        UnpackFault::CreateFile => "Failed to create file: "@,
        UnpackFault::WriteFile => "Failed to write file: "@,
    }) + e
}

/// What is said when unpacking fails.
pub fn unpack_failure(at: UnpackFault, e: &str) -> (r: String)
    ensures
        r@ == unpack_complaint(at, e@),
{
    let said = match at {
        UnpackFault::Destination => "Failed to create destination: ",
        UnpackFault::MakeDir => "Failed to create dir: ",
        UnpackFault::CreateFile => "Failed to create file: ",
        UnpackFault::WriteFile => "Failed to write file: ",
    };
    cat2(said, e)
}

impl Unpacking {
    /// How many entries there are.
    pub fn len(&self) -> (r: usize)
        ensures
            r == self@.entries.len(),
    {
        archive_len(&self.archive)
    }

    /// Decides what is to be done for the entry at an index.
    pub fn entry(&mut self, i: usize) -> (r: Result<Unpack, String>)
        requires
            i < old(self)@.entries.len(),
        ensures
            final(self)@ == old(self)@,
            unpack_view(r) == old(self)@.unpacked(i as int),
    {
        match entry_at(&mut self.archive, i) {
            Err(e) => Err(cat2("Failed to read zip entry: ", e.as_str())),
            Ok(x) => {
                let below = find_entry_path(self.os, x.name.as_str());
                let path = join_path(self.os, self.dest.as_str(), below.as_str());
                if x.is_dir {
                    Ok(Unpack::Dir(path))
                } else {
                    let fault = match x.fault {
                        Some(e) => Some(cat2("Failed to write file: ", e.as_str())),
                        None => None,
                    };
                    Ok(Unpack::File { path, data: x.data, fault })
                }
            },
        }
    }

    /// Decides what is to be done next, after what was to be done before is done
    /// or has failed. The paths of the entries are given at the end, in the order
    /// in which the archive has them.
    pub fn step(&mut self, failed: Option<(UnpackFault, String)>) -> (r: UnpackAction)
        requires
            old(self)@.keeps_count(),
        ensures
            final(self)@.keeps_count(),
            match failed {
                Some(f) => final(self)@ == old(self)@ && r@ == UnpackActionView::Done(
                    Err(unpack_complaint(f.0, f.1@)),
                ),
                None => (final(self)@, r@) == old(self)@.next(),
            },
    {
        proof {
            lemma_next_keeps_count(self@);
        }
        match failed {
            Some(f) => {
                return UnpackAction::Done(Err(unpack_failure(f.0, f.1.as_str())));
            },
            None => {},
        }
        if !self.begun {
            self.begun = true;
            return UnpackAction::MakeDest(self.dest.clone());
        }
        match &self.pending {
            Some((_, Some(e))) => {
                return UnpackAction::Done(Err(e.clone()));
            },
            _ => {},
        }
        let ghost before = self@;
        let mut pending: Option<(String, Option<String>)> = None;
        std::mem::swap(&mut pending, &mut self.pending);
        match pending {
            Some((path, _)) => {
                self.extracted.push(path);
                assert(texts(self.extracted@) =~= before.extracted.push(path@));
            },
            None => {},
        }
        assert(self@ == before.settled());
        if self.at < self.len() {
            let at: usize = self.at;
            match self.entry(at) {
                Err(e) => UnpackAction::Done(Err(e)),
                Ok(u) => {
                    self.at = at + 1;
                    self.pending = Some(
                        match &u {
                            Unpack::Dir(path) => (path.clone(), None),
                            Unpack::File { path, data: _, fault } => (
                                path.clone(),
                                match fault {
                                    Some(e) => Some(e.clone()),
                                    None => None,
                                },
                            ),
                        },
                    );
                    UnpackAction::Unpack(u)
                },
            }
        } else {
            UnpackAction::Done(Ok(copy_texts(&self.extracted)))
        }
    }
}

proof fn lemma_next_keeps_count(v: UnpackingView)
    requires
        v.keeps_count(),
    ensures
        v.next().0.keeps_count(),
{
    if v.next().1 is Unpack {
        let w = v.next().0;
        assert(w.settled().extracted =~= w.paths(w.at));
    }
}

/// Unpacking lists what was in the archive: when it succeeds, the paths of all
/// entries in their order. It goes through the entries one by one, and so comes to
/// an end.
pub proof fn unpacking_lists_every_entry(v: UnpackingView)
    requires
        v.keeps_count(),
    ensures
        v.next().0.keeps_count(),
        v.next().1 matches UnpackActionView::Done(Ok(paths)) ==> paths == v.paths(
            v.entries.len() as int,
        ),
        v.next().1 is Unpack ==> v.next().0.at == v.at + 1,
        v.begun && v.at == v.entries.len() ==> v.next().1 is Done,
{
    lemma_next_keeps_count(v);
}

/// An archive may hold either separator: the names that it holds with the one or with the
/// other go to the same place.
pub proof fn either_separator_is_read(os: Platform, name: Seq<char>)
    ensures
        entry_path(os, replaced(name, '/', '\\')) == entry_path(os, name),
        entry_path(os, replaced(name, '\\', '/')) == entry_path(os, name),
{
    let a = replaced(name, '/', '\\');
    let b = replaced(name, '\\', '/');
    lemma_position(name, '\0');
    lemma_position(a, '\0');
    lemma_position(b, '\0');
    assert forall|i: int| 0 <= i < name.len() implies (a[i] == '\0' <==> name[i] == '\0') && (b[i]
        == '\0' <==> name[i] == '\0') by {}
    assert(position(a, '\0') == position(name, '\0'));
    assert(position(b, '\0') == position(name, '\0'));
    assert(told_name(os, a) =~= told_name(os, name));
    assert(told_name(os, b) =~= told_name(os, name));
}

/// An entry of an archive is unpacked as what it is, to its own place below the destination: a
/// directory is made, and a file gets the bytes that can be read of it.
pub proof fn entries_are_unpacked_as_they_are(v: UnpackingView, i: int)
    requires
        0 <= i < v.entries.len(),
    ensures
        match v.entries[i] {
            Err(e) => v.unpacked(i) == Err::<UnpackView, Seq<char>>(
                "Failed to read zip entry: "@ + e,
            ),
            Ok((name, is_dir, data, fault)) => match v.unpacked(i) {
                Ok(UnpackView::Dir(path)) => is_dir && path == join(
                    v.os,
                    v.dest,
                    entry_path(v.os, name),
                ),
                Ok(UnpackView::File { path, data: written, fault: told }) => {
                    &&& !is_dir
                    &&& path == join(v.os, v.dest, entry_path(v.os, name))
                    &&& written == data
                    &&& fault is None ==> told is None
                    &&& fault matches Some(e) ==> told == Some("Failed to write file: "@ + e)
                },
                Err(_) => false,
            },
        },
{
}

/// An archive is unpacked from its first entry to its last, once its destination was made; an
/// entry that cannot be read, or not to its end, ends that.
pub proof fn archives_are_unpacked_in_order(v: UnpackingView)
    ensures
        !v.begun ==> v.next().1 == UnpackActionView::MakeDest(v.dest) && v.next().0.begun
            && v.next().0.at == v.at,
        v.begun ==> match v.pending {
            Some((_, Some(e))) => v.next().1 == UnpackActionView::Done(Err(e)),
            _ => if v.at >= v.entries.len() {
                v.next().1 is Done && v.next().1->Done_0 is Ok
            } else {
                match v.unpacked(v.at) {
                    Ok(u) => v.next().1 == UnpackActionView::Unpack(u) && v.next().0.at == v.at + 1,
                    Err(e) => v.next().1 == UnpackActionView::Done(Err(e)),
                }
            },
        },
{
}

/// An entry goes where its names lead, with the separators of the system between them; what
/// follows a zero character in its name does not count.
pub proof fn entries_go_where_their_names_lead(
    os: Platform,
    names: Seq<Seq<char>>,
    rest: Seq<char>,
)
    requires
        names.len() > 0,
        all_plain(os, names),
        forall|i: int| 0 <= i < names.len() ==> is_name(#[trigger] names[i]),
        forall|i: int|
            0 <= i < names.len() ==> !(#[trigger] names[i]).contains('\\') && !names[i].contains(
                '\0',
            ),
    ensures
        ({
            let name = joined(names, seq!['/']);
            &&& names_in(os, told_name(os, name)) == names
            &&& pieces(os, entry_path(os, name)) == names
            &&& entry_path(os, name.push('\0') + rest) == entry_path(os, name)
        }),
{
    let name = joined(names, seq!['/']);
    lemma_joined_names(os, names);
    assert(!name.contains('\0'));
    lemma_position(name, '\0');
    let long = name.push('\0') + rest;
    lemma_position(long, '\0');
    assert(long[name.len() as int] == '\0');
    assert(position(long, '\0') == name.len()) by {
        let k = position(long, '\0');
        if k < name.len() {
            assert(name[k] == '\0');
        }
    }
    assert(long.take(name.len() as int) =~= name);
    assert(name.take(name.len() as int) =~= name);
    assert(told_name(os, long) == told_name(os, name));
    lemma_names_lead_down(os, names);
    assert(told_name(os, name) == extended(os, Seq::empty(), names));
    lemma_all_names(names);
}

/// Names that are joined hold no other characters than they do, and read as they are put
/// together on the system.
proof fn lemma_joined_names(os: Platform, names: Seq<Seq<char>>)
    requires
        all_plain(os, names),
        forall|i: int|
            0 <= i < names.len() ==> !(#[trigger] names[i]).contains('\\') && !names[i].contains(
                '\0',
            ),
    ensures
        !joined(names, seq!['/']).contains('\0'),
        replaced(joined(names, seq!['/']), other_separator(os), separator(os)) == extended(
            os,
            Seq::empty(),
            names,
        ),
    decreases names.len(),
{
    lemma_extended_names(os, names);
    let all = joined(names, seq!['/']);
    let flat = replaced(all, other_separator(os), separator(os));
    if names.len() > 0 {
        let front = names.drop_last();
        let last = names.last();
        assert(is_plain(os, names[names.len() - 1]));
        assert(!names[names.len() - 1].contains('\0'));
        assert forall|i: int| 0 <= i < last.len() implies #[trigger] last[i] != '/' && last[i]
            != '\\' && last[i] != '\0' by {
            assert(!is_sep(os, last[i]));
            assert(last.contains(last[i]));
        }
        assert forall|i: int| 0 <= i < front.len() implies is_plain(os, #[trigger] front[i])
            && !front[i].contains('\\') && !front[i].contains('\0') by {
            assert(front[i] == names[i]);
        }
        lemma_joined_names(os, front);
        lemma_extended_names(os, front);
        if names.len() == 1 {
            assert(flat =~= last);
            assert(joined(names, seq![separator(os)]) =~= last);
        } else {
            let before = joined(front, seq!['/']);
            assert(all == before + seq!['/'] + last);
            assert(flat =~= replaced(before, other_separator(os), separator(os)) + seq![
                separator(os),
            ] + last);
            assert forall|i: int| 0 <= i < all.len() implies #[trigger] all[i] != '\0' by {
                if i < before.len() {
                    assert(before[i] == all[i]);
                } else if i > before.len() {
                    assert(all[i] == last[i - before.len() - 1]);
                }
            }
        }
    }
    assert(flat =~= joined(names, seq![separator(os)]));
}

proof fn lemma_all_names(names: Seq<Seq<char>>)
    requires
        forall|i: int| 0 <= i < names.len() ==> is_name(#[trigger] names[i]),
    ensures
        names.filter(|p: Seq<char>| is_name(p)) == names,
    decreases names.len(),
{
    reveal(Seq::filter);
    let keep = |p: Seq<char>| is_name(p);
    if names.len() > 0 {
        let front = names.drop_last();
        assert forall|i: int| 0 <= i < front.len() implies is_name(#[trigger] front[i]) by {
            assert(front[i] == names[i]);
        }
        lemma_all_names(front);
        assert(is_name(names[names.len() - 1]));
        assert(front.push(names.last()) =~= names);
    } else {
        assert(names.filter(keep) =~= names);
    }
}

} // verus!
