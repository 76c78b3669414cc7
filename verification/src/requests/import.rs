//! How the requests of an OpenAPI description are stored.

use vstd::prelude::*;
use vstd::string::*;

use crate::json::{no_fields, Fields, Json, JsonView};
use crate::requests::openapi::{
    imported_views, path_views, ImportPlan, ImportedRequest, ImportedView, PathImport, PathView,
};
use crate::text::text_view;

verus! {

/// What a client is told of an import of so many folders and requests.
pub open spec fn import_told(folders: int, requests: int) -> JsonView {
    JsonView::Object(
        no_fields().push(("imported_folders"@, JsonView::Unsigned(folders as u64))).push(
            ("imported_requests"@, JsonView::Unsigned(requests as u64)),
        ),
    )
}

/// What a client is told of an import.
pub fn import_reply(folders: u64, requests: u64) -> (r: Json)
    ensures
        r@ == import_told(folders as int, requests as int),
{
    Fields::new().number("imported_folders", folders).number("imported_requests", requests).object()
}

/// The body of a request that is stored.
#[derive(Debug, PartialEq)]
pub enum ImportBody {
    Text(String),
    /// The value, written out.
    Sample(Json),
}

/// What the body of a request that is stored stands for.
pub enum ImportBodyView {
    Text(Seq<char>),
    Sample(JsonView),
}

impl View for ImportBody {
    type V = ImportBodyView;

    open spec fn view(&self) -> ImportBodyView {
        match self {
            ImportBody::Text(t) => ImportBodyView::Text(t@),
            ImportBody::Sample(j) => ImportBodyView::Sample(j@),
        }
    }
}

/// A request that is stored.
#[derive(Debug, PartialEq)]
pub struct ImportRow {
    pub name: String,
    pub method: String,
    pub url: String,
    pub headers: String,
    pub body: ImportBody,
    pub folder_id: Option<i64>,
}

/// What a request that is stored stands for.
pub struct ImportRowView {
    pub name: Seq<char>,
    pub method: Seq<char>,
    pub url: Seq<char>,
    pub headers: Seq<char>,
    pub body: ImportBodyView,
    pub folder_id: Option<i64>,
}

impl View for ImportRow {
    type V = ImportRowView;

    open spec fn view(&self) -> ImportRowView {
        ImportRowView {
            name: self.name@,
            method: self.method@,
            url: self.url@,
            headers: self.headers@,
            body: self.body@,
            folder_id: self.folder_id,
        }
    }
}

/// How an imported request is stored in a folder: it has no headers, and its body
/// is the sample, when there is one.
pub open spec fn row_of(r: ImportedView, folder: i64) -> ImportRowView {
    ImportRowView {
        name: r.name,
        method: r.method,
        url: r.url,
        headers: "[]"@,
        body: match r.sample {
            Some(j) => ImportBodyView::Sample(j),
            None => ImportBodyView::Text(Seq::empty()),
        },
        folder_id: Some(folder),
    }
}

fn make_row(r: ImportedRequest, folder: i64) -> (row: ImportRow)
    ensures
        row@ == row_of(r@, folder),
{
    let body = match r.sample {
        Some(j) => ImportBody::Sample(j),
        None => {
            proof {
                reveal_strlit("");
                assert(""@ =~= Seq::<char>::empty());
            }
            ImportBody::Text("".to_owned())
        },
    };
    ImportRow {
        name: r.name,
        method: r.method,
        url: r.url,
        headers: "[]".to_owned(),
        body,
        folder_id: Some(folder),
    }
}

/// What an import waits for.
#[derive(Debug, Clone, Copy, PartialEq, Eq, Structural)]
pub enum ImportWait {
    Begin,
    Found,
    Made,
    Inserted,
    /// The import is over.
    Nothing,
}

/// What happens to an import.
#[derive(Debug, PartialEq)]
pub enum ImportEvent {
    Begin,
    /// The id of the folder that was looked for, when there is one.
    Found(Option<i64>),
    /// The id of the folder that was made, or why it was not.
    Made(Result<i64, String>),
    /// The request was stored, unless there is a reason why it was not.
    Inserted(Option<String>),
}

/// What an event stands for.
pub enum ImportEventView {
    Begin,
    Found(Option<i64>),
    Made(Result<i64, Seq<char>>),
    Inserted(Option<Seq<char>>),
}

impl View for ImportEvent {
    type V = ImportEventView;

    open spec fn view(&self) -> ImportEventView {
        match self {
            ImportEvent::Begin => ImportEventView::Begin,
            ImportEvent::Found(id) => ImportEventView::Found(*id),
            ImportEvent::Made(Ok(id)) => ImportEventView::Made(Ok(*id)),
            ImportEvent::Made(Err(e)) => ImportEventView::Made(Err(e@)),
            ImportEvent::Inserted(e) => ImportEventView::Inserted(text_view(*e)),
        }
    }
}

/// What is to be done next for an import.
#[derive(Debug, PartialEq)]
pub enum ImportAction {
    /// Look for a folder of that name.
    FindFolder(String),
    /// Make a folder of that name.
    MakeFolder(String),
    /// Store a request.
    Insert(ImportRow),
    /// The import is over, with the answer or why it failed.
    Done(Result<Json, String>),
}

/// What an action stands for.
pub enum ImportActionView {
    FindFolder(Seq<char>),
    MakeFolder(Seq<char>),
    Insert(ImportRowView),
    Done(Result<JsonView, Seq<char>>),
}

impl View for ImportAction {
    type V = ImportActionView;

    open spec fn view(&self) -> ImportActionView {
        match self {
            ImportAction::FindFolder(n) => ImportActionView::FindFolder(n@),
            ImportAction::MakeFolder(n) => ImportActionView::MakeFolder(n@),
            ImportAction::Insert(row) => ImportActionView::Insert(row@),
            ImportAction::Done(Ok(v)) => ImportActionView::Done(Ok(v@)),
            ImportAction::Done(Err(e)) => ImportActionView::Done(Err(e@)),
        }
    }
}

/// An import that is under way.
pub struct Import {
    paths: Vec<PathImport>,
    error: Option<String>,
    name: String,
    queue: Vec<ImportedRequest>,
    folder: Option<i64>,
    folders: u64,
    requests: u64,
    waits: ImportWait,
}

/// What an import that is under way stands for.
#[verifier::ext_equal]
pub struct ImportView {
    /// The paths that were not begun.
    pub paths: Seq<PathView>,
    /// Why the import fails once it is through with the paths.
    pub error: Option<Seq<char>>,
    /// The folder of the path at hand.
    pub name: Seq<char>,
    /// The requests of the path at hand that were not stored.
    pub queue: Seq<ImportedView>,
    /// The id of the folder of the path at hand, once it is known.
    pub folder: Option<i64>,
    /// How many folders were made.
    pub folders: int,
    /// How many requests were stored.
    pub requests: int,
    pub waits: ImportWait,
}

impl View for Import {
    type V = ImportView;

    closed spec fn view(&self) -> ImportView {
        ImportView {
            paths: path_views(self.paths@),
            error: text_view(self.error),
            name: self.name@,
            queue: imported_views(self.queue@),
            folder: self.folder,
            folders: self.folders as int,
            requests: self.requests as int,
            waits: self.waits,
        }
    }
}

/// An import that begins.
pub open spec fn import_start(paths: Seq<PathView>, error: Option<Seq<char>>) -> ImportView {
    ImportView {
        paths,
        error,
        name: Seq::empty(),
        queue: Seq::empty(),
        folder: None,
        folders: 0,
        requests: 0,
        waits: ImportWait::Begin,
    }
}

impl ImportView {
    /// Tells whether an event is the one that the import waits for.
    pub open spec fn awaits(self, e: ImportEventView) -> bool {
        match self.waits {
            ImportWait::Begin => e is Begin,
            ImportWait::Found => e is Found,
            ImportWait::Made => e is Made,
            ImportWait::Inserted => e is Inserted,
            ImportWait::Nothing => false,
        }
    }

    /// The next turn: a request of the path at hand is stored, else the folder of
    /// the next path is looked for, else the import is over.
    pub open spec fn turn(self) -> (ImportView, ImportActionView) {
        if self.folder is Some && self.queue.len() > 0 {
            (
                ImportView {
                    queue: self.queue.remove(0),
                    waits: ImportWait::Inserted,
                    ..self
                },
                ImportActionView::Insert(row_of(self.queue[0], self.folder->0)),
            )
        } else if self.paths.len() > 0 {
            (
                ImportView {
                    paths: self.paths.remove(0),
                    name: self.paths[0].0,
                    queue: self.paths[0].1,
                    folder: None,
                    waits: ImportWait::Found,
                    ..self
                },
                ImportActionView::FindFolder(self.paths[0].0),
            )
        } else {
            (
                ImportView { waits: ImportWait::Nothing, ..self },
                ImportActionView::Done(
                    match self.error {
                        Some(e) => Err(e),
                        None => Ok(import_told(self.folders, self.requests)),
                    },
                ),
            )
        }
    }
}

/// The import after an event, and what is to be done then: a folder that is found
/// is used, one that is not is made, and what cannot be stored ends the import.
pub open spec fn import_next(v: ImportView, e: ImportEventView) -> (ImportView, ImportActionView) {
    match e {
        ImportEventView::Begin => v.turn(),
        ImportEventView::Found(Some(id)) => (ImportView { folder: Some(id), ..v }).turn(),
        ImportEventView::Found(None) => (
            ImportView { waits: ImportWait::Made, ..v },
            ImportActionView::MakeFolder(v.name),
        ),
        ImportEventView::Made(Ok(id)) => (ImportView {
            folder: Some(id),
            folders: v.folders + 1,
            ..v
        }).turn(),
        ImportEventView::Made(Err(t)) => (
            ImportView { waits: ImportWait::Nothing, ..v },
            ImportActionView::Done(Err(t)),
        ),
        ImportEventView::Inserted(None) => (ImportView { requests: v.requests + 1, ..v }).turn(),
        ImportEventView::Inserted(Some(t)) => (
            ImportView { waits: ImportWait::Nothing, ..v },
            ImportActionView::Done(Err(t)),
        ),
    }
}

impl Import {
    /// An import that begins.
    pub fn new(plan: ImportPlan) -> (r: Self)
        ensures
            r@ == import_start(path_views(plan.paths@), text_view(plan.error)),
    {
        proof {
            reveal_strlit("");
            assert(""@ =~= Seq::<char>::empty());
        }
        let r = Import {
            paths: plan.paths,
            error: plan.error,
            name: "".to_owned(),
            queue: Vec::new(),
            folder: None,
            folders: 0,
            requests: 0,
            waits: ImportWait::Begin,
        };
        assert(imported_views(r.queue@) =~= Seq::empty());
        r
    }

    /// Tells whether what was made and stored can be counted further.
    pub fn has_room(&self) -> (r: bool)
        ensures
            r == (self@.folders < u64::MAX && self@.requests < u64::MAX),
    {
        self.folders < u64::MAX && self.requests < u64::MAX
    }

    fn turn(&mut self) -> (r: ImportAction)
        ensures
            (final(self)@, r@) == old(self)@.turn(),
    {
        let ghost before = self@;
        if self.queue.len() > 0 {
            match self.folder {
                Some(id) => {
                    let request = self.queue.remove(0);
                    self.waits = ImportWait::Inserted;
                    assert(imported_views(self.queue@) =~= before.queue.remove(0));
                    return ImportAction::Insert(make_row(request, id));
                },
                None => {},
            }
        }
        if self.paths.len() > 0 {
            let path = self.paths.remove(0);
            assert(path_views(self.paths@) =~= before.paths.remove(0));
            self.name = path.folder.clone();
            self.queue = path.requests;
            self.folder = None;
            self.waits = ImportWait::Found;
            return ImportAction::FindFolder(path.folder);
        }
        self.waits = ImportWait::Nothing;
        match &self.error {
            Some(e) => ImportAction::Done(Err(e.clone())),
            None => ImportAction::Done(Ok(import_reply(self.folders, self.requests))),
        }
    }

    /// Goes on with an import after the event that it waits for.
    pub fn step(&mut self, e: ImportEvent) -> (r: ImportAction)
        requires
            old(self)@.awaits(e@),
            old(self)@.folders < u64::MAX,
            old(self)@.requests < u64::MAX,
        ensures
            (final(self)@, r@) == import_next(old(self)@, e@),
    {
        match e {
            ImportEvent::Begin => self.turn(),
            ImportEvent::Found(Some(id)) => {
                self.folder = Some(id);
                self.turn()
            },
            ImportEvent::Found(None) => {
                self.waits = ImportWait::Made;
                ImportAction::MakeFolder(self.name.clone())
            },
            ImportEvent::Made(Ok(id)) => {
                self.folder = Some(id);
                self.folders += 1;
                self.turn()
            },
            ImportEvent::Made(Err(t)) => {
                self.waits = ImportWait::Nothing;
                ImportAction::Done(Err(t))
            },
            ImportEvent::Inserted(None) => {
                self.requests += 1;
                self.turn()
            },
            ImportEvent::Inserted(Some(t)) => {
                self.waits = ImportWait::Nothing;
                ImportAction::Done(Err(t))
            },
        }
    }
}

// ---------------------------------------------------------------------------
// What an import comes to
// ---------------------------------------------------------------------------

/// What is stored: the folders with their ids, and the requests.
#[verifier::ext_equal]
pub struct Store {
    pub folders: Seq<(Seq<char>, i64)>,
    pub requests: Seq<ImportRowView>,
}

/// The id of the first folder of a name.
pub open spec fn folder_named(folders: Seq<(Seq<char>, i64)>, name: Seq<char>) -> Option<i64>
    decreases folders.len(),
{
    if folders.len() == 0 {
        None
    } else if folders[0].0 == name {
        Some(folders[0].1)
    } else {
        folder_named(folders.drop_first(), name)
    }
}

/// The id that a folder gets when there are so many.
pub type NewIds = spec_fn(nat) -> i64;

impl Store {
    /// The store once there is a folder of a name.
    pub open spec fn with_folder(self, name: Seq<char>, ids: NewIds) -> Store {
        if folder_named(self.folders, name) is Some {
            self
        } else {
            Store { folders: self.folders.push((name, ids(self.folders.len()))), ..self }
        }
    }

    /// The store with some more requests in a folder.
    pub open spec fn with_requests(self, v: Seq<ImportedView>, folder: i64) -> Store {
        Store {
            requests: self.requests + Seq::new(v.len(), |i: int| row_of(v[i], folder)),
            ..self
        }
    }

    /// The store with the requests of a path in their folder, which is made unless
    /// there is one of its name.
    pub open spec fn with_path(self, path: PathView, ids: NewIds) -> Store {
        self.with_folder(path.0, ids).with_requests(path.1, self.folder_id(path.0, ids))
    }

    /// The id of the folder of a name, once there is one.
    pub open spec fn folder_id(self, name: Seq<char>, ids: NewIds) -> i64 {
        match folder_named(self.folders, name) {
            Some(id) => id,
            None => ids(self.folders.len()),
        }
    }

    /// The store with the requests of several paths.
    pub open spec fn with_paths(self, paths: Seq<PathView>, ids: NewIds) -> Store
        decreases paths.len(),
    {
        if paths.len() == 0 {
            self
        } else {
            self.with_path(paths[0], ids).with_paths(paths.remove(0), ids)
        }
    }

    /// The store after an action, and what it answers.
    pub open spec fn perform(self, a: ImportActionView, ids: NewIds) -> (Store, ImportEventView) {
        match a {
            ImportActionView::FindFolder(name) => (
                self,
                ImportEventView::Found(folder_named(self.folders, name)),
            ),
            ImportActionView::MakeFolder(name) => {
                let id = ids(self.folders.len());
                (
                    Store { folders: self.folders.push((name, id)), ..self },
                    ImportEventView::Made(Ok(id)),
                )
            },
            ImportActionView::Insert(row) => (
                Store { requests: self.requests.push(row), ..self },
                ImportEventView::Inserted(None),
            ),
            ImportActionView::Done(_) => (self, ImportEventView::Begin),
        }
    }
}

/// What an import comes to within so many steps, when each action is performed on
/// a store that never fails.
pub open spec fn played(
    v: ImportView,
    a: ImportActionView,
    store: Store,
    ids: NewIds,
    steps: nat,
) -> (Store, ImportActionView)
    decreases steps,
{
    if steps == 0 || a is Done {
        (store, a)
    } else {
        let (next, e) = store.perform(a, ids);
        let (w, b) = import_next(v, e);
        played(w, b, next, ids, (steps - 1) as nat)
    }
}

/// How many steps the import of some paths takes at most.
pub open spec fn steps_for(paths: Seq<PathView>) -> nat
    decreases paths.len(),
{
    if paths.len() == 0 {
        0
    } else {
        2 + paths[0].1.len() + steps_for(paths.remove(0))
    }
}

/// The requests of the path at hand are stored one by one.
proof fn lemma_queue_is_stored(v: ImportView, store: Store, ids: NewIds, steps: nat)
    requires
        v.folder is Some,
        steps >= v.queue.len(),
    ensures
        ({
            let (w, a) = v.turn();
            let done = ImportView {
                queue: Seq::empty(),
                requests: v.requests + v.queue.len(),
                ..v
            };
            let (w2, a2) = done.turn();
            played(w, a, store, ids, steps) == played(
                w2,
                a2,
                store.with_requests(v.queue, v.folder->0),
                ids,
                (steps - v.queue.len()) as nat,
            )
        }),
    decreases v.queue.len(),
{
    let id = v.folder->0;
    if v.queue.len() == 0 {
        assert(v.queue =~= Seq::empty());
        assert(store.with_requests(v.queue, id).requests =~= store.requests);
    } else {
        let (w, a) = v.turn();
        let row = row_of(v.queue[0], id);
        let next = Store { requests: store.requests.push(row), ..store };
        let u = ImportView { requests: w.requests + 1, ..w };
        assert(store.perform(a, ids) == (next, ImportEventView::Inserted(None)));
        assert(import_next(w, ImportEventView::Inserted(None)) == u.turn());
        lemma_queue_is_stored(u, next, ids, (steps - 1) as nat);
        assert(next.with_requests(u.queue, id).requests =~= store.with_requests(
            v.queue,
            id,
        ).requests);
    }
}

/// The paths are stored one by one.
proof fn lemma_paths_are_stored(v: ImportView, store: Store, ids: NewIds, steps: nat)
    requires
        v.queue.len() == 0,
        steps >= steps_for(v.paths),
    ensures
        ({
            let (w, a) = v.turn();
            let end = store.with_paths(v.paths, ids);
            let folders = v.folders + end.folders.len() - store.folders.len();
            let requests = v.requests + end.requests.len() - store.requests.len();
            played(w, a, store, ids, steps) == (
                end,
                ImportActionView::Done(
                    match v.error {
                        Some(e) => Err(e),
                        None => Ok(import_told(folders, requests)),
                    },
                ),
            )
        }),
    decreases v.paths.len(),
{
    if v.paths.len() > 0 {
        let path = v.paths[0];
        let rest = v.paths.remove(0);
        let (w, a) = v.turn();
        let id = store.folder_id(path.0, ids);
        let found = folder_named(store.folders, path.0);
        let there = store.with_folder(path.0, ids);
        let made: int = if found is Some {
            0
        } else {
            1
        };
        let u = ImportView { folder: Some(id), folders: v.folders + made, ..w };
        assert(store.perform(a, ids) == (store, ImportEventView::Found(found)));
        let left = (steps - 1 - made) as nat;
        assert(played(w, a, store, ids, steps) == played(
            u.turn().0,
            u.turn().1,
            there,
            ids,
            left,
        )) by {
            if found is None {
                let (w2, b) = import_next(w, ImportEventView::Found(None));
                assert(b == ImportActionView::MakeFolder(path.0));
                assert(store.perform(b, ids) == (there, ImportEventView::Made(Ok(id))));
                assert(import_next(w2, ImportEventView::Made(Ok(id))) == ImportView {
                    waits: w2.waits,
                    ..u
                }.turn());
                reveal_with_fuel(played, 3);
            } else {
                reveal_with_fuel(played, 2);
            }
        }
        lemma_queue_is_stored(u, there, ids, left);
        let d = ImportView { queue: Seq::empty(), requests: u.requests + u.queue.len(), ..u };
        let next = there.with_requests(path.1, id);
        assert(next == store.with_path(path, ids));
        lemma_paths_are_stored(d, next, ids, (left - path.1.len()) as nat);
        lemma_store_grows(next, rest, ids);
    }
}

proof fn lemma_store_grows(store: Store, paths: Seq<PathView>, ids: NewIds)
    ensures
        store.with_paths(paths, ids).folders.len() >= store.folders.len(),
        store.with_paths(paths, ids).requests.len() >= store.requests.len(),
    decreases paths.len(),
{
    if paths.len() > 0 {
        lemma_store_grows(store.with_path(paths[0], ids), paths.remove(0), ids);
    }
}

/// An import stores the requests of its paths, one after another: each without
/// headers, with its sample as the body, and in the folder of its path. A folder
/// that is there is used; only one that is not is made. The answer counts the
/// folders that were made and the requests that were stored. Where a path ends the
/// import, what came before it is stored all the same, and the answer is why.
pub proof fn import_stores_what_it_counts(
    paths: Seq<PathView>,
    error: Option<Seq<char>>,
    store: Store,
    ids: NewIds,
    steps: nat,
)
    requires
        steps >= steps_for(paths),
    ensures
        ({
            let (v, a) = import_next(import_start(paths, error), ImportEventView::Begin);
            let end = store.with_paths(paths, ids);
            played(v, a, store, ids, steps) == (
                end,
                ImportActionView::Done(
                    match error {
                        Some(e) => Err(e),
                        None => Ok(
                            import_told(
                                end.folders.len() - store.folders.len(),
                                end.requests.len() - store.requests.len(),
                            ),
                        ),
                    },
                ),
            )
        }),
{
    lemma_paths_are_stored(import_start(paths, error), store, ids, steps);
}

/// A request is stored as it was described: under its name, with its method and its address, in
/// its folder, without headers, and with its sample for a body, where it has one.
pub proof fn requests_are_stored_as_described(r: ImportedView, folder: i64)
    ensures
        ({
            let row = row_of(r, folder);
            &&& row.name == r.name
            &&& row.method == r.method
            &&& row.url == r.url
            &&& row.headers == "[]"@
            &&& row.folder_id == Some(folder)
            &&& r.sample matches Some(j) ==> row.body == ImportBodyView::Sample(j)
            &&& r.sample is None ==> row.body == ImportBodyView::Text(Seq::empty())
        }),
{
}

/// A client is told how many folders and how many requests were imported, under names of their
/// own.
pub proof fn imports_are_told_by_name(folders: u64, requests: u64)
    ensures
        import_told(folders as int, requests as int).says(
            "imported_folders"@,
            JsonView::Unsigned(folders),
        ),
        import_told(folders as int, requests as int).says(
            "imported_requests"@,
            JsonView::Unsigned(requests),
        ),
{
    let f = import_told(folders as int, requests as int)->Object_0;
    assert(f[0].0 == "imported_folders"@ && f[1].0 == "imported_requests"@);
    assert(f.contains(f[0]) && f.contains(f[1]));
}

/// What cannot be stored ends an import, with the reason why and nothing more to do.
pub proof fn failures_end_an_import(v: ImportView, e: Seq<char>)
    ensures
        import_next(v, ImportEventView::Made(Err(e))).1 == ImportActionView::Done(Err(e)),
        import_next(v, ImportEventView::Inserted(Some(e))).1 == ImportActionView::Done(Err(e)),
        import_next(v, ImportEventView::Made(Err(e))).0.waits == ImportWait::Nothing,
        import_next(v, ImportEventView::Inserted(Some(e))).0.waits == ImportWait::Nothing,
{
}

} // verus!
