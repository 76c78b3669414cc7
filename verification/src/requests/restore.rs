//! How folders and requests that were exported are stored again.

use vstd::prelude::*;
use vstd::string::*;

use crate::json::{Json, JsonView};
use crate::requests::collections::{
    folder_in, import_folders, import_requests, list_of, new_folder, new_id_of, request_in,
    CollectionRequest, CollectionRequestView, ImportedFolder,
};
use crate::requests::import::{
    import_reply, import_told, ImportBody, ImportBodyView, ImportRow, ImportRowView, NewIds, Store,
};
use crate::text::text_view;

verus! {

/// What an import of collections waits for.
#[derive(Debug, Clone, Copy, PartialEq, Eq, Structural)]
pub enum CollectionsWait {
    Begin,
    /// That a folder is made of which requests speak by this id.
    Made(i64),
    Inserted,
    /// The import is over.
    Nothing,
}

/// What happens to an import of collections.
#[derive(Debug, PartialEq)]
pub enum CollectionsEvent {
    Begin,
    /// The id of the folder that was made, or why it was not.
    Made(Result<i64, String>),
    /// The request was stored, unless there is a reason why it was not.
    Inserted(Option<String>),
}

/// What an event stands for.
pub enum CollectionsEventView {
    Begin,
    Made(Result<i64, Seq<char>>),
    Inserted(Option<Seq<char>>),
}

impl View for CollectionsEvent {
    type V = CollectionsEventView;

    open spec fn view(&self) -> CollectionsEventView {
        match self {
            CollectionsEvent::Begin => CollectionsEventView::Begin,
            CollectionsEvent::Made(Ok(id)) => CollectionsEventView::Made(Ok(*id)),
            CollectionsEvent::Made(Err(e)) => CollectionsEventView::Made(Err(e@)),
            CollectionsEvent::Inserted(e) => CollectionsEventView::Inserted(text_view(*e)),
        }
    }
}

/// What is to be done next for an import of collections.
#[derive(Debug, PartialEq)]
pub enum CollectionsAction {
    /// Make a folder of that name.
    MakeFolder(String),
    /// Store a request.
    Insert(ImportRow),
    /// The import is over, with the answer or why it failed.
    Done(Result<Json, String>),
}

/// What an action stands for.
pub enum CollectionsActionView {
    MakeFolder(Seq<char>),
    Insert(ImportRowView),
    Done(Result<JsonView, Seq<char>>),
}

impl View for CollectionsAction {
    type V = CollectionsActionView;

    open spec fn view(&self) -> CollectionsActionView {
        match self {
            CollectionsAction::MakeFolder(n) => CollectionsActionView::MakeFolder(n@),
            CollectionsAction::Insert(row) => CollectionsActionView::Insert(row@),
            CollectionsAction::Done(Ok(v)) => CollectionsActionView::Done(Ok(v@)),
            CollectionsAction::Done(Err(e)) => CollectionsActionView::Done(Err(e@)),
        }
    }
}

/// How a request is stored, by the pairs of old and new ids of the folders.
pub open spec fn restored_row(r: CollectionRequestView, ids: Seq<(i64, i64)>) -> ImportRowView {
    ImportRowView {
        name: r.name,
        method: r.method,
        url: r.url,
        headers: r.headers,
        body: ImportBodyView::Text(r.body),
        folder_id: match r.old_folder {
            Some(id) => new_id_of(ids, id),
            None => None,
        },
    }
}

/// An import of collections that is under way.
pub struct CollectionsImport {
    folders: Vec<ImportedFolder>,
    requests: Vec<CollectionRequest>,
    ids: Vec<(i64, i64)>,
    stored: usize,
    waits: CollectionsWait,
}

/// What an import of collections that is under way stands for.
#[verifier::ext_equal]
pub struct CollectionsView {
    /// The folders that were not made, with the ids by which requests speak of
    /// them.
    pub folders: Seq<(Seq<char>, i64)>,
    /// The requests that were not stored.
    pub requests: Seq<CollectionRequestView>,
    /// The old and the new ids of the folders that were made.
    pub ids: Seq<(i64, i64)>,
    /// How many requests were stored.
    pub stored: int,
    pub waits: CollectionsWait,
}

/// The views of a list of folders.
pub open spec fn folder_pairs(v: Seq<ImportedFolder>) -> Seq<(Seq<char>, i64)> {
    Seq::new(v.len(), |i: int| (v[i].name@, v[i].old_id))
}

/// The views of a list of requests.
pub open spec fn collection_views(v: Seq<CollectionRequest>) -> Seq<CollectionRequestView> {
    Seq::new(v.len(), |i: int| v[i]@)
}

impl View for CollectionsImport {
    type V = CollectionsView;

    closed spec fn view(&self) -> CollectionsView {
        CollectionsView {
            folders: folder_pairs(self.folders@),
            requests: collection_views(self.requests@),
            ids: self.ids@,
            stored: self.stored as int,
            waits: self.waits,
        }
    }
}

/// The folders that a value describes.
pub open spec fn folders_in(input: JsonView) -> Seq<(Seq<char>, i64)> {
    let v = list_of(input, "folders"@);
    Seq::new(v.len(), |i: int| folder_in(v[i]))
}

/// The requests that a value describes.
pub open spec fn requests_in(input: JsonView) -> Seq<CollectionRequestView> {
    let v = list_of(input, "requests"@);
    Seq::new(v.len(), |i: int| request_in(v[i]))
}

/// An import of collections that begins.
pub open spec fn collections_start(
    folders: Seq<(Seq<char>, i64)>,
    requests: Seq<CollectionRequestView>,
) -> CollectionsView {
    CollectionsView {
        folders,
        requests,
        ids: Seq::empty(),
        stored: 0,
        waits: CollectionsWait::Begin,
    }
}

impl CollectionsView {
    /// Tells whether an event is the one that the import waits for.
    pub open spec fn awaits(self, e: CollectionsEventView) -> bool {
        match self.waits {
            CollectionsWait::Begin => e is Begin,
            CollectionsWait::Made(_) => e is Made,
            CollectionsWait::Inserted => e is Inserted,
            CollectionsWait::Nothing => false,
        }
    }

    /// The next turn: a folder is made, else a request is stored, else the import
    /// is over.
    pub open spec fn turn(self) -> (CollectionsView, CollectionsActionView) {
        if self.folders.len() > 0 {
            (
                CollectionsView {
                    folders: self.folders.remove(0),
                    waits: CollectionsWait::Made(self.folders[0].1),
                    ..self
                },
                CollectionsActionView::MakeFolder(self.folders[0].0),
            )
        } else if self.requests.len() > 0 {
            (
                CollectionsView {
                    requests: self.requests.remove(0),
                    waits: CollectionsWait::Inserted,
                    ..self
                },
                CollectionsActionView::Insert(restored_row(self.requests[0], self.ids)),
            )
        } else {
            (
                CollectionsView { waits: CollectionsWait::Nothing, ..self },
                CollectionsActionView::Done(
                    Ok(import_told(self.ids.len() as int, self.stored)),
                ),
            )
        }
    }

    /// The state with the folder made that was asked for.
    pub open spec fn with_folder(self, id: i64) -> CollectionsView {
        match self.waits {
            CollectionsWait::Made(old_id) => CollectionsView {
                ids: self.ids.push((old_id, id)),
                ..self
            },
            _ => self,
        }
    }
}

/// The import after an event, and what is to be done then. What cannot be stored
/// ends it.
pub open spec fn collections_next(v: CollectionsView, e: CollectionsEventView) -> (
    CollectionsView,
    CollectionsActionView,
) {
    let over = CollectionsView { waits: CollectionsWait::Nothing, ..v };
    match e {
        CollectionsEventView::Begin => v.turn(),
        CollectionsEventView::Made(Ok(id)) => v.with_folder(id).turn(),
        CollectionsEventView::Made(Err(t)) => (over, CollectionsActionView::Done(Err(t))),
        CollectionsEventView::Inserted(None) => (CollectionsView {
            stored: v.stored + 1,
            ..v
        }).turn(),
        CollectionsEventView::Inserted(Some(t)) => (over, CollectionsActionView::Done(Err(t))),
    }
}

/// Begins to store the folders and requests that a value describes.
pub fn import_collections(input: &Json) -> (r: CollectionsImport)
    ensures
        r.wf(),
        r@ == collections_start(folders_in(input@), requests_in(input@)),
{
    let folders = import_folders(input);
    let requests = import_requests(input);
    let r = CollectionsImport {
        folders,
        requests,
        ids: Vec::new(),
        stored: 0,
        waits: CollectionsWait::Begin,
    };
    assert(folder_pairs(folders@) =~= folders_in(input@));
    assert(collection_views(requests@) =~= requests_in(input@));
    assert(r@.ids =~= Seq::empty());
    assert(requests@.len() == requests.len());
    r
}

impl CollectionsImport {
    /// The requests can be counted.
    pub closed spec fn wf(&self) -> bool {
        self.stored + self.requests@.len() + (if self.waits == CollectionsWait::Inserted {
            1int
        } else {
            0
        }) <= usize::MAX
    }

    fn turn(&mut self) -> (r: CollectionsAction)
        requires
            old(self).stored + old(self).requests@.len() <= usize::MAX,
        ensures
            final(self).wf(),
            (final(self)@, r@) == old(self)@.turn(),
    {
        let ghost before = self@;
        if self.folders.len() > 0 {
            let folder = self.folders.remove(0);
            assert(folder_pairs(self.folders@) =~= before.folders.remove(0));
            self.waits = CollectionsWait::Made(folder.old_id);
            CollectionsAction::MakeFolder(folder.name)
        } else if self.requests.len() > 0 {
            let request = self.requests.remove(0);
            assert(collection_views(self.requests@) =~= before.requests.remove(0));
            self.waits = CollectionsWait::Inserted;
            CollectionsAction::Insert(
                ImportRow {
                    folder_id: new_folder(&self.ids, request.old_folder),
                    name: request.name,
                    method: request.method,
                    url: request.url,
                    headers: request.headers,
                    body: ImportBody::Text(request.body),
                },
            )
        } else {
            self.waits = CollectionsWait::Nothing;
            CollectionsAction::Done(Ok(import_reply(self.ids.len() as u64, self.stored as u64)))
        }
    }

    /// Goes on with an import after the event that it waits for.
    pub fn step(&mut self, e: CollectionsEvent) -> (r: CollectionsAction)
        requires
            old(self).wf(),
            old(self)@.awaits(e@),
        ensures
            final(self).wf(),
            (final(self)@, r@) == collections_next(old(self)@, e@),
    {
        match e {
            CollectionsEvent::Begin => self.turn(),
            CollectionsEvent::Made(Ok(id)) => {
                match self.waits {
                    CollectionsWait::Made(old_id) => {
                        self.ids.push((old_id, id));
                    },
                    _ => {},
                }
                self.turn()
            },
            CollectionsEvent::Made(Err(t)) => {
                self.waits = CollectionsWait::Nothing;
                CollectionsAction::Done(Err(t))
            },
            CollectionsEvent::Inserted(None) => {
                self.stored = self.stored + 1;
                self.turn()
            },
            CollectionsEvent::Inserted(Some(t)) => {
                self.waits = CollectionsWait::Nothing;
                CollectionsAction::Done(Err(t))
            },
        }
    }
}

// ---------------------------------------------------------------------------
// What an import of collections comes to
// ---------------------------------------------------------------------------

impl Store {
    /// The store after an action, and what it answers.
    pub open spec fn restore(self, a: CollectionsActionView, ids: NewIds) -> (
        Store,
        CollectionsEventView,
    ) {
        match a {
            CollectionsActionView::MakeFolder(name) => {
                let id = ids(self.folders.len());
                (
                    Store { folders: self.folders.push((name, id)), ..self },
                    CollectionsEventView::Made(Ok(id)),
                )
            },
            CollectionsActionView::Insert(row) => (
                Store { requests: self.requests.push(row), ..self },
                CollectionsEventView::Inserted(None),
            ),
            CollectionsActionView::Done(_) => (self, CollectionsEventView::Begin),
        }
    }
}

/// What an import of collections comes to within so many steps, when each action
/// is performed on a store that never fails.
pub open spec fn restored(
    v: CollectionsView,
    a: CollectionsActionView,
    store: Store,
    ids: NewIds,
    steps: nat,
) -> (Store, CollectionsActionView)
    decreases steps,
{
    if steps == 0 || a is Done {
        (store, a)
    } else {
        let (next, e) = store.restore(a, ids);
        let (w, b) = collections_next(v, e);
        restored(w, b, next, ids, (steps - 1) as nat)
    }
}

/// The folders that are made of those that are imported, when there are `base`
/// already.
pub open spec fn new_folders(
    folders: Seq<(Seq<char>, i64)>,
    base: nat,
    ids: NewIds,
) -> Seq<(Seq<char>, i64)> {
    Seq::new(folders.len(), |i: int| (folders[i].0, ids((base + i) as nat)))
}

/// The old and the new ids of the folders that are made, when there are `base`
/// already.
pub open spec fn new_pairs(
    folders: Seq<(Seq<char>, i64)>,
    base: nat,
    ids: NewIds,
) -> Seq<(i64, i64)> {
    Seq::new(folders.len(), |i: int| (folders[i].1, ids((base + i) as nat)))
}

/// The requests as they are stored.
pub open spec fn restored_rows(
    requests: Seq<CollectionRequestView>,
    pairs: Seq<(i64, i64)>,
) -> Seq<ImportRowView> {
    Seq::new(requests.len(), |i: int| restored_row(requests[i], pairs))
}

/// The requests are stored one by one.
proof fn lemma_requests_are_stored(v: CollectionsView, store: Store, ids: NewIds, steps: nat)
    requires
        v.folders.len() == 0,
        steps >= v.requests.len(),
    ensures
        ({
            let (w, a) = v.turn();
            restored(w, a, store, ids, steps) == (
                Store {
                    requests: store.requests + restored_rows(v.requests, v.ids),
                    ..store
                },
                CollectionsActionView::Done(
                    Ok(import_told(v.ids.len() as int, v.stored + v.requests.len())),
                ),
            )
        }),
    decreases v.requests.len(),
{
    if v.requests.len() == 0 {
        assert(store.requests + restored_rows(v.requests, v.ids) =~= store.requests);
    } else {
        let (w, a) = v.turn();
        let row = restored_row(v.requests[0], v.ids);
        let next = Store { requests: store.requests.push(row), ..store };
        let u = CollectionsView { stored: w.stored + 1, ..w };
        assert(store.restore(a, ids) == (next, CollectionsEventView::Inserted(None)));
        lemma_requests_are_stored(u, next, ids, (steps - 1) as nat);
        assert(next.requests + restored_rows(u.requests, u.ids) =~= store.requests
            + restored_rows(v.requests, v.ids));
    }
}

/// The folders are made one by one, and the requests stored after them.
proof fn lemma_folders_are_made(v: CollectionsView, store: Store, ids: NewIds, steps: nat)
    requires
        steps >= v.folders.len() + v.requests.len(),
    ensures
        ({
            let (w, a) = v.turn();
            let base = store.folders.len();
            let pairs = v.ids + new_pairs(v.folders, base, ids);
            restored(w, a, store, ids, steps) == (
                Store {
                    folders: store.folders + new_folders(v.folders, base, ids),
                    requests: store.requests + restored_rows(v.requests, pairs),
                },
                CollectionsActionView::Done(
                    Ok(import_told(pairs.len() as int, v.stored + v.requests.len())),
                ),
            )
        }),
    decreases v.folders.len(),
{
    let base = store.folders.len();
    if v.folders.len() == 0 {
        assert(store.folders + new_folders(v.folders, base, ids) =~= store.folders);
        assert(v.ids + new_pairs(v.folders, base, ids) =~= v.ids);
        lemma_requests_are_stored(v, store, ids, steps);
    } else {
        let (w, a) = v.turn();
        let id = ids(base);
        let next = Store { folders: store.folders.push((v.folders[0].0, id)), ..store };
        let u = w.with_folder(id);
        assert(store.restore(a, ids) == (next, CollectionsEventView::Made(Ok(id))));
        assert(collections_next(w, CollectionsEventView::Made(Ok(id))) == u.turn());
        lemma_folders_are_made(u, next, ids, (steps - 1) as nat);
        assert(next.folders + new_folders(u.folders, base + 1, ids) =~= store.folders
            + new_folders(v.folders, base, ids));
        assert(u.ids + new_pairs(u.folders, base + 1, ids) =~= v.ids + new_pairs(
            v.folders,
            base,
            ids,
        ));
    }
}

/// An import of collections makes every folder once, in their order, and then
/// stores every request once, in their order: as it is described, in the folder
/// that was made for the one of which it speaks, if any. The answer tells how many
/// folders and requests there were.
pub proof fn collections_are_stored_once(
    input: JsonView,
    store: Store,
    ids: NewIds,
    steps: nat,
)
    requires
        steps >= folders_in(input).len() + requests_in(input).len(),
    ensures
        ({
            let folders = folders_in(input);
            let requests = requests_in(input);
            let (v, a) = collections_next(
                collections_start(folders, requests),
                CollectionsEventView::Begin,
            );
            let base = store.folders.len();
            restored(v, a, store, ids, steps) == (
                Store {
                    folders: store.folders + new_folders(folders, base, ids),
                    requests: store.requests + restored_rows(
                        requests,
                        new_pairs(folders, base, ids),
                    ),
                },
                CollectionsActionView::Done(
                    Ok(import_told(folders.len() as int, requests.len() as int)),
                ),
            )
        }),
{
    let start = collections_start(folders_in(input), requests_in(input));
    lemma_folders_are_made(start, store, ids, steps);
    assert(start.ids + new_pairs(start.folders, store.folders.len(), ids) =~= new_pairs(
        start.folders,
        store.folders.len(),
        ids,
    ));
}

/// A request is restored as it was, in the folder that was made for its own; one whose folder
/// was not made, or that was in none, is in none.
pub proof fn requests_are_restored_as_they_were(r: CollectionRequestView, ids: Seq<(i64, i64)>)
    ensures
        ({
            let row = restored_row(r, ids);
            &&& row.name == r.name
            &&& row.method == r.method
            &&& row.url == r.url
            &&& row.headers == r.headers
            &&& row.body == ImportBodyView::Text(r.body)
            &&& r.old_folder is None ==> row.folder_id is None
            &&& r.old_folder matches Some(id) ==> row.folder_id == new_id_of(ids, id)
        }),
{
}

/// What cannot be stored ends an import, with the reason why and nothing more to do.
pub proof fn failures_end_a_restoration(v: CollectionsView, e: Seq<char>)
    ensures
        collections_next(v, CollectionsEventView::Made(Err(e))).1 == CollectionsActionView::Done(
            Err(e),
        ),
        collections_next(v, CollectionsEventView::Inserted(Some(e))).1
            == CollectionsActionView::Done(Err(e)),
        collections_next(v, CollectionsEventView::Made(Err(e))).0.waits == CollectionsWait::Nothing,
{
}

} // verus!
