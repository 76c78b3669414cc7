//! Requests and the folders they are kept in.

use vstd::prelude::*;
use vstd::string::*;

use crate::columns::{
    push_update, text_update, update_views, ColumnUpdate, ColumnValue, ColumnView,
};
use crate::json::{array_view, values, Json, JsonView};
use crate::text::{
    ascii_raised, cat2, is_ascii_text, same, text_view, texts, to_uppercase, uppercase,
};

verus! {

/// A folder.
#[derive(Debug, PartialEq)]
pub struct Folder {
    pub id: i64,
    pub name: String,
    pub created_at: String,
}

/// A request that is kept.
#[derive(Debug, PartialEq)]
pub struct SavedRequest {
    pub id: i64,
    pub name: String,
    pub method: String,
    pub url: String,
    pub headers: String,
    pub body: String,
    pub folder_id: Option<i64>,
    pub created_at: String,
}

/// What a request that is kept stands for.
pub struct RequestView {
    pub id: i64,
    pub name: Seq<char>,
    pub method: Seq<char>,
    pub url: Seq<char>,
    pub headers: Seq<char>,
    pub body: Seq<char>,
    pub folder_id: Option<i64>,
    pub created_at: Seq<char>,
}

/// A folder with its requests.
#[derive(Debug, PartialEq)]
pub struct CollectionItem {
    pub id: i64,
    pub name: String,
    pub created_at: String,
    pub requests: Vec<SavedRequest>,
}

/// What a folder with its requests stands for.
pub struct ItemView {
    pub id: i64,
    pub name: Seq<char>,
    pub created_at: Seq<char>,
    pub requests: Seq<RequestView>,
}

impl View for SavedRequest {
    type V = RequestView;

    open spec fn view(&self) -> RequestView {
        RequestView {
            id: self.id,
            name: self.name@,
            method: self.method@,
            url: self.url@,
            headers: self.headers@,
            body: self.body@,
            folder_id: self.folder_id,
            created_at: self.created_at@,
        }
    }
}

/// The views of a list of requests.
pub open spec fn request_views(v: Seq<SavedRequest>) -> Seq<RequestView> {
    Seq::new(v.len(), |i: int| v[i]@)
}

impl View for CollectionItem {
    type V = ItemView;

    open spec fn view(&self) -> ItemView {
        ItemView {
            id: self.id,
            name: self.name@,
            created_at: self.created_at@,
            requests: request_views(self.requests@),
        }
    }
}

/// The views of a list of folders with their requests.
pub open spec fn item_views(v: Seq<CollectionItem>) -> Seq<ItemView> {
    Seq::new(v.len(), |i: int| v[i]@)
}

/// A folder without requests.
pub open spec fn empty_item(f: Folder) -> ItemView {
    ItemView { id: f.id, name: f.name@, created_at: f.created_at@, requests: Seq::empty() }
}

/// Where the first folder of that id stands, from `i` on, or the length.
pub open spec fn item_place(items: Seq<ItemView>, id: i64, i: int) -> int
    decreases items.len() - i,
{
    if i < 0 || i >= items.len() {
        items.len() as int
    } else if items[i].id == id {
        i
    } else {
        item_place(items, id, i + 1)
    }
}

impl ItemView {
    /// The folder with one more request.
    pub open spec fn with(self, r: RequestView) -> ItemView {
        ItemView { requests: self.requests.push(r), ..self }
    }

    /// What holds the requests that are in no folder.
    pub open spec fn ungrouped(requests: Seq<RequestView>) -> ItemView {
        ItemView { id: 0, name: Seq::empty(), created_at: Seq::empty(), requests }
    }
}

/// The folders with one more request. One whose folder is unknown is passed
/// over; those in no folder share an entry of their own.
pub open spec fn filed(items: Seq<ItemView>, r: RequestView) -> Seq<ItemView> {
    match r.folder_id {
        Some(id) => {
            let i = item_place(items, id, 0);
            if i < items.len() {
                items.update(i, items[i].with(r))
            } else {
                items
            }
        },
        None => {
            let i = item_place(items, 0, 0);
            if i < items.len() {
                items.update(i, items[i].with(r))
            } else {
                items.push(ItemView::ungrouped(seq![r]))
            }
        },
    }
}

/// The folders with the first `n` requests.
pub open spec fn grouped(start: Seq<ItemView>, requests: Seq<RequestView>, n: nat) -> Seq<ItemView>
    decreases n,
{
    if n == 0 {
        start
    } else {
        filed(grouped(start, requests, (n - 1) as nat), requests[n - 1])
    }
}

/// Tells whether an entry is listed: the one for requests in no folder only when
/// it holds some.
pub open spec fn listed(c: ItemView) -> bool {
    c.requests.len() > 0 || c.id != 0
}

/// The folders without requests.
pub open spec fn empty_items(folders: Seq<Folder>) -> Seq<ItemView> {
    Seq::new(folders.len(), |i: int| empty_item(folders[i]))
}

/// The folders with their requests.
pub open spec fn collection(folders: Seq<Folder>, requests: Seq<RequestView>) -> Seq<ItemView> {
    grouped(empty_items(folders), requests, requests.len()).filter(|c: ItemView| listed(c))
}

fn copy_request(r: &SavedRequest) -> (c: SavedRequest)
    ensures
        c@ == r@,
{
    SavedRequest {
        id: r.id,
        name: r.name.clone(),
        method: r.method.clone(),
        url: r.url.clone(),
        headers: r.headers.clone(),
        body: r.body.clone(),
        folder_id: r.folder_id,
        created_at: r.created_at.clone(),
    }
}

fn find_item(items: &Vec<CollectionItem>, id: i64) -> (r: usize)
    ensures
        r == item_place(item_views(items@), id, 0),
        r <= items@.len(),
{
    let ghost all = item_views(items@);
    let mut i: usize = 0;
    while i < items.len()
        invariant
            i <= items@.len(),
            all == item_views(items@),
            item_place(all, id, 0) == item_place(all, id, i as int),
        decreases items@.len() - i,
    {
        assert(all[i as int] == items@[i as int]@);
        if items[i].id == id {
            return i;
        }
        i += 1;
    }
    i
}

fn add_to(items: &mut Vec<CollectionItem>, i: usize, r: SavedRequest)
    requires
        i < old(items)@.len(),
    ensures
        item_views(final(items)@) == item_views(old(items)@).update(
            i as int,
            item_views(old(items)@)[i as int].with(r@),
        ),
{
    let ghost before = item_views(items@);
    let mut item = items.remove(i);
    let ghost held = request_views(item.requests@);
    item.requests.push(r);
    assert(request_views(item.requests@) =~= held.push(r@));
    items.insert(i, item);
    assert(item_views(items@) =~= before.update(i as int, before[i as int].with(r@)));
}

/// Puts the requests into their folders.
pub fn list_requests(folders: &Vec<Folder>, requests: &Vec<SavedRequest>) -> (r: Vec<
    CollectionItem,
>)
    ensures
        item_views(r@) == collection(folders@, request_views(requests@)),
{
    let ghost start = empty_items(folders@);
    let ghost all = request_views(requests@);
    let mut items: Vec<CollectionItem> = Vec::new();
    let mut i: usize = 0;
    while i < folders.len()
        invariant
            i <= folders@.len(),
            items@.len() == i,
            forall|j: int| 0 <= j < i ==> (#[trigger] items@[j])@ == empty_item(folders@[j]),
        decreases folders@.len() - i,
    {
        let item = CollectionItem {
            id: folders[i].id,
            name: folders[i].name.clone(),
            created_at: folders[i].created_at.clone(),
            requests: Vec::new(),
        };
        assert(request_views(item.requests@) =~= Seq::empty());
        items.push(item);
        i += 1;
    }
    assert(item_views(items@) =~= start);
    let mut k: usize = 0;
    while k < requests.len()
        invariant
            k <= requests@.len(),
            all == request_views(requests@),
            item_views(items@) == grouped(start, all, k as nat),
        decreases requests@.len() - k,
    {
        let ghost before = item_views(items@);
        let r = copy_request(&requests[k]);
        assert(all[k as int] == r@);
        match r.folder_id {
            Some(id) => {
                let at = find_item(&items, id);
                if at < items.len() {
                    add_to(&mut items, at, r);
                }
            },
            None => {
                let at = find_item(&items, 0);
                if at < items.len() {
                    add_to(&mut items, at, r);
                } else {
                    let mut list: Vec<SavedRequest> = Vec::new();
                    list.push(r);
                    assert(request_views(list@) =~= seq![r@]);
                    proof {
                        reveal_strlit("");
                        assert(""@ =~= Seq::<char>::empty());
                    }
                    let item = CollectionItem {
                        id: 0,
                        name: "".to_owned(),
                        created_at: "".to_owned(),
                        requests: list,
                    };
                    items.push(item);
                    assert(item_views(items@) =~= before.push(item@));
                }
            },
        }
        assert(item_views(items@) == filed(before, all[k as int]));
        k += 1;
    }
    let ghost full = item_views(items@);
    let ghost keep = |c: ItemView| listed(c);
    let mut out: Vec<CollectionItem> = Vec::new();
    let mut left: Vec<CollectionItem> = items;
    let ghost mut done: int = 0;
    proof {
        reveal(Seq::filter);
        assert(full.take(0).filter(keep) =~= Seq::<ItemView>::empty());
        assert(item_views(out@) =~= Seq::<ItemView>::empty());
        assert(item_views(left@) =~= full.skip(0));
    }
    while left.len() > 0
        invariant
            0 <= done <= full.len(),
            keep == (|c: ItemView| listed(c)),
            item_views(left@) == full.skip(done),
            item_views(out@) == full.take(done).filter(keep),
        decreases left@.len(),
    {
        let ghost before = item_views(out@);
        let ghost rest = item_views(left@);
        let c = left.remove(0);
        proof {
            reveal(Seq::filter);
            assert(rest.len() > 0);
            assert(rest[0] == c@);
            assert(full.skip(done)[0] == full[done]);
            assert(item_views(left@) =~= rest.skip(1));
            assert(item_views(left@) =~= full.skip(done + 1));
            assert(full.take(done + 1).drop_last() =~= full.take(done));
            assert(request_views(c.requests@).len() == c.requests@.len());
        }
        if c.requests.len() > 0 || c.id != 0 {
            out.push(c);
            assert(item_views(out@) =~= before.push(c@));
        }
        proof {
            done = done + 1;
        }
    }
    assert(full.take(done) =~= full) by {
        assert(full.skip(done).len() == 0);
    }
    out
}

/// The requests of a folder among the first `n`, or those in no folder.
pub open spec fn requests_in(requests: Seq<RequestView>, n: nat, folder: Option<i64>) -> Seq<
    RequestView,
>
    decreases n,
{
    if n == 0 {
        Seq::empty()
    } else {
        let front = requests_in(requests, (n - 1) as nat, folder);
        if requests[n - 1].folder_id == folder {
            front.push(requests[n - 1])
        } else {
            front
        }
    }
}

/// The folders, each with its requests.
pub open spec fn folder_items(folders: Seq<Folder>, requests: Seq<RequestView>, n: nat) -> Seq<
    ItemView,
> {
    Seq::new(
        folders.len(),
        |i: int|
            ItemView {
                id: folders[i].id,
                name: folders[i].name@,
                created_at: folders[i].created_at@,
                requests: requests_in(requests, n, Some(folders[i].id)),
            },
    )
}

/// The entry for requests in no folder, when there are any.
pub open spec fn rest_items(requests: Seq<RequestView>, n: nat) -> Seq<ItemView> {
    let rest = requests_in(requests, n, None);
    if rest.len() > 0 {
        seq![ItemView::ungrouped(rest)]
    } else {
        Seq::empty()
    }
}

/// Tells whether folders have ids of their own, none of which is zero.
pub open spec fn proper_ids(folders: Seq<Folder>) -> bool {
    &&& forall|i: int| 0 <= i < folders.len() ==> (#[trigger] folders[i]).id != 0
    &&& forall|i: int, j: int| 0 <= i < j < folders.len() ==> folders[i].id != folders[j].id
}

/// Tells whether no request is in a folder of the id zero.
pub open spec fn proper_folders(requests: Seq<RequestView>) -> bool {
    forall|i: int| 0 <= i < requests.len() ==> (#[trigger] requests[i]).folder_id != Some(0i64)
}

/// Every folder is listed with all its requests in their order, and the requests
/// in no folder come last, in an entry of their own.
pub proof fn requests_stand_in_their_folders(folders: Seq<Folder>, requests: Seq<RequestView>)
    requires
        proper_ids(folders),
        proper_folders(requests),
    ensures
        collection(folders, requests) == folder_items(folders, requests, requests.len())
            + rest_items(requests, requests.len()),
{
    lemma_grouped(folders, requests, requests.len());
    let s = grouped(empty_items(folders), requests, requests.len());
    let keep = |c: ItemView| listed(c);
    assert forall|i: int| 0 <= i < s.len() implies keep(#[trigger] s[i]) by {
        if i < folders.len() {
            assert(s[i].id == folders[i].id);
        }
    }
    lemma_filter_all(s, keep);
}

proof fn lemma_filter_all(s: Seq<ItemView>, keep: spec_fn(ItemView) -> bool)
    requires
        forall|i: int| 0 <= i < s.len() ==> keep(#[trigger] s[i]),
    ensures
        s.filter(keep) == s,
    decreases s.len(),
{
    reveal(Seq::filter);
    if s.len() > 0 {
        let front = s.drop_last();
        assert forall|i: int| 0 <= i < front.len() implies keep(#[trigger] front[i]) by {
            assert(front[i] == s[i]);
        }
        lemma_filter_all(front, keep);
        assert(keep(s[s.len() - 1]));
        assert(s =~= front.push(s.last()));
    } else {
        assert(s.filter(keep) =~= s);
    }
}

proof fn lemma_place(items: Seq<ItemView>, id: i64, i: int, at: int)
    requires
        0 <= i <= at <= items.len(),
        forall|j: int| i <= j < at ==> (#[trigger] items[j]).id != id,
        at < items.len() ==> items[at].id == id,
    ensures
        item_place(items, id, i) == at,
    decreases at - i,
{
    if i < at {
        assert(items[i].id != id);
        lemma_place(items, id, i + 1, at);
    }
}

proof fn lemma_grouped(folders: Seq<Folder>, requests: Seq<RequestView>, n: nat)
    requires
        proper_ids(folders),
        proper_folders(requests),
        n <= requests.len(),
    ensures
        grouped(empty_items(folders), requests, n) == folder_items(folders, requests, n)
            + rest_items(requests, n),
    decreases n,
{
    let all = folder_items(folders, requests, n) + rest_items(requests, n);
    if n == 0 {
        assert(empty_items(folders) =~= all);
    } else {
        let m = (n - 1) as nat;
        lemma_grouped(folders, requests, m);
        let before = folder_items(folders, requests, m) + rest_items(requests, m);
        let r = requests[n - 1];
        let k = folders.len() as int;
        match r.folder_id {
            Some(id) => {
                if exists|i: int| 0 <= i < k && (#[trigger] folders[i]).id == id {
                    let at = choose|i: int| 0 <= i < k && (#[trigger] folders[i]).id == id;
                    assert forall|j: int| 0 <= j < at implies (#[trigger] before[j]).id != id by {
                        assert(folders[j].id != folders[at].id);
                    }
                    lemma_place(before, id, 0, at);
                    assert forall|j: int| 0 <= j < k && j != at implies folders[j].id != id by {
                        if j < at {
                            assert(folders[j].id != folders[at].id);
                        } else {
                            assert(folders[at].id != folders[j].id);
                        }
                    }
                    assert(filed(before, r) =~= all);
                } else {
                    assert forall|j: int| 0 <= j < before.len() implies (#[trigger] before[j]).id
                        != id by {
                        if j < k {
                            assert(folders[j].id != id);
                        }
                    }
                    lemma_place(before, id, 0, before.len() as int);
                    assert(filed(before, r) =~= all);
                }
            },
            None => {
                assert forall|j: int| 0 <= j < k implies (#[trigger] before[j]).id != 0 by {
                    assert(folders[j].id != 0);
                }
                lemma_place(before, 0, 0, k);
                let rest = requests_in(requests, m, None);
                assert(requests_in(requests, n, None) == rest.push(r));
                assert(rest_items(requests, n) =~= seq![ItemView::ungrouped(rest.push(r))]);
                if rest.len() > 0 {
                    assert(before[k] == ItemView::ungrouped(rest));
                    assert(before[k].with(r) == ItemView::ungrouped(rest.push(r)));
                } else {
                    assert(rest.push(r) =~= seq![r]);
                }
                assert(filed(before, r) =~= all);
            },
        }
    }
}

/// What is changed of a request.
#[derive(Debug, PartialEq)]
pub struct UpdateRequest {
    pub name: Option<String>,
    pub method: Option<String>,
    pub url: Option<String>,
    pub headers: Option<String>,
    pub body: Option<String>,
    pub folder_id: Option<Option<i64>>,
}

/// The columns that a change of a request sets, in their order.
pub open spec fn request_updates(u: UpdateRequest) -> Seq<(Seq<char>, ColumnView)> {
    text_update("name"@, text_view(u.name)) + text_update("method"@, text_view(u.method))
        + text_update("url"@, text_view(u.url)) + text_update("headers"@, text_view(u.headers))
        + text_update("body"@, text_view(u.body)) + (match u.folder_id {
        Some(f) => seq![("folder_id"@, ColumnView::Id(f))],
        None => Seq::empty(),
    })
}

/// The columns that a change of a request sets.
pub fn update_request(u: &UpdateRequest) -> (r: Vec<ColumnUpdate>)
    ensures
        update_views(r@) == request_updates(*u),
{
    let mut out: Vec<ColumnUpdate> = Vec::new();
    assert(update_views(out@) =~= Seq::empty());
    push_update(&mut out, "name", &u.name);
    push_update(&mut out, "method", &u.method);
    push_update(&mut out, "url", &u.url);
    push_update(&mut out, "headers", &u.headers);
    push_update(&mut out, "body", &u.body);
    match u.folder_id {
        Some(f) => {
            out.push(ColumnUpdate { column: "folder_id", value: ColumnValue::Id(f) });
        },
        None => {},
    }
    assert(update_views(out@) =~= request_updates(*u));
    out
}

/// The columns that a change of a folder sets.
pub fn update_folder(name: &Option<String>) -> (r: Vec<ColumnUpdate>)
    ensures
        update_views(r@) == text_update("name"@, text_view(*name)),
{
    let mut out: Vec<ColumnUpdate> = Vec::new();
    assert(update_views(out@) =~= Seq::empty());
    push_update(&mut out, "name", name);
    assert(update_views(out@) =~= text_update("name"@, text_view(*name)));
    out
}

/// A header of a request.
#[derive(Debug, PartialEq)]
pub struct HeaderPair {
    pub key: String,
    pub value: String,
}

/// A request to be sent.
#[derive(Debug, PartialEq)]
pub struct SendPlan {
    pub method: &'static str,
    pub url: String,
    pub headers: Vec<HeaderPair>,
    pub body: Option<String>,
    /// How many seconds the answer may take.
    pub timeout: u64,
}

/// The method of that name in capitals; a name that is of none stands for GET.
pub open spec fn method_named(m: Seq<char>) -> Seq<char> {
    if m == "POST"@ || m == "PUT"@ || m == "DELETE"@ || m == "PATCH"@ || m == "HEAD"@ || m
        == "OPTIONS"@ {
        m
    } else {
        "GET"@
    }
}

/// The method that a word stands for.
pub open spec fn method_of(word: Seq<char>) -> Seq<char> {
    method_named(uppercase(word))
}

fn read_method(word: &str) -> (r: &'static str)
    ensures
        r@ == method_of(word@),
        is_ascii_text(word@) ==> r@ == method_named(ascii_raised(word@)),
{
    let m = to_uppercase(word);
    let m = m.as_str();
    if same(m, "POST") {
        "POST"
    } else if same(m, "PUT") {
        "PUT"
    } else if same(m, "DELETE") {
        "DELETE"
    } else if same(m, "PATCH") {
        "PATCH"
    } else if same(m, "HEAD") {
        "HEAD"
    } else if same(m, "OPTIONS") {
        "OPTIONS"
    } else {
        "GET"
    }
}

/// The views of a list of headers.
pub open spec fn header_views(v: Seq<HeaderPair>) -> Seq<(Seq<char>, Seq<char>)> {
    Seq::new(v.len(), |i: int| (v[i].key@, v[i].value@))
}

/// The headers that have a name.
pub open spec fn named_headers(v: Seq<(Seq<char>, Seq<char>)>) -> Seq<(Seq<char>, Seq<char>)> {
    v.filter(|h: (Seq<char>, Seq<char>)| h.0.len() > 0)
}

/// How many seconds an answer may take when nothing else is said.
pub const SEND_TIMEOUT: u64 = 30;

/// Decides what is sent.
pub fn send_http(
    method: &str,
    url: String,
    headers: Option<Vec<HeaderPair>>,
    body: Option<String>,
    timeout: Option<u64>,
) -> (r: SendPlan)
    ensures
        r.method@ == method_of(method@),
        is_ascii_text(method@) ==> r.method@ == method_named(ascii_raised(method@)),
        r.url@ == url@,
        header_views(r.headers@) == (match headers {
            Some(h) => named_headers(header_views(h@)),
            None => Seq::empty(),
        }),
        text_view(r.body) == (match body {
            Some(b) => if b@.len() > 0 {
                Some(b@)
            } else {
                None
            },
            None => None,
        }),
        r.timeout == (match timeout {
            Some(t) => t,
            None => 30,
        }),
{
    let mut out: Vec<HeaderPair> = Vec::new();
    assert(header_views(out@) =~= Seq::empty());
    match headers {
        Some(h) => {
            let ghost all = header_views(h@);
            let ghost keep = |x: (Seq<char>, Seq<char>)| x.0.len() > 0;
            let mut i: usize = 0;
            proof {
                reveal(Seq::filter);
                assert(all.take(0).filter(keep) =~= Seq::empty());
            }
            while i < h.len()
                invariant
                    i <= h@.len(),
                    all == header_views(h@),
                    keep == (|x: (Seq<char>, Seq<char>)| x.0.len() > 0),
                    header_views(out@) == all.take(i as int).filter(keep),
                decreases h@.len() - i,
            {
                let ghost before = header_views(out@);
                proof {
                    reveal(Seq::filter);
                    assert(all.take(i + 1).drop_last() =~= all.take(i as int));
                    assert(all.take(i + 1).last() == all[i as int]);
                }
                if h[i].key.as_str().unicode_len() > 0 {
                    let p = HeaderPair { key: h[i].key.clone(), value: h[i].value.clone() };
                    out.push(p);
                    assert(header_views(out@) =~= before.push((p.key@, p.value@)));
                }
                i += 1;
            }
            assert(all.take(i as int) =~= all);
        },
        None => {},
    }
    let body = match body {
        Some(b) => if b.as_str().unicode_len() > 0 {
            Some(b)
        } else {
            None
        },
        None => None,
    };
    let timeout = match timeout {
        Some(t) => t,
        None => SEND_TIMEOUT,
    };
    SendPlan { method: read_method(method), url, headers: out, body, timeout }
}

/// What an answer was.
#[derive(Debug, PartialEq)]
pub struct HttpResponse {
    pub status: u16,
    pub status_text: String,
    pub headers: Vec<HeaderPair>,
    pub body: String,
    pub elapsed_ms: u64,
}

/// Headers of an answer; one whose value is no text has an empty one.
pub open spec fn answer_headers(v: Seq<(String, Option<String>)>) -> Seq<(Seq<char>, Seq<char>)> {
    Seq::new(
        v.len(),
        |i: int|
            (
                v[i].0@,
                match v[i].1 {
                    Some(t) => t@,
                    None => Seq::empty(),
                },
            ),
    )
}

/// What is told of an answer. A status without a name is unknown.
pub fn http_response(
    status: u16,
    reason: Option<String>,
    headers: &Vec<(String, Option<String>)>,
    body: String,
    elapsed_ms: u64,
) -> (r: HttpResponse)
    ensures
        r.status == status,
        r.status_text@ == (match reason {
            Some(t) => t@,
            None => "Unknown"@,
        }),
        header_views(r.headers@) == answer_headers(headers@),
        r.body@ == body@,
        r.elapsed_ms == elapsed_ms,
{
    proof {
        reveal_strlit("");
        assert(""@ =~= Seq::<char>::empty());
    }
    let ghost all = answer_headers(headers@);
    let mut out: Vec<HeaderPair> = Vec::new();
    let mut i: usize = 0;
    while i < headers.len()
        invariant
            i <= headers@.len(),
            all == answer_headers(headers@),
            ""@ == Seq::<char>::empty(),
            out@.len() == i,
            forall|j: int| 0 <= j < i ==> ((#[trigger] out@[j]).key@, out@[j].value@) == all[j],
        decreases headers@.len() - i,
    {
        let value = match &headers[i].1 {
            Some(t) => t.clone(),
            None => "".to_owned(),
        };
        out.push(HeaderPair { key: headers[i].0.clone(), value });
        i += 1;
    }
    assert(header_views(out@) =~= all);
    let status_text = match reason {
        Some(t) => t,
        None => "Unknown".to_owned(),
    };
    HttpResponse { status, status_text, headers: out, body, elapsed_ms }
}

/// What is said when a request fails, before its answer has begun or after.
pub fn send_failure(answered: bool, e: &str) -> (r: String)
    ensures
        r@ == (if answered {
            "Failed to read response: "@ + e@
        } else {
            "Request failed: "@ + e@
        }),
{
    if answered {
        cat2("Failed to read response: ", e)
    } else {
        cat2("Request failed: ", e)
    }
}

/// Tells whether the column for the folder of a request is missing.
pub fn lacks_folder_column(columns: &Vec<String>) -> (r: bool)
    ensures
        r == !texts(columns@).contains("folder_id"@),
{
    let mut i: usize = 0;
    while i < columns.len()
        invariant
            i <= columns@.len(),
            forall|j: int| 0 <= j < i ==> (#[trigger] columns@[j])@ != "folder_id"@,
        decreases columns@.len() - i,
    {
        if same(columns[i].as_str(), "folder_id") {
            assert(texts(columns@)[i as int] == "folder_id"@);
            return false;
        }
        i += 1;
    }
    assert forall|j: int| 0 <= j < texts(columns@).len() implies #[trigger] texts(columns@)[j]
        != "folder_id"@ by {
        assert(columns@[j]@ != "folder_id"@);
    }
    true
}

/// A folder to be imported: its name, and the id under which requests speak of
/// it.
#[derive(Debug, PartialEq)]
pub struct ImportedFolder {
    pub name: String,
    pub old_id: i64,
}

/// A request to be imported, with the id of the folder of which it speaks.
#[derive(Debug, PartialEq)]
pub struct CollectionRequest {
    pub name: String,
    pub method: String,
    pub url: String,
    pub headers: String,
    pub body: String,
    pub old_folder: Option<i64>,
}

/// What a request to be imported stands for.
pub struct CollectionRequestView {
    pub name: Seq<char>,
    pub method: Seq<char>,
    pub url: Seq<char>,
    pub headers: Seq<char>,
    pub body: Seq<char>,
    pub old_folder: Option<i64>,
}

impl View for CollectionRequest {
    type V = CollectionRequestView;

    open spec fn view(&self) -> CollectionRequestView {
        CollectionRequestView {
            name: self.name@,
            method: self.method@,
            url: self.url@,
            headers: self.headers@,
            body: self.body@,
            old_folder: self.old_folder,
        }
    }
}

/// The text in a field of a value, or another one.
pub open spec fn text_of(v: JsonView, key: Seq<char>, default: Seq<char>) -> Seq<char> {
    match v.get(key) {
        Some(JsonView::Str(s)) => s,
        _ => default,
    }
}

/// The number in a field of a value.
pub open spec fn number_of(v: JsonView, key: Seq<char>) -> Option<i64> {
    match v.get(key) {
        Some(x) => x.signed(),
        None => None,
    }
}

/// The values of the list in a field of a value.
pub open spec fn list_of(v: JsonView, key: Seq<char>) -> Seq<JsonView> {
    match v.get(key) {
        Some(JsonView::Array(a)) => a,
        _ => Seq::empty(),
    }
}

/// A folder that a value describes.
pub open spec fn folder_in(v: JsonView) -> (Seq<char>, i64) {
    (
        text_of(v, "name"@, ""@),
        match number_of(v, "id"@) {
            Some(n) => n,
            None => 0,
        },
    )
}

/// A request that a value describes.
pub open spec fn request_in(v: JsonView) -> CollectionRequestView {
    CollectionRequestView {
        name: text_of(v, "name"@, ""@),
        method: text_of(v, "method"@, "GET"@),
        url: text_of(v, "url"@, ""@),
        headers: text_of(v, "headers"@, "[]"@),
        body: text_of(v, "body"@, ""@),
        old_folder: number_of(v, "folder_id"@),
    }
}

fn take_text(v: &Json, key: &str, default: &str) -> (r: String)
    ensures
        r@ == text_of(v@, key@, default@),
{
    match v.get(key) {
        Some(Json::Str(s)) => s.clone(),
        _ => default.to_owned(),
    }
}

fn take_number(v: &Json, key: &str) -> (r: Option<i64>)
    ensures
        r == number_of(v@, key@),
{
    match v.get(key) {
        Some(x) => x.signed(),
        None => None,
    }
}

/// The folders to be imported.
pub fn import_folders(input: &Json) -> (r: Vec<ImportedFolder>)
    ensures
        r@.len() == list_of(input@, "folders"@).len(),
        forall|i: int|
            0 <= i < r@.len() ==> ((#[trigger] r@[i]).name@, r@[i].old_id) == folder_in(
                list_of(input@, "folders"@)[i],
            ),
{
    let mut out: Vec<ImportedFolder> = Vec::new();
    match input.get("folders") {
        Some(Json::Array(a)) => {
            proof {
                array_view(*a);
            }
            let ghost all = values(a@);
            let mut i: usize = 0;
            while i < a.len()
                invariant
                    i <= a@.len(),
                    all == values(a@),
                    out@.len() == i,
                    forall|j: int|
                        0 <= j < i ==> ((#[trigger] out@[j]).name@, out@[j].old_id) == folder_in(
                            all[j],
                        ),
                decreases a@.len() - i,
            {
                assert(all[i as int] == a@[i as int]@);
                let old_id = match take_number(&a[i], "id") {
                    Some(n) => n,
                    None => 0,
                };
                out.push(ImportedFolder { name: take_text(&a[i], "name", ""), old_id });
                i += 1;
            }
        },
        _ => {},
    }
    out
}

/// The requests to be imported.
pub fn import_requests(input: &Json) -> (r: Vec<CollectionRequest>)
    ensures
        r@.len() == list_of(input@, "requests"@).len(),
        forall|i: int|
            0 <= i < r@.len() ==> (#[trigger] r@[i])@ == request_in(
                list_of(input@, "requests"@)[i],
            ),
{
    let mut out: Vec<CollectionRequest> = Vec::new();
    match input.get("requests") {
        Some(Json::Array(a)) => {
            proof {
                array_view(*a);
            }
            let ghost all = values(a@);
            let mut i: usize = 0;
            while i < a.len()
                invariant
                    i <= a@.len(),
                    all == values(a@),
                    out@.len() == i,
                    forall|j: int| 0 <= j < i ==> (#[trigger] out@[j])@ == request_in(all[j]),
                decreases a@.len() - i,
            {
                assert(all[i as int] == a@[i as int]@);
                let v = &a[i];
                out.push(
                    CollectionRequest {
                        name: take_text(v, "name", ""),
                        method: take_text(v, "method", "GET"),
                        url: take_text(v, "url", ""),
                        headers: take_text(v, "headers", "[]"),
                        body: take_text(v, "body", ""),
                        old_folder: take_number(v, "folder_id"),
                    },
                );
                i += 1;
            }
        },
        _ => {},
    }
    out
}

/// The new id of a folder, by the pairs of old and new ids; the last pair counts.
pub open spec fn new_id_of(ids: Seq<(i64, i64)>, old_id: i64) -> Option<i64>
    decreases ids.len(),
{
    if ids.len() == 0 {
        None
    } else if ids.last().0 == old_id {
        Some(ids.last().1)
    } else {
        new_id_of(ids.drop_last(), old_id)
    }
}

/// The folder in which an imported request goes, by the pairs of old and new ids
/// of the folders.
pub fn new_folder(ids: &Vec<(i64, i64)>, old_folder: Option<i64>) -> (r: Option<i64>)
    ensures
        r == (match old_folder {
            Some(id) => new_id_of(ids@, id),
            None => None,
        }),
{
    match old_folder {
        None => None,
        Some(id) => {
            let mut n: usize = ids.len();
            assert(ids@.take(n as int) =~= ids@);
            while n > 0
                invariant
                    n <= ids@.len(),
                    old_folder == Some(id),
                    new_id_of(ids@, id) == new_id_of(ids@.take(n as int), id),
                decreases n,
            {
                let (old_id, new_id) = ids[n - 1];
                assert(ids@.take(n as int).drop_last() =~= ids@.take(n - 1));
                if old_id == id {
                    return Some(new_id);
                }
                n -= 1;
            }
            None
        },
    }
}

/// A request is imported into the folder that was made for its own: where each
/// old id stands once, that is the one it is paired with.
pub proof fn imported_requests_keep_their_folders(ids: Seq<(i64, i64)>, i: int)
    requires
        0 <= i < ids.len(),
        forall|j: int, k: int| 0 <= j < k < ids.len() ==> ids[j].0 != ids[k].0,
    ensures
        new_id_of(ids, ids[i].0) == Some(ids[i].1),
    decreases ids.len(),
{
    if i < ids.len() - 1 {
        assert(ids[i].0 != ids[ids.len() - 1].0);
        let front = ids.drop_last();
        assert forall|j: int, k: int| 0 <= j < k < front.len() implies front[j].0
            != front[k].0 by {
            assert(ids[j].0 != ids[k].0);
        }
        imported_requests_keep_their_folders(front, i);
    }
}

/// A change of a request sets just what is given, each in its own column, and takes the request
/// out of its folder only where that is asked for.
pub proof fn changes_set_what_is_given(u: UpdateRequest, t: Seq<char>, id: Option<i64>)
    ensures
        request_updates(u).contains(("name"@, ColumnView::Text(t))) <==> text_view(u.name) == Some(
            t,
        ),
        request_updates(u).contains(("method"@, ColumnView::Text(t))) <==> text_view(u.method)
            == Some(t),
        request_updates(u).contains(("url"@, ColumnView::Text(t))) <==> text_view(u.url) == Some(t),
        request_updates(u).contains(("headers"@, ColumnView::Text(t))) <==> text_view(u.headers)
            == Some(t),
        request_updates(u).contains(("body"@, ColumnView::Text(t))) <==> text_view(u.body) == Some(
            t,
        ),
        request_updates(u).contains(("folder_id"@, ColumnView::Id(id))) <==> u.folder_id == Some(
            id,
        ),
{
    reveal_strlit("name");
    reveal_strlit("method");
    reveal_strlit("url");
    reveal_strlit("headers");
    reveal_strlit("body");
    assert("name"@.len() == 4 && "method"@.len() == 6 && "url"@.len() == 3);
    assert("headers"@.len() == 7 && "body"@.len() == 4);
    assert("name"@[0] == 'n' && "body"@[0] == 'b');
    let s = request_updates(u);
    let a = text_update("name"@, text_view(u.name));
    let b = text_update("method"@, text_view(u.method));
    let c = text_update("url"@, text_view(u.url));
    let d = text_update("headers"@, text_view(u.headers));
    let e = text_update("body"@, text_view(u.body));
    let f: Seq<(Seq<char>, ColumnView)> = match u.folder_id {
        Some(x) => seq![("folder_id"@, ColumnView::Id(x))],
        None => Seq::empty(),
    };
    let p = a.len() as int;
    let q = p + b.len();
    let r = q + c.len();
    let v = r + d.len();
    let w = v + e.len();
    assert(s =~= a + b + c + d + e + f);
    assert forall|i: int| 0 <= i < s.len() implies {
        &&& i < p ==> s[i] == a[i]
        &&& p <= i < q ==> s[i] == b[i - p]
        &&& q <= i < r ==> s[i] == c[i - q]
        &&& r <= i < v ==> s[i] == d[i - r]
        &&& v <= i < w ==> s[i] == e[i - v]
        &&& w <= i ==> s[i] == f[i - w]
    } by {}
    if a.len() > 0 {
        assert(s[0] == a[0]);
    }
    if b.len() > 0 {
        assert(s[p] == b[0]);
    }
    if c.len() > 0 {
        assert(s[q] == c[0]);
    }
    if d.len() > 0 {
        assert(s[r] == d[0]);
    }
    if e.len() > 0 {
        assert(s[v] == e[0]);
    }
    if f.len() > 0 {
        assert(s[w] == f[0]);
    }
}

/// A request is sent with the method that its word is in capitals, so long as there is one; any
/// other word stands for GET.
pub proof fn methods_are_those_of_their_words(word: Seq<char>)
    ensures
        ({
            let known = seq![
                "GET"@,
                "POST"@,
                "PUT"@,
                "DELETE"@,
                "PATCH"@,
                "HEAD"@,
                "OPTIONS"@,
            ];
            &&& known.contains(uppercase(word)) ==> method_of(word) == uppercase(word)
            &&& !known.contains(uppercase(word)) ==> method_of(word) == "GET"@
        }),
{
    let known = seq!["GET"@, "POST"@, "PUT"@, "DELETE"@, "PATCH"@, "HEAD"@, "OPTIONS"@];
    assert(known[0] == "GET"@ && known[1] == "POST"@ && known[2] == "PUT"@);
    assert(known[3] == "DELETE"@ && known[4] == "PATCH"@ && known[5] == "HEAD"@);
    assert(known[6] == "OPTIONS"@);
}

/// Headers are sent in their order, but for those without a name.
pub proof fn headers_without_a_name_are_not_sent(
    v: Seq<(Seq<char>, Seq<char>)>,
    h: (Seq<char>, Seq<char>),
)
    ensures
        h.0.len() > 0 ==> named_headers(v.push(h)) == named_headers(v).push(h),
        h.0.len() == 0 ==> named_headers(v.push(h)) == named_headers(v),
        named_headers(Seq::empty()).len() == 0,
{
    reveal(Seq::filter);
    assert(v.push(h).drop_last() =~= v);
}

/// An answer keeps all its headers, in their order and each with its own value, or an empty one
/// where that is no text.
pub proof fn answers_keep_their_headers(v: Seq<(String, Option<String>)>, i: int)
    requires
        0 <= i < v.len(),
    ensures
        answer_headers(v).len() == v.len(),
        answer_headers(v)[i].0 == v[i].0@,
        v[i].1 matches Some(t) ==> answer_headers(v)[i].1 == t@,
        v[i].1 is None ==> answer_headers(v)[i].1.len() == 0,
{
}

/// A request that is imported is read by the names of its parts. What is missing, or no text,
/// is empty, but for the method, which is GET, and the headers, which are none.
pub proof fn imported_requests_are_read_by_name(v: JsonView, t: Seq<char>, id: i64)
    ensures
        v.get("name"@) == Some(JsonView::Str(t)) ==> request_in(v).name == t,
        v.get("method"@) == Some(JsonView::Str(t)) ==> request_in(v).method == t,
        v.get("url"@) == Some(JsonView::Str(t)) ==> request_in(v).url == t,
        v.get("headers"@) == Some(JsonView::Str(t)) ==> request_in(v).headers == t,
        v.get("body"@) == Some(JsonView::Str(t)) ==> request_in(v).body == t,
        !(v.get("name"@) matches Some(JsonView::Str(_))) ==> request_in(v).name.len() == 0,
        !(v.get("method"@) matches Some(JsonView::Str(_))) ==> request_in(v).method == "GET"@,
        !(v.get("url"@) matches Some(JsonView::Str(_))) ==> request_in(v).url.len() == 0,
        !(v.get("headers"@) matches Some(JsonView::Str(_))) ==> request_in(v).headers == "[]"@,
        !(v.get("body"@) matches Some(JsonView::Str(_))) ==> request_in(v).body.len() == 0,
        v.get("folder_id"@) is None ==> request_in(v).old_folder is None,
        v.get("folder_id"@) == Some(JsonView::Null) ==> request_in(v).old_folder is None,
        id >= 0 && v.get("folder_id"@) == Some(JsonView::Unsigned(id as u64))
            ==> request_in(v).old_folder == Some(id),
        v.get("name"@) == Some(JsonView::Str(t)) ==> folder_in(v).0 == t,
        id >= 0 && v.get("id"@) == Some(JsonView::Unsigned(id as u64)) ==> folder_in(v).1 == id,
        v.get("id"@) is None ==> folder_in(v).1 == 0,
{
    reveal_strlit("");
}

/// Of several folders with the same old id the one that was made last counts, and a folder with
/// another id changes nothing.
pub proof fn the_last_folder_counts(ids: Seq<(i64, i64)>, old_id: i64, new_id: i64, id: i64)
    ensures
        new_id_of(ids.push((old_id, new_id)), old_id) == Some(new_id),
        id != old_id ==> new_id_of(ids.push((old_id, new_id)), id) == new_id_of(ids, id),
        new_id_of(Seq::empty(), id) is None,
{
    assert(ids.push((old_id, new_id)).drop_last() =~= ids);
}

} // verus!
