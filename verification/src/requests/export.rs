//! Folders and requests as they are exported.

use vstd::prelude::*;
use vstd::string::*;

use crate::json::{array_view, field_place, no_fields, values, Fields, Json, JsonView};
use crate::requests::collections::{
    folder_in, list_of, request_in, request_views, CollectionRequestView, Folder, RequestView,
    SavedRequest,
};

verus! {

/// A whole number as a value.
pub open spec fn integer(n: i64) -> JsonView {
    if n >= 0 {
        JsonView::Unsigned(n as u64)
    } else {
        JsonView::Negative(n)
    }
}

fn integer_json(n: i64) -> (r: Json)
    ensures
        r@ == integer(n),
{
    if n >= 0 {
        Json::Unsigned(n as u64)
    } else {
        Json::Negative(n)
    }
}

/// A folder as a value.
pub open spec fn folder_value(f: Folder) -> JsonView {
    JsonView::Object(
        no_fields().push(("id"@, integer(f.id))).push(("name"@, JsonView::Str(f.name@))).push(
            ("created_at"@, JsonView::Str(f.created_at@)),
        ),
    )
}

/// The id of the folder of a request as a value.
pub open spec fn folder_id_value(id: Option<i64>) -> JsonView {
    match id {
        Some(n) => integer(n),
        None => JsonView::Null,
    }
}

/// A request as a value.
pub open spec fn request_value(r: RequestView) -> JsonView {
    JsonView::Object(
        no_fields().push(("id"@, integer(r.id))).push(("name"@, JsonView::Str(r.name))).push(
            ("method"@, JsonView::Str(r.method)),
        ).push(("url"@, JsonView::Str(r.url))).push(("headers"@, JsonView::Str(r.headers))).push(
            ("body"@, JsonView::Str(r.body)),
        ).push(("folder_id"@, folder_id_value(r.folder_id))).push(
            ("created_at"@, JsonView::Str(r.created_at)),
        ),
    )
}

/// All folders and requests as a value.
pub open spec fn exported(folders: Seq<Folder>, requests: Seq<RequestView>) -> JsonView {
    JsonView::Object(
        no_fields().push(
            (
                "folders"@,
                JsonView::Array(Seq::new(folders.len(), |i: int| folder_value(folders[i]))),
            ),
        ).push(
            (
                "requests"@,
                JsonView::Array(Seq::new(requests.len(), |i: int| request_value(requests[i]))),
            ),
        ),
    )
}

/// Exports all folders and requests.
pub fn export_collections(folders: &Vec<Folder>, requests: &Vec<SavedRequest>) -> (r: Json)
    ensures
        r@ == exported(folders@, request_views(requests@)),
{
    let mut fs: Vec<Json> = Vec::new();
    let mut i: usize = 0;
    while i < folders.len()
        invariant
            i <= folders@.len(),
            fs@.len() == i,
            forall|j: int| 0 <= j < i ==> (#[trigger] fs@[j])@ == folder_value(folders@[j]),
        decreases folders@.len() - i,
    {
        let f = &folders[i];
        let v = Fields::new().with("id", integer_json(f.id)).text("name", f.name.as_str()).text(
            "created_at",
            f.created_at.as_str(),
        ).object();
        fs.push(v);
        i += 1;
    }
    let ghost all = request_views(requests@);
    let mut rs: Vec<Json> = Vec::new();
    let mut k: usize = 0;
    while k < requests.len()
        invariant
            k <= requests@.len(),
            all == request_views(requests@),
            rs@.len() == k,
            forall|j: int| 0 <= j < k ==> (#[trigger] rs@[j])@ == request_value(all[j]),
        decreases requests@.len() - k,
    {
        let q = &requests[k];
        assert(all[k as int] == q@);
        let folder = match q.folder_id {
            Some(n) => integer_json(n),
            None => Json::Null,
        };
        let v = Fields::new().with("id", integer_json(q.id)).text("name", q.name.as_str()).text(
            "method",
            q.method.as_str(),
        ).text("url", q.url.as_str()).text("headers", q.headers.as_str()).text(
            "body",
            q.body.as_str(),
        ).with("folder_id", folder).text("created_at", q.created_at.as_str()).object();
        rs.push(v);
        k += 1;
    }
    proof {
        array_view(fs);
        array_view(rs);
        assert(values(fs@) =~= Seq::new(folders@.len(), |i: int| folder_value(folders@[i])));
        assert(values(rs@) =~= Seq::new(all.len(), |i: int| request_value(all[i])));
    }
    Fields::new().with("folders", Json::Array(fs)).with("requests", Json::Array(rs)).object()
}

/// What is imported of a request that was exported.
pub open spec fn kept_of(r: RequestView) -> CollectionRequestView {
    CollectionRequestView {
        name: r.name,
        method: r.method,
        url: r.url,
        headers: r.headers,
        body: r.body,
        old_folder: r.folder_id,
    }
}

/// An import finds what was exported: every folder with its name and id, and
/// every request with its texts and its folder, in the same order.
pub proof fn import_finds_what_was_exported(folders: Seq<Folder>, requests: Seq<RequestView>)
    ensures
        ({
            let v = exported(folders, requests);
            let fs = list_of(v, "folders"@);
            let rs = list_of(v, "requests"@);
            &&& fs.len() == folders.len()
            &&& forall|i: int|
                0 <= i < fs.len() ==> folder_in(#[trigger] fs[i]) == (
                    folders[i].name@,
                    folders[i].id,
                )
            &&& rs.len() == requests.len()
            &&& forall|i: int|
                0 <= i < rs.len() ==> request_in(#[trigger] rs[i]) == kept_of(requests[i])
        }),
{
    let v = exported(folders, requests);
    lemma_keys_differ();
    reveal_with_fuel(field_place, 3);
    let fs = list_of(v, "folders"@);
    let rs = list_of(v, "requests"@);
    assert forall|i: int| 0 <= i < fs.len() implies folder_in(#[trigger] fs[i]) == (
        folders[i].name@,
        folders[i].id,
    ) by {
        assert(fs[i] == folder_value(folders[i]));
        reveal_with_fuel(field_place, 4);
    }
    assert forall|i: int| 0 <= i < rs.len() implies request_in(#[trigger] rs[i]) == kept_of(
        requests[i],
    ) by {
        assert(rs[i] == request_value(requests[i]));
        reveal_with_fuel(field_place, 9);
    }
}

proof fn lemma_keys_differ()
    ensures
        "folders"@ != "requests"@,
        "id"@ != "name"@,
        "id"@ != "method"@,
        "id"@ != "url"@,
        "id"@ != "headers"@,
        "id"@ != "body"@,
        "id"@ != "folder_id"@,
        "name"@ != "method"@,
        "name"@ != "url"@,
        "name"@ != "headers"@,
        "name"@ != "body"@,
        "name"@ != "folder_id"@,
        "method"@ != "url"@,
        "method"@ != "headers"@,
        "method"@ != "body"@,
        "method"@ != "folder_id"@,
        "url"@ != "headers"@,
        "url"@ != "body"@,
        "url"@ != "folder_id"@,
        "headers"@ != "body"@,
        "headers"@ != "folder_id"@,
        "body"@ != "folder_id"@,
{
    reveal_strlit("folders");
    reveal_strlit("requests");
    reveal_strlit("id");
    reveal_strlit("name");
    reveal_strlit("method");
    reveal_strlit("url");
    reveal_strlit("headers");
    reveal_strlit("body");
    reveal_strlit("folder_id");
    assert("folders"@.len() == 7);
    assert("requests"@.len() == 8);
    assert("id"@.len() == 2);
    assert("name"@.len() == 4);
    assert("method"@.len() == 6);
    assert("url"@.len() == 3);
    assert("headers"@.len() == 7);
    assert("body"@.len() == 4);
    assert("folder_id"@.len() == 9);
    assert("folders"@[0] == 'f');
    assert("headers"@[0] == 'h');
    assert("name"@[0] == 'n');
    assert("body"@[0] == 'b');
}

/// A folder and a request are exported under the names of what they hold, and a request that is
/// in no folder says so.
pub proof fn exports_are_told_by_name(f: Folder, r: RequestView)
    ensures
        folder_value(f).says("name"@, JsonView::Str(f.name@)),
        folder_value(f).says("created_at"@, JsonView::Str(f.created_at@)),
        f.id >= 0 ==> folder_value(f).says("id"@, JsonView::Unsigned(f.id as u64)),
        f.id < 0 ==> folder_value(f).says("id"@, JsonView::Negative(f.id)),
        request_value(r).says("name"@, JsonView::Str(r.name)),
        request_value(r).says("method"@, JsonView::Str(r.method)),
        request_value(r).says("url"@, JsonView::Str(r.url)),
        request_value(r).says("headers"@, JsonView::Str(r.headers)),
        request_value(r).says("body"@, JsonView::Str(r.body)),
        request_value(r).says("created_at"@, JsonView::Str(r.created_at)),
        r.id >= 0 ==> request_value(r).says("id"@, JsonView::Unsigned(r.id as u64)),
        r.id < 0 ==> request_value(r).says("id"@, JsonView::Negative(r.id)),
        r.folder_id is None ==> request_value(r).says("folder_id"@, JsonView::Null),
        r.folder_id matches Some(id) ==> (id >= 0 ==> request_value(r).says(
            "folder_id"@,
            JsonView::Unsigned(id as u64),
        )),
{
    let a = folder_value(f)->Object_0;
    assert(a[0].0 == "id"@ && a[1].0 == "name"@ && a[2].0 == "created_at"@);
    assert(a.contains(a[0]) && a.contains(a[1]) && a.contains(a[2]));
    let b = request_value(r)->Object_0;
    assert(b[0].0 == "id"@ && b[1].0 == "name"@ && b[2].0 == "method"@ && b[3].0 == "url"@);
    assert(b[4].0 == "headers"@ && b[5].0 == "body"@ && b[6].0 == "folder_id"@);
    assert(b[7].0 == "created_at"@);
    assert(b.contains(b[0]) && b.contains(b[1]) && b.contains(b[2]) && b.contains(b[3]));
    assert(b.contains(b[4]) && b.contains(b[5]) && b.contains(b[6]) && b.contains(b[7]));
}

} // verus!
