//! Requests out of an OpenAPI description.

use vstd::prelude::*;
use vstd::string::*;

use crate::json::{
    array_view, field_place, fields, no_fields, object_view, values, Fields, Json, JsonView,
};
use crate::text::{ascii_raised, cat2, cat3, same, text_view};

verus! {

/// A field of a value is smaller than the value.
pub proof fn field_is_smaller(v: JsonView, key: Seq<char>)
    requires
        v.get(key) is Some,
    ensures
        decreases_to!(v => v.get(key)->0),
{
    match v {
        JsonView::Object(f) => {
            lemma_place(f, key, 0);
            let i = field_place(f, key, 0);
            assert(decreases_to!(v => v->Object_0[i].1));
        },
        _ => {},
    }
}

proof fn lemma_place(f: Seq<(Seq<char>, JsonView)>, key: Seq<char>, i: int)
    requires
        0 <= i <= f.len(),
    ensures
        i <= field_place(f, key, i) <= f.len(),
    decreases f.len() - i,
{
    if i < f.len() && f[i].0 != key {
        lemma_place(f, key, i + 1);
    }
}

/// The object that is the first of a list, in a field of a value.
pub open spec fn first_variant(v: JsonView, key: Seq<char>) -> Option<JsonView> {
    match v.get(key) {
        Some(JsonView::Array(a)) => if a.len() > 0 && a[0] is Object {
            Some(a[0])
        } else {
            None
        },
        _ => None,
    }
}

/// A variant of a value is smaller than the value.
pub proof fn variant_is_smaller(v: JsonView, key: Seq<char>)
    requires
        first_variant(v, key) is Some,
    ensures
        decreases_to!(v => first_variant(v, key)->0),
{
    field_is_smaller(v, key);
    let l = v.get(key)->0;
    assert(decreases_to!(l => l->Array_0[0]));
}

/// A sample of what a schema describes.
pub open spec fn sample_of(v: JsonView) -> JsonView
    decreases v, 0nat,
{
    match v.get("type"@) {
        Some(JsonView::Str(t)) => if t == "object"@ {
            match v.get("properties"@) {
                Some(p) => {
                    proof {
                        field_is_smaller(v, "properties"@);
                    }
                    match p {
                        JsonView::Object(f) => JsonView::Object(sample_fields(p, f.len())),
                        _ => JsonView::Object(no_fields()),
                    }
                },
                None => JsonView::Object(no_fields()),
            }
        } else if t == "array"@ {
            match v.get("items"@) {
                Some(items) => {
                    proof {
                        field_is_smaller(v, "items"@);
                    }
                    match items {
                        JsonView::Object(_) => JsonView::Array(seq![sample_of(items)]),
                        _ => JsonView::Array(seq![]),
                    }
                },
                None => JsonView::Array(seq![]),
            }
        } else if t == "string"@ {
            match v.get("enum"@) {
                Some(JsonView::Array(a)) => if a.len() > 0 {
                    a[0]
                } else {
                    JsonView::Str("string"@)
                },
                _ => JsonView::Str("string"@),
            }
        } else if t == "integer"@ || t == "number"@ {
            JsonView::Unsigned(0)
        } else if t == "boolean"@ {
            JsonView::Bool(false)
        } else if t == "null"@ {
            JsonView::Null
        } else {
            JsonView::Str("string"@)
        },
        _ => match first_variant(v, "allOf"@) {
            Some(x) => {
                proof {
                    variant_is_smaller(v, "allOf"@);
                }
                sample_of(x)
            },
            None => match first_variant(v, "oneOf"@) {
                Some(x) => {
                    proof {
                        variant_is_smaller(v, "oneOf"@);
                    }
                    sample_of(x)
                },
                None => match first_variant(v, "anyOf"@) {
                    Some(x) => {
                        proof {
                            variant_is_smaller(v, "anyOf"@);
                        }
                        sample_of(x)
                    },
                    None => JsonView::Str("string"@),
                },
            },
        },
    }
}

/// The samples of the first `n` properties of an object that have a schema.
pub open spec fn sample_fields(p: JsonView, n: nat) -> Seq<(Seq<char>, JsonView)>
    decreases p, n,
{
    match p {
        JsonView::Object(f) => if n == 0 || n > f.len() {
            no_fields()
        } else {
            let front = sample_fields(p, (n - 1) as nat);
            match f[n - 1].1 {
                JsonView::Object(_) => front.push((f[n - 1].0, sample_of(f[n - 1].1))),
                _ => front,
            }
        },
        _ => no_fields(),
    }
}

/// A sample of what a schema describes.
pub fn generate_from_schema(v: &Json) -> (r: Json)
    ensures
        r@ == sample_of(v@),
    decreases v@, 0nat,
{
    let none: Vec<Json> = Vec::new();
    proof {
        array_view(none);
        assert(values(none@) =~= seq![]);
    }
    match v.get("type") {
        Some(Json::Str(t)) => {
            let t = t.as_str();
            if same(t, "object") {
                match v.get("properties") {
                    Some(p) => {
                        proof {
                            field_is_smaller(v@, "properties"@);
                        }
                        match p {
                            Json::Object(_) => generate_properties(p),
                            _ => Fields::new().object(),
                        }
                    },
                    None => Fields::new().object(),
                }
            } else if same(t, "array") {
                match v.get("items") {
                    Some(items) => {
                        proof {
                            field_is_smaller(v@, "items"@);
                        }
                        match items {
                            Json::Object(_) => {
                                let mut list: Vec<Json> = Vec::new();
                                list.push(generate_from_schema(items));
                                proof {
                                    array_view(list);
                                    assert(values(list@) =~= seq![sample_of(items@)]);
                                }
                                Json::Array(list)
                            },
                            _ => Json::Array(none),
                        }
                    },
                    None => Json::Array(none),
                }
            } else if same(t, "string") {
                match v.get("enum") {
                    Some(Json::Array(a)) => {
                        proof {
                            array_view(*a);
                        }
                        if a.len() > 0 {
                            assert(values(a@)[0] == a@[0]@);
                            a[0].copy()
                        } else {
                            Json::Str("string".to_owned())
                        }
                    },
                    _ => Json::Str("string".to_owned()),
                }
            } else if same(t, "integer") || same(t, "number") {
                Json::Unsigned(0)
            } else if same(t, "boolean") {
                Json::Bool(false)
            } else if same(t, "null") {
                Json::Null
            } else {
                Json::Str("string".to_owned())
            }
        },
        _ => match pick_variant(v, "allOf") {
            Some(x) => {
                proof {
                    variant_is_smaller(v@, "allOf"@);
                }
                generate_from_schema(x)
            },
            None => match pick_variant(v, "oneOf") {
                Some(x) => {
                    proof {
                        variant_is_smaller(v@, "oneOf"@);
                    }
                    generate_from_schema(x)
                },
                None => match pick_variant(v, "anyOf") {
                    Some(x) => {
                        proof {
                            variant_is_smaller(v@, "anyOf"@);
                        }
                        generate_from_schema(x)
                    },
                    None => Json::Str("string".to_owned()),
                },
            },
        },
    }
}

fn pick_variant<'a>(v: &'a Json, key: &str) -> (r: Option<&'a Json>)
    ensures
        match r {
            Some(x) => first_variant(v@, key@) == Some(x@),
            None => first_variant(v@, key@) is None,
        },
{
    match v.get(key) {
        Some(Json::Array(a)) => {
            proof {
                array_view(*a);
            }
            if a.len() > 0 {
                assert(values(a@)[0] == a@[0]@);
                match &a[0] {
                    Json::Object(_) => Some(&a[0]),
                    _ => None,
                }
            } else {
                None
            }
        },
        _ => None,
    }
}

fn generate_properties(p: &Json) -> (r: Json)
    requires
        p@ is Object,
    ensures
        r@ == JsonView::Object(sample_fields(p@, p@->Object_0.len())),
    decreases p@, p@->Object_0.len(),
{
    match p {
        Json::Object(f) => {
            proof {
                object_view(*f);
            }
            let ghost all = fields(f@);
            let mut out = Fields::new();
            let mut i: usize = 0;
            while i < f.len()
                invariant
                    i <= f@.len(),
                    all == fields(f@),
                    p@ == JsonView::Object(all),
                    out@ == sample_fields(p@, i as nat),
                decreases f@.len() - i,
            {
                assert(all[i as int] == (f@[i as int].0@, f@[i as int].1@));
                match &f[i].1 {
                    Json::Object(_) => {
                        assert(decreases_to!(p@ => p@->Object_0[i as int].1));
                        let sample = generate_from_schema(&f[i].1);
                        out = out.with(f[i].0.as_str(), sample);
                    },
                    _ => {},
                }
                i += 1;
            }
            out.object()
        },
        _ => Fields::new().object(),
    }
}

/// A sample of a body out of a schema, when that is an object.
pub fn generate_sample_body(schema: &Json) -> (r: Option<Json>)
    ensures
        match r {
            Some(v) => schema@ is Object && v@ == sample_of(schema@),
            None => schema@ !is Object,
        },
{
    match schema {
        Json::Object(_) => Some(generate_from_schema(schema)),
        _ => None,
    }
}

/// A request that is imported.
#[derive(Debug, PartialEq)]
pub struct ImportedRequest {
    pub name: String,
    pub method: String,
    pub url: String,
    /// A sample of its body.
    pub sample: Option<Json>,
}

/// What a request that is imported stands for.
pub struct ImportedView {
    pub name: Seq<char>,
    pub method: Seq<char>,
    pub url: Seq<char>,
    pub sample: Option<JsonView>,
}

impl View for ImportedRequest {
    type V = ImportedView;

    open spec fn view(&self) -> ImportedView {
        ImportedView {
            name: self.name@,
            method: self.method@,
            url: self.url@,
            sample: match self.sample {
                Some(j) => Some(j@),
                None => None,
            },
        }
    }
}

/// The views of a list of requests.
pub open spec fn imported_views(v: Seq<ImportedRequest>) -> Seq<ImportedView> {
    Seq::new(v.len(), |i: int| v[i]@)
}

/// The requests of a path, and the folder they go to.
#[derive(Debug, PartialEq)]
pub struct PathImport {
    pub folder: String,
    pub requests: Vec<ImportedRequest>,
}

/// What the requests of a path stand for.
pub type PathView = (Seq<char>, Seq<ImportedView>);

impl View for PathImport {
    type V = PathView;

    open spec fn view(&self) -> PathView {
        (self.folder@, imported_views(self.requests@))
    }
}

/// The views of the requests of several paths.
pub open spec fn path_views(v: Seq<PathImport>) -> Seq<PathView> {
    Seq::new(v.len(), |i: int| v[i]@)
}

/// What is imported, path by path, and why it ends there.
#[derive(Debug, PartialEq)]
pub struct ImportPlan {
    pub paths: Vec<PathImport>,
    pub error: Option<String>,
}

/// The text in a field of a value, or another one.
pub open spec fn text_field(v: JsonView, key: Seq<char>, default: Seq<char>) -> Seq<char> {
    match v.get(key) {
        Some(JsonView::Str(s)) => s,
        _ => default,
    }
}

fn get_text(v: &Json, key: &str, default: &str) -> (r: String)
    ensures
        r@ == text_field(v@, key@, default@),
{
    match v.get(key) {
        Some(Json::Str(s)) => s.clone(),
        _ => default.to_owned(),
    }
}

/// The address of the first server that a description names.
pub open spec fn server_url(spec_: JsonView) -> Seq<char> {
    match spec_.get("servers"@) {
        Some(JsonView::Array(a)) => if a.len() > 0 {
            text_field(a[0], "url"@, Seq::empty())
        } else {
            Seq::empty()
        },
        _ => Seq::empty(),
    }
}

/// The address before every path: the one that is given, or that of the first
/// server.
pub open spec fn base_of(spec_: JsonView, base_url: Option<Seq<char>>) -> Seq<char> {
    match base_url {
        Some(b) => if b.len() > 0 {
            b
        } else {
            server_url(spec_)
        },
        None => server_url(spec_),
    }
}

/// The folder to which the requests of a path go: its first tag.
pub open spec fn folder_of(item: JsonView) -> Seq<char> {
    match item.get("tags"@) {
        Some(JsonView::Array(a)) => if a.len() > 0 {
            match a[0] {
                JsonView::Str(s) => s,
                _ => "Imported"@,
            }
        } else {
            "Imported"@
        },
        _ => "Imported"@,
    }
}

/// The methods of a path, by their names in a description and by themselves.
pub open spec fn methods() -> Seq<(Seq<char>, Seq<char>)> {
    seq![
        ("get"@, "GET"@),
        ("post"@, "POST"@),
        ("put"@, "PUT"@),
        ("delete"@, "DELETE"@),
        ("patch"@, "PATCH"@),
        ("head"@, "HEAD"@),
        ("options"@, "OPTIONS"@),
    ]
}

/// The field of a field of a value.
pub open spec fn field_in(v: Option<JsonView>, key: Seq<char>) -> Option<JsonView> {
    match v {
        Some(x) => x.get(key),
        None => None,
    }
}

/// A sample of the body of an operation, when it has one in JSON.
pub open spec fn body_sample(operation: JsonView) -> Option<JsonView> {
    let schema = field_in(
        field_in(
            field_in(operation.get("requestBody"@), "content"@),
            "application/json"@,
        ),
        "schema"@,
    );
    match schema {
        Some(JsonView::Object(f)) => Some(sample_of(JsonView::Object(f))),
        _ => None,
    }
}

/// The name of an operation: its id, else its summary, else its method and path.
pub open spec fn operation_name(operation: JsonView, method: Seq<char>, path: Seq<char>) -> Seq<
    char,
> {
    let id = text_field(operation, "operationId"@, Seq::empty());
    let summary = text_field(operation, "summary"@, Seq::empty());
    if id.len() > 0 {
        id
    } else if summary.len() > 0 {
        summary
    } else {
        method + " "@ + path
    }
}

/// The requests of a path for its first `n` methods.
pub open spec fn requests_of(base: Seq<char>, path: Seq<char>, item: JsonView, n: nat) -> Seq<
    ImportedView,
>
    decreases n,
{
    if n == 0 {
        Seq::empty()
    } else {
        let front = requests_of(base, path, item, (n - 1) as nat);
        let m = methods()[n - 1];
        match item.get(m.0) {
            Some(operation) => front.push(
                ImportedView {
                    name: operation_name(operation, m.1, path),
                    method: m.1,
                    url: base + path,
                    sample: body_sample(operation),
                },
            ),
            None => front,
        }
    }
}

/// What is imported of the first `n` paths, and why it ends there.
pub open spec fn imported(base: Seq<char>, paths: Seq<(Seq<char>, JsonView)>, n: nat) -> (
    Seq<PathView>,
    Option<Seq<char>>,
)
    decreases n,
{
    if n == 0 {
        (Seq::empty(), None)
    } else {
        let (front, error) = imported(base, paths, (n - 1) as nat);
        if error is Some {
            (front, error)
        } else {
            let (path, item) = paths[n - 1];
            match item {
                JsonView::Object(_) => (
                    front.push(
                        (folder_of(item), requests_of(base, path, item, methods().len())),
                    ),
                    None,
                ),
                _ => (front, Some("Path item is not an object"@)),
            }
        }
    }
}

/// A path that is no object ends the import.
proof fn lemma_import_ends(base: Seq<char>, paths: Seq<(Seq<char>, JsonView)>, n: nat, m: nat)
    requires
        n <= m,
        imported(base, paths, n).1 is Some,
    ensures
        imported(base, paths, m) == imported(base, paths, n),
    decreases m,
{
    if n < m {
        lemma_import_ends(base, paths, n, (m - 1) as nat);
    }
}

fn find_base(v: &Json, base_url: &Option<String>) -> (r: String)
    ensures
        r@ == base_of(v@, text_view(*base_url)),
{
    match base_url {
        Some(b) => if b.as_str().unicode_len() > 0 {
            return b.clone();
        },
        None => {},
    }
    proof {
        reveal_strlit("");
        assert(""@ =~= Seq::<char>::empty());
    }
    match v.get("servers") {
        Some(Json::Array(a)) => {
            proof {
                array_view(*a);
            }
            if a.len() > 0 {
                assert(values(a@)[0] == a@[0]@);
                get_text(&a[0], "url", "")
            } else {
                "".to_owned()
            }
        },
        _ => "".to_owned(),
    }
}

fn find_folder(item: &Json) -> (r: String)
    ensures
        r@ == folder_of(item@),
{
    match item.get("tags") {
        Some(Json::Array(a)) => {
            proof {
                array_view(*a);
            }
            if a.len() > 0 {
                assert(values(a@)[0] == a@[0]@);
                match &a[0] {
                    Json::Str(s) => s.clone(),
                    _ => "Imported".to_owned(),
                }
            } else {
                "Imported".to_owned()
            }
        },
        _ => "Imported".to_owned(),
    }
}

fn find_sample(operation: &Json) -> (r: Option<Json>)
    ensures
        match r {
            Some(v) => body_sample(operation@) == Some(v@),
            None => body_sample(operation@) is None,
        },
{
    match operation.get("requestBody") {
        Some(b) => match b.get("content") {
            Some(c) => match c.get("application/json") {
                Some(j) => match j.get("schema") {
                    Some(s) => generate_sample_body(s),
                    None => None,
                },
                None => None,
            },
            None => None,
        },
        None => None,
    }
}

fn method_at(i: usize) -> (r: (&'static str, &'static str))
    requires
        i < 7,
    ensures
        r.0@ == methods()[i as int].0,
        r.1@ == methods()[i as int].1,
{
    if i == 0 {
        ("get", "GET")
    } else if i == 1 {
        ("post", "POST")
    } else if i == 2 {
        ("put", "PUT")
    } else if i == 3 {
        ("delete", "DELETE")
    } else if i == 4 {
        ("patch", "PATCH")
    } else if i == 5 {
        ("head", "HEAD")
    } else {
        ("options", "OPTIONS")
    }
}

fn path_requests(base: &str, path: &str, item: &Json) -> (r: Vec<ImportedRequest>)
    ensures
        imported_views(r@) == requests_of(base@, path@, item@, methods().len()),
{
    let mut out: Vec<ImportedRequest> = Vec::new();
    let mut i: usize = 0;
    assert(methods().len() == 7);
    assert(imported_views(out@) =~= Seq::empty());
    proof {
        reveal_strlit("");
        assert(""@ =~= Seq::<char>::empty());
    }
    while i < 7
        invariant
            i <= 7,
            ""@ == Seq::<char>::empty(),
            imported_views(out@) == requests_of(base@, path@, item@, i as nat),
        decreases 7 - i,
    {
        let ghost before = imported_views(out@);
        let (name, upper) = method_at(i);
        match item.get(name) {
            Some(operation) => {
                let id = get_text(operation, "operationId", "");
                let summary = get_text(operation, "summary", "");
                let title = if id.as_str().unicode_len() > 0 {
                    id
                } else if summary.as_str().unicode_len() > 0 {
                    summary
                } else {
                    cat3(upper, " ", path)
                };
                let request = ImportedRequest {
                    name: title,
                    method: upper.to_owned(),
                    url: cat2(base, path),
                    sample: find_sample(operation),
                };
                out.push(request);
                assert(imported_views(out@) =~= before.push(request@));
            },
            None => {},
        }
        i += 1;
    }
    out
}

/// Decides what is imported of an OpenAPI description: for each path, the folder
/// and the requests. A path that is no object ends the import; what came before
/// it is imported all the same.
pub fn import_openapi(description: &Json, base_url: &Option<String>) -> (r: Result<
    ImportPlan,
    String,
>)
    ensures
        match description@.get("paths"@) {
            Some(JsonView::Object(paths)) => r matches Ok(p) && (
                path_views(p.paths@),
                text_view(p.error),
            ) == imported(
                base_of(description@, text_view(*base_url)),
                paths,
                paths.len(),
            ),
            _ => r matches Err(e) && e@ == "No paths found in OpenAPI spec"@,
        },
{
    let base = find_base(description, base_url);
    match description.get("paths") {
        Some(Json::Object(f)) => {
            proof {
                object_view(*f);
            }
            let ghost all = fields(f@);
            let mut paths: Vec<PathImport> = Vec::new();
            let mut i: usize = 0;
            assert(path_views(paths@) =~= Seq::empty());
            while i < f.len()
                invariant
                    i <= f@.len(),
                    all == fields(f@),
                    description@.get("paths"@) == Some(JsonView::Object(all)),
                    base@ == base_of(description@, text_view(*base_url)),
                    imported(base@, all, i as nat) == (path_views(paths@), None::<Seq<char>>),
                decreases f@.len() - i,
            {
                let ghost before = path_views(paths@);
                let path = f[i].0.as_str();
                let item = &f[i].1;
                assert(all[i as int] == (path@, item@));
                match item {
                    Json::Object(_) => {
                        let p = PathImport {
                            folder: find_folder(item),
                            requests: path_requests(base.as_str(), path, item),
                        };
                        paths.push(p);
                        assert(path_views(paths@) =~= before.push(p@));
                    },
                    _ => {
                        proof {
                            lemma_import_ends(base@, all, (i + 1) as nat, all.len());
                        }
                        return Ok(
                            ImportPlan {
                                paths,
                                error: Some("Path item is not an object".to_owned()),
                            },
                        );
                    },
                }
                i += 1;
            }
            Ok(ImportPlan { paths, error: None })
        },
        _ => Err("No paths found in OpenAPI spec".to_owned()),
    }
}

/// Tells whether a description names an operation of a path by a key.
pub open spec fn is_method_key(key: Seq<char>) -> bool {
    key == "get"@ || key == "post"@ || key == "put"@ || key == "delete"@ || key == "patch"@ || key
        == "head"@ || key == "options"@
}

/// Tells whether a request is the one of an operation, which stands under a key in a path.
pub open spec fn is_request_of(
    r: ImportedView,
    base: Seq<char>,
    path: Seq<char>,
    key: Seq<char>,
    operation: JsonView,
) -> bool {
    let id = match operation.get("operationId"@) {
        Some(JsonView::Str(t)) => t,
        _ => Seq::empty(),
    };
    let summary = match operation.get("summary"@) {
        Some(JsonView::Str(t)) => t,
        _ => Seq::empty(),
    };
    &&& r.method == ascii_raised(key)
    &&& r.url == base + path
    &&& id.len() > 0 ==> r.name == id
    &&& id.len() == 0 && summary.len() > 0 ==> r.name == summary
    &&& id.len() == 0 && summary.len() == 0 ==> r.name == r.method + " "@ + path
    &&& r.sample == (match operation.get("requestBody"@) {
        Some(body) => match body.get("content"@) {
            Some(content) => match content.get("application/json"@) {
                Some(json) => match json.get("schema"@) {
                    Some(JsonView::Object(f)) => Some(sample_of(JsonView::Object(f))),
                    _ => None,
                },
                None => None,
            },
            None => None,
        },
        None => None,
    })
}

/// Tells whether the operation under a key of a path is among some requests.
pub open spec fn is_imported(
    all: Seq<ImportedView>,
    base: Seq<char>,
    path: Seq<char>,
    item: JsonView,
    key: Seq<char>,
) -> bool {
    exists|i: int|
        0 <= i < all.len() && is_request_of(#[trigger] all[i], base, path, key, item.get(key)->0)
}

/// Tells whether a request is that of an operation of a path.
pub open spec fn has_operation(
    r: ImportedView,
    base: Seq<char>,
    path: Seq<char>,
    item: JsonView,
) -> bool {
    exists|key: Seq<char>|
        is_method_key(key) && (#[trigger] item.get(key)) is Some && is_request_of(
            r,
            base,
            path,
            key,
            item.get(key)->0,
        )
}

/// The methods stand in a description by their names in small letters.
proof fn lemma_methods()
    ensures
        methods().len() == 7,
        methods()[0] == ("get"@, ascii_raised("get"@)),
        methods()[1] == ("post"@, ascii_raised("post"@)),
        methods()[2] == ("put"@, ascii_raised("put"@)),
        methods()[3] == ("delete"@, ascii_raised("delete"@)),
        methods()[4] == ("patch"@, ascii_raised("patch"@)),
        methods()[5] == ("head"@, ascii_raised("head"@)),
        methods()[6] == ("options"@, ascii_raised("options"@)),
        forall|i: int, j: int|
            0 <= i < j < 7 ==> (#[trigger] methods()[i]).1 != (#[trigger] methods()[j]).1,
{
    reveal_strlit("get");
    reveal_strlit("GET");
    reveal_strlit("post");
    reveal_strlit("POST");
    reveal_strlit("put");
    reveal_strlit("PUT");
    reveal_strlit("delete");
    reveal_strlit("DELETE");
    reveal_strlit("patch");
    reveal_strlit("PATCH");
    reveal_strlit("head");
    reveal_strlit("HEAD");
    reveal_strlit("options");
    reveal_strlit("OPTIONS");
    assert("GET"@ =~= ascii_raised("get"@));
    assert("POST"@ =~= ascii_raised("post"@));
    assert("PUT"@ =~= ascii_raised("put"@));
    assert("DELETE"@ =~= ascii_raised("delete"@));
    assert("PATCH"@ =~= ascii_raised("patch"@));
    assert("HEAD"@ =~= ascii_raised("head"@));
    assert("OPTIONS"@ =~= ascii_raised("options"@));
    assert("GET"@[0] == 'G' && "PUT"@[0] == 'P');
    assert("POST"@[0] == 'P' && "HEAD"@[0] == 'H');
}

/// For every operation of a path a request is imported whose method is the key of the
/// operation in capitals, at the address of the path, under the name of the operation and
/// with a sample of its body. Nothing else is imported, and no two requests of a path have
/// the same method.
pub proof fn operations_become_requests(base: Seq<char>, path: Seq<char>, item: JsonView)
    ensures
        ({
            let all = requests_of(base, path, item, methods().len());
            &&& forall|key: Seq<char>|
                is_method_key(key) && (#[trigger] item.get(key)) is Some ==> is_imported(
                    all,
                    base,
                    path,
                    item,
                    key,
                )
            &&& forall|i: int|
                0 <= i < all.len() ==> has_operation(#[trigger] all[i], base, path, item)
            &&& forall|i: int, j: int|
                0 <= i < j < all.len() ==> (#[trigger] all[i]).method != (#[trigger] all[j]).method
        }),
{
    assert(methods().len() == 7);
    let all = requests_of(base, path, item, 7);
    assert forall|key: Seq<char>|
        is_method_key(key) && (#[trigger] item.get(key)) is Some implies is_imported(
        all,
        base,
        path,
        item,
        key,
    ) by {
        let k = lemma_key_has_place(key);
        let i = lemma_operation_is_imported(base, path, item, 7, k);
        lemma_made_is_request(all[i], base, path, item, k);
    }
    assert forall|i: int| 0 <= i < all.len() implies has_operation(
        #[trigger] all[i],
        base,
        path,
        item,
    ) by {
        let k = lemma_request_has_operation(base, path, item, 7, i);
        lemma_made_is_request(all[i], base, path, item, k);
    }
    assert forall|i: int, j: int| 0 <= i < j < all.len() implies (#[trigger] all[i]).method != (
    #[trigger] all[j]).method by {
        lemma_methods_differ(base, path, item, 7, i, j);
    }
}

/// Where the method of a key stands.
proof fn lemma_key_has_place(key: Seq<char>) -> (k: int)
    requires
        is_method_key(key),
    ensures
        0 <= k < 7,
        methods()[k].0 == key,
{
    if key == "get"@ {
        0
    } else if key == "post"@ {
        1
    } else if key == "put"@ {
        2
    } else if key == "delete"@ {
        3
    } else if key == "patch"@ {
        4
    } else if key == "head"@ {
        5
    } else {
        6
    }
}

proof fn lemma_made_is_request(
    r: ImportedView,
    base: Seq<char>,
    path: Seq<char>,
    item: JsonView,
    k: int,
)
    requires
        0 <= k < 7,
        is_made_of(r, base, path, item, k),
    ensures
        is_method_key(methods()[k].0),
        item.get(methods()[k].0) is Some,
        is_request_of(r, base, path, methods()[k].0, item.get(methods()[k].0)->0),
{
    lemma_methods();
}

/// Tells whether a request is the one of the operation under the method at `k`.
spec fn is_made_of(
    r: ImportedView,
    base: Seq<char>,
    path: Seq<char>,
    item: JsonView,
    k: int,
) -> bool {
    &&& item.get(methods()[k].0) is Some
    &&& r.method == methods()[k].1
    &&& r.url == base + path
    &&& r.name == operation_name(item.get(methods()[k].0)->0, methods()[k].1, path)
    &&& r.sample == body_sample(item.get(methods()[k].0)->0)
}

proof fn lemma_operation_is_imported(
    base: Seq<char>,
    path: Seq<char>,
    item: JsonView,
    n: nat,
    k: int,
) -> (i: int)
    requires
        0 <= k < n <= 7,
        item.get(methods()[k].0) is Some,
    ensures
        0 <= i < requests_of(base, path, item, n).len(),
        is_made_of(requests_of(base, path, item, n)[i], base, path, item, k),
    decreases n,
{
    if k < n - 1 {
        lemma_operation_is_imported(base, path, item, (n - 1) as nat, k)
    } else {
        requests_of(base, path, item, n).len() - 1
    }
}

proof fn lemma_request_has_operation(
    base: Seq<char>,
    path: Seq<char>,
    item: JsonView,
    n: nat,
    i: int,
) -> (k: int)
    requires
        n <= 7,
        0 <= i < requests_of(base, path, item, n).len(),
    ensures
        0 <= k < n,
        is_made_of(requests_of(base, path, item, n)[i], base, path, item, k),
    decreases n,
{
    let front = requests_of(base, path, item, (n - 1) as nat);
    if i < front.len() {
        lemma_request_has_operation(base, path, item, (n - 1) as nat, i)
    } else {
        n - 1
    }
}

proof fn lemma_methods_differ(
    base: Seq<char>,
    path: Seq<char>,
    item: JsonView,
    n: nat,
    i: int,
    j: int,
)
    requires
        n <= 7,
        0 <= i < j < requests_of(base, path, item, n).len(),
    ensures
        requests_of(base, path, item, n)[i].method != requests_of(base, path, item, n)[j].method,
    decreases n,
{
    let front = requests_of(base, path, item, (n - 1) as nat);
    if j < front.len() {
        lemma_methods_differ(base, path, item, (n - 1) as nat, i, j);
    } else {
        let k = lemma_request_has_operation(base, path, item, (n - 1) as nat, i);
        lemma_methods();
        assert(methods()[k].1 != methods()[n - 1].1);
    }
}

/// The paths of a description are imported in their order, each with its own requests, at
/// the address that was given, or else at that of the first server. They go to the folder of
/// the first tag, or to one for all that was imported.
pub proof fn paths_are_imported_in_order(
    description: JsonView,
    base_url: Option<Seq<char>>,
    paths: Seq<(Seq<char>, JsonView)>,
    n: nat,
)
    requires
        n <= paths.len(),
        forall|i: int| 0 <= i < n ==> (#[trigger] paths[i]).1 is Object,
    ensures
        ({
            let base = base_of(description, base_url);
            let (all, error) = imported(base, paths, n);
            &&& error is None
            &&& all.len() == n
            &&& forall|i: int|
                0 <= i < n ==> (#[trigger] all[i]).1 == requests_of(
                    base,
                    paths[i].0,
                    paths[i].1,
                    methods().len(),
                ) && is_folder_of(all[i].0, paths[i].1)
            &&& match base_url {
                Some(b) => if b.len() > 0 {
                    base == b
                } else {
                    is_server_of(base, description)
                },
                None => is_server_of(base, description),
            }
        }),
    decreases n,
{
    if n > 0 {
        paths_are_imported_in_order(description, base_url, paths, (n - 1) as nat);
        assert(paths[n - 1].1 is Object);
    }
}

/// Tells whether an address is that of the first server that a description names, or empty
/// where it names none.
pub open spec fn is_server_of(base: Seq<char>, description: JsonView) -> bool {
    match description.get("servers"@) {
        Some(JsonView::Array(a)) => if a.len() > 0 && a[0].get("url"@) is Some && a[0].get(
            "url"@,
        )->0 is Str {
            a[0].get("url"@) == Some(JsonView::Str(base))
        } else {
            base.len() == 0
        },
        _ => base.len() == 0,
    }
}

/// Tells whether a folder is that of the first tag of a path, or the one for all that was
/// imported where there is no such tag.
pub open spec fn is_folder_of(folder: Seq<char>, item: JsonView) -> bool {
    match item.get("tags"@) {
        Some(JsonView::Array(a)) => if a.len() > 0 && a[0] is Str {
            a[0] == JsonView::Str(folder)
        } else {
            folder == "Imported"@
        },
        _ => folder == "Imported"@,
    }
}

/// A path that is no object ends the import, and the paths before it are imported.
pub proof fn a_broken_path_ends_the_import(
    base: Seq<char>,
    paths: Seq<(Seq<char>, JsonView)>,
    i: nat,
)
    requires
        i < paths.len(),
        paths[i as int].1 !is Object,
        forall|j: int| 0 <= j < i ==> (#[trigger] paths[j]).1 is Object,
    ensures
        imported(base, paths, paths.len()).0 == imported(base, paths, i).0,
        imported(base, paths, paths.len()).1 is Some,
{
    lemma_all_imported(base, paths, i);
    lemma_import_ends(base, paths, i + 1, paths.len());
}

proof fn lemma_all_imported(base: Seq<char>, paths: Seq<(Seq<char>, JsonView)>, n: nat)
    requires
        forall|j: int| 0 <= j < n ==> (#[trigger] paths[j]).1 is Object,
    ensures
        imported(base, paths, n).1 is None,
    decreases n,
{
    if n > 0 {
        lemma_all_imported(base, paths, (n - 1) as nat);
        assert(paths[n - 1].1 is Object);
    }
}

/// A sample is of the type that its schema names: an object with a sample of each property
/// that has a schema, a list with a sample of its items, one of the texts that are allowed,
/// zero, false or null.
pub proof fn samples_fit_their_schema(v: JsonView, t: Seq<char>)
    requires
        v.get("type"@) == Some(JsonView::Str(t)),
    ensures
        t == "object"@ ==> sample_of(v) is Object,
        t == "object"@ && (v.get("properties"@) matches Some(JsonView::Object(_))) ==> {
            let props = v.get("properties"@)->0->Object_0;
            forall|i: int|
                0 <= i < props.len() && (#[trigger] props[i]).1 is Object ==> sample_of(v).says(
                    props[i].0,
                    sample_of(props[i].1),
                )
        },
        t == "array"@ ==> sample_of(v) is Array,
        t == "array"@ && (v.get("items"@) matches Some(JsonView::Object(_))) ==> sample_of(v)
            == JsonView::Array(seq![sample_of(v.get("items"@)->0)]),
        t == "string"@ ==> match v.get("enum"@) {
            Some(JsonView::Array(a)) => a.len() > 0 ==> sample_of(v) == a[0],
            _ => sample_of(v) is Str,
        },
        t == "integer"@ || t == "number"@ ==> sample_of(v) == JsonView::Unsigned(0),
        t == "boolean"@ ==> sample_of(v) == JsonView::Bool(false),
        t == "null"@ ==> sample_of(v) == JsonView::Null,
{
    lemma_types_differ();
    if t == "object"@ {
        match v.get("properties"@) {
            Some(p) => match p {
                JsonView::Object(f) => {
                    assert forall|i: int| 0 <= i < f.len() && (#[trigger] f[i]).1 is Object implies
                        sample_of(v).says(f[i].0, sample_of(f[i].1)) by {
                        lemma_sample_fields(p, f.len(), i);
                    }
                },
                _ => {},
            },
            None => {},
        }
    }
}

proof fn lemma_sample_fields(p: JsonView, n: nat, i: int)
    requires
        p is Object,
        0 <= i < n <= p->Object_0.len(),
        p->Object_0[i].1 is Object,
    ensures
        sample_fields(p, n).contains((p->Object_0[i].0, sample_of(p->Object_0[i].1))),
    decreases n,
{
    let f = p->Object_0;
    let all = sample_fields(p, n);
    let front = sample_fields(p, (n - 1) as nat);
    let wanted = (f[i].0, sample_of(f[i].1));
    if i < n - 1 {
        lemma_sample_fields(p, (n - 1) as nat, i);
        let k = choose|k: int| 0 <= k < front.len() && front[k] == wanted;
        assert(all[k] == wanted);
    } else {
        assert(all[all.len() - 1] == wanted);
    }
}

proof fn lemma_types_differ()
    ensures
        "object"@.len() == 6,
        "array"@.len() == 5,
        "string"@.len() == 6,
        "integer"@.len() == 7,
        "number"@.len() == 6,
        "boolean"@.len() == 7,
        "null"@.len() == 4,
        "object"@ != "string"@,
        "object"@ != "number"@,
        "string"@ != "number"@,
        "integer"@ != "boolean"@,
{
    reveal_strlit("object");
    reveal_strlit("array");
    reveal_strlit("string");
    reveal_strlit("integer");
    reveal_strlit("number");
    reveal_strlit("boolean");
    reveal_strlit("null");
    assert("object"@[0] == 'o' && "string"@[0] == 's' && "number"@[0] == 'n');
    assert("integer"@[0] == 'i' && "boolean"@[0] == 'b');
}

/// A schema without a type is that of its first variant, of all, of one or of any, looked
/// for in that order.
pub proof fn variants_stand_for_a_schema(v: JsonView, x: JsonView)
    requires
        v.get("type"@) is None,
        x is Object,
    ensures
        first_is(v, "allOf"@, x) ==> sample_of(v) == sample_of(x),
        v.get("allOf"@) is None && first_is(v, "oneOf"@, x) ==> sample_of(v) == sample_of(x),
        v.get("allOf"@) is None && v.get("oneOf"@) is None && first_is(v, "anyOf"@, x)
            ==> sample_of(v) == sample_of(x),
        v.get("allOf"@) is None && v.get("oneOf"@) is None && v.get("anyOf"@) is None
            ==> sample_of(v) == JsonView::Str("string"@),
{
}

/// Tells whether a field is a list that begins with a value.
pub open spec fn first_is(v: JsonView, key: Seq<char>, x: JsonView) -> bool {
    v.get(key) matches Some(JsonView::Array(a)) && a.len() > 0 && a[0] == x
}

} // verus!
