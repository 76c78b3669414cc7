use noide::columns::{deletion_reply, push_update, ColumnUpdate, ColumnValue};
use noide::json::{Fields, Json};
use noide::path::{data_file, Platform};
use noide::requests::collections::{
    http_response, import_folders, import_requests, lacks_folder_column, new_folder,
    list_requests, send_failure, send_http, update_folder, update_request, CollectionItem,
    CollectionRequest, Folder, HeaderPair, ImportedFolder, SavedRequest, UpdateRequest,
};
use noide::requests::export::export_collections;
use noide::requests::import::{
    import_reply, Import, ImportAction, ImportBody, ImportEvent, ImportRow,
};
use noide::requests::openapi::{
    generate_from_schema, generate_sample_body, import_openapi, ImportPlan, ImportedRequest,
    PathImport,
};
use noide::requests::restore::{import_collections, CollectionsAction, CollectionsEvent};
use noide::vault::{import_json, update_snippet, UpdateSnippet};

fn t(s: &str) -> String {
    s.to_string()
}

fn js(s: &str) -> Json {
    Json::Str(s.to_string())
}

fn obj(fields: Vec<(&str, Json)>) -> Json {
    Json::Object(fields.into_iter().map(|(k, v)| (k.to_string(), v)).collect())
}

fn folder(id: i64, name: &str) -> Folder {
    Folder { id, name: t(name), created_at: t("then") }
}

fn request(id: i64, folder_id: Option<i64>) -> SavedRequest {
    SavedRequest {
        id,
        name: format!("r{}", id),
        method: t("PUT"),
        url: t("http://x/"),
        headers: t("[1]"),
        body: t("{}"),
        folder_id,
        created_at: t("now"),
    }
}

fn layout(v: &[CollectionItem]) -> Vec<(i64, Vec<i64>)> {
    v.iter().map(|c| (c.id, c.requests.iter().map(|r| r.id).collect())).collect()
}

#[test]
fn requests_are_listed_in_their_folders() {
    let folders = vec![folder(5, "a"), folder(3, "b")];
    let requests = vec![
        request(1, Some(3)),
        request(2, None),
        request(4, Some(3)),
        request(6, Some(99)),
        request(7, None),
    ];
    let got = list_requests(&folders, &requests);
    assert_eq!(layout(&got), vec![(5, vec![]), (3, vec![1, 4]), (0, vec![2, 7])]);
    assert_eq!((got[0].name.as_str(), got[0].created_at.as_str()), ("a", "then"));
    assert_eq!((got[2].name.as_str(), got[2].created_at.as_str()), ("", ""));
    assert_eq!(got[1].requests[1], request(4, Some(3)));
    assert_eq!(layout(&list_requests(&vec![], &vec![])), vec![]);
    assert_eq!(layout(&list_requests(&vec![folder(0, "z")], &vec![])), vec![]);
}

#[test]
fn changes_set_only_what_is_given() {
    let set = |column: &'static str, text: &str| ColumnUpdate {
        column,
        value: ColumnValue::Text(t(text)),
    };
    let u = UpdateRequest {
        name: Some(t("n")),
        method: None,
        url: Some(t("u")),
        headers: None,
        body: Some(t("")),
        folder_id: Some(None),
    };
    assert_eq!(
        update_request(&u),
        vec![
            set("name", "n"),
            set("url", "u"),
            set("body", ""),
            ColumnUpdate { column: "folder_id", value: ColumnValue::Id(None) },
        ]
    );
    assert_eq!(update_folder(&Some(t("n"))), vec![set("name", "n")]);
    assert_eq!(update_folder(&None), vec![]);
    let u = UpdateSnippet { title: None, language: Some(t("rust")), content: Some(t("fn")) };
    assert_eq!(update_snippet(&u), vec![set("language", "rust"), set("content", "fn")]);
    let mut out = vec![set("a", "1")];
    push_update(&mut out, "b", &None);
    push_update(&mut out, "b", &Some(t("2")));
    assert_eq!(out, vec![set("a", "1"), set("b", "2")]);
}

#[test]
fn replies_count_what_was_done() {
    assert_eq!(deletion_reply(0), Fields::new().flag("deleted", false).object());
    assert_eq!(deletion_reply(2), Fields::new().flag("deleted", true).object());
    assert_eq!(import_json(3), Fields::new().number("imported", 3).object());
    assert_eq!(
        import_reply(1, 2),
        Fields::new().number("imported_folders", 1).number("imported_requests", 2).object()
    );
}

#[test]
fn data_is_kept_below_the_first_directory_there_is() {
    assert_eq!(data_file(Platform::Unix, &Some(t("/l")), &Some(t("/d")), "x.db"), "/l/noide/x.db");
    assert_eq!(data_file(Platform::Unix, &None, &Some(t("/d")), "x.db"), "/d/noide/x.db");
    assert_eq!(data_file(Platform::Unix, &None, &None, "x.db"), "./noide/x.db");
    assert!(lacks_folder_column(&vec![t("id"), t("folder")]));
    assert!(!lacks_folder_column(&vec![t("id"), t("folder_id")]));
}

#[test]
fn requests_are_sent_as_they_are_meant() {
    let pair = |k: &str, v: &str| HeaderPair { key: t(k), value: t(v) };
    let p = send_http(
        "post",
        t("http://h/"),
        Some(vec![pair("A", "1"), pair("", "2"), pair("B", "")]),
        Some(t("x")),
        Some(5),
    );
    assert_eq!(p.method, "POST");
    assert_eq!(p.url, "http://h/");
    assert_eq!(p.headers, vec![pair("A", "1"), pair("B", "")]);
    assert_eq!(p.body, Some(t("x")));
    assert_eq!(p.timeout, 5);
    let p = send_http("brew", t("u"), None, Some(t("")), None);
    assert_eq!((p.method, p.headers.len(), p.body, p.timeout), ("GET", 0, None, 30));
    for m in ["PUT", "DELETE", "PATCH", "HEAD", "OPTIONS", "GET"] {
        assert_eq!(send_http(&m.to_lowercase(), t("u"), None, None, None).method, m);
    }
}

#[test]
fn answers_are_told_in_full() {
    let headers = vec![(t("a"), Some(t("1"))), (t("b"), None)];
    let r = http_response(404, Some(t("Not Found")), &headers, t("body"), 12);
    assert_eq!((r.status, r.status_text.as_str(), r.elapsed_ms), (404, "Not Found", 12));
    assert_eq!(
        r.headers,
        vec![
            HeaderPair { key: t("a"), value: t("1") },
            HeaderPair { key: t("b"), value: t("") },
        ]
    );
    assert_eq!(r.body, "body");
    assert_eq!(http_response(799, None, &vec![], t(""), 0).status_text, "Unknown");
    assert_eq!(send_failure(false, "e"), "Request failed: e");
    assert_eq!(send_failure(true, "e"), "Failed to read response: e");
}

#[test]
fn imports_fill_in_what_is_missing() {
    let input = obj(vec![
        ("folders", Json::Array(vec![
            obj(vec![("id", Json::Unsigned(4)), ("name", js("f"))]),
            obj(vec![("id", js("4"))]),
            Json::Null,
        ])),
        ("requests", Json::Array(vec![
            obj(vec![]),
            obj(vec![
                ("name", js("n")),
                ("method", js("PUT")),
                ("url", js("u")),
                ("headers", js("h")),
                ("body", js("b")),
                ("folder_id", Json::Negative(-4)),
            ]),
        ])),
    ]);
    assert_eq!(
        import_folders(&input),
        vec![
            ImportedFolder { name: t("f"), old_id: 4 },
            ImportedFolder { name: t(""), old_id: 0 },
            ImportedFolder { name: t(""), old_id: 0 },
        ]
    );
    let got = import_requests(&input);
    assert_eq!(
        got[0],
        CollectionRequest {
            name: t(""),
            method: t("GET"),
            url: t(""),
            headers: t("[]"),
            body: t(""),
            old_folder: None,
        }
    );
    assert_eq!((got[1].name.as_str(), got[1].old_folder), ("n", Some(-4)));
    assert_eq!(got.len(), 2);
    assert_eq!(import_folders(&Json::Null), vec![]);
    assert_eq!(import_requests(&obj(vec![("requests", js("x"))])), vec![]);
}

#[test]
fn imported_requests_follow_their_folders() {
    let ids = vec![(1, 10), (2, 20), (1, 30)];
    assert_eq!(new_folder(&ids, Some(1)), Some(30));
    assert_eq!(new_folder(&ids, Some(2)), Some(20));
    assert_eq!(new_folder(&ids, Some(3)), None);
    assert_eq!(new_folder(&ids, None), None);
}

#[test]
fn an_export_can_be_imported() {
    let folders = vec![folder(7, "seven"), folder(8, "eight")];
    let requests = vec![request(1, Some(8)), request(2, None)];
    let all = export_collections(&folders, &requests);
    assert_eq!(
        all.get("folders"),
        Some(&Json::Array(vec![
            obj(vec![
                ("id", Json::Unsigned(7)),
                ("name", js("seven")),
                ("created_at", js("then")),
            ]),
            obj(vec![
                ("id", Json::Unsigned(8)),
                ("name", js("eight")),
                ("created_at", js("then")),
            ]),
        ]))
    );
    let back = import_folders(&all);
    assert_eq!(back[1], ImportedFolder { name: t("eight"), old_id: 8 });
    let back = import_requests(&all);
    assert_eq!(
        back[0],
        CollectionRequest {
            name: t("r1"),
            method: t("PUT"),
            url: t("http://x/"),
            headers: t("[1]"),
            body: t("{}"),
            old_folder: Some(8),
        }
    );
    assert_eq!(back[1].old_folder, None);
}

fn typed(name: &str) -> Json {
    obj(vec![("type", js(name))])
}

#[test]
fn samples_follow_their_schema() {
    assert_eq!(generate_from_schema(&typed("integer")), Json::Unsigned(0));
    assert_eq!(generate_from_schema(&typed("number")), Json::Unsigned(0));
    assert_eq!(generate_from_schema(&typed("boolean")), Json::Bool(false));
    assert_eq!(generate_from_schema(&typed("null")), Json::Null);
    assert_eq!(generate_from_schema(&typed("string")), js("string"));
    assert_eq!(generate_from_schema(&typed("file")), js("string"));
    assert_eq!(generate_from_schema(&obj(vec![])), js("string"));
    assert_eq!(generate_from_schema(&typed("array")), Json::Array(vec![]));
    assert_eq!(generate_from_schema(&typed("object")), obj(vec![]));
    let picked = obj(vec![
        ("type", js("string")),
        ("enum", Json::Array(vec![js("red"), js("blue")])),
    ]);
    assert_eq!(generate_from_schema(&picked), js("red"));
    let none = obj(vec![("type", js("string")), ("enum", Json::Array(vec![]))]);
    assert_eq!(generate_from_schema(&none), js("string"));
}

#[test]
fn samples_go_down_into_their_parts() {
    let schema = obj(vec![
        ("type", js("object")),
        (
            "properties",
            obj(vec![
                ("ids", obj(vec![("type", js("array")), ("items", typed("integer"))])),
                ("odd", Json::Bool(true)),
                ("one", obj(vec![("oneOf", Json::Array(vec![typed("boolean")]))])),
                (
                    "two",
                    obj(vec![
                        ("allOf", Json::Array(vec![js("no object")])),
                        ("anyOf", Json::Array(vec![typed("null")])),
                    ]),
                ),
            ]),
        ),
    ]);
    let sample = obj(vec![
        ("ids", Json::Array(vec![Json::Unsigned(0)])),
        ("one", Json::Bool(false)),
        ("two", Json::Null),
    ]);
    assert_eq!(generate_sample_body(&schema), Some(sample));
    assert_eq!(generate_sample_body(&Json::Bool(true)), None);
}

#[test]
fn descriptions_become_requests() {
    let body = obj(vec![(
        "content",
        obj(vec![("application/json", obj(vec![("schema", typed("boolean"))]))]),
    )]);
    let spec = obj(vec![
        ("servers", Json::Array(vec![obj(vec![("url", js("http://s"))])])),
        (
            "paths",
            obj(vec![
                (
                    "/a",
                    obj(vec![
                        ("tags", Json::Array(vec![js("first"), js("second")])),
                        ("post", obj(vec![("summary", js("Make")), ("requestBody", body)])),
                        ("get", obj(vec![("operationId", js("getA")), ("summary", js("no"))])),
                    ]),
                ),
                ("/b", obj(vec![("delete", Json::Null)])),
            ]),
        ),
    ]);
    let plan = import_openapi(&spec, &None).unwrap();
    assert_eq!(plan.error, None);
    let req = |name: &str, method: &str, url: &str, sample: Option<Json>| ImportedRequest {
        name: t(name),
        method: t(method),
        url: t(url),
        sample,
    };
    assert_eq!(
        plan.paths,
        vec![
            PathImport {
                folder: t("first"),
                requests: vec![
                    req("getA", "GET", "http://s/a", None),
                    req("Make", "POST", "http://s/a", Some(Json::Bool(false))),
                ],
            },
            PathImport {
                folder: t("Imported"),
                requests: vec![req("DELETE /b", "DELETE", "http://s/b", None)],
            },
        ]
    );
    let plan = import_openapi(&spec, &Some(t("http://mine"))).unwrap();
    assert_eq!(plan.paths[0].requests[0].url, "http://mine/a");
    let plan = import_openapi(&spec, &Some(t(""))).unwrap();
    assert_eq!(plan.paths[0].requests[0].url, "http://s/a");
}

#[test]
fn descriptions_end_at_an_odd_path() {
    let spec = obj(vec![(
        "paths",
        obj(vec![("/a", obj(vec![])), ("/b", Json::Null), ("/c", obj(vec![]))]),
    )]);
    let plan = import_openapi(&spec, &None).unwrap();
    assert_eq!(plan.paths.len(), 1);
    assert_eq!(plan.error, Some(t("Path item is not an object")));
    assert_eq!(
        import_openapi(&obj(vec![("paths", Json::Null)]), &None),
        Err(t("No paths found in OpenAPI spec"))
    );
}

/// Performs an import on some folders. Gives the answer and what was stored.
fn imported_into(
    plan: ImportPlan,
    folders: &mut Vec<(String, i64)>,
) -> (Result<Json, String>, Vec<ImportRow>) {
    let mut import = Import::new(plan);
    let mut event = ImportEvent::Begin;
    let mut rows = Vec::new();
    loop {
        assert!(import.has_room());
        event = match import.step(event) {
            ImportAction::FindFolder(n) => {
                ImportEvent::Found(folders.iter().find(|f| f.0 == n).map(|f| f.1))
            }
            ImportAction::MakeFolder(n) => {
                let id = 10 + folders.len() as i64;
                folders.push((n, id));
                ImportEvent::Made(Ok(id))
            }
            ImportAction::Insert(row) => {
                rows.push(row);
                ImportEvent::Inserted(None)
            }
            ImportAction::Done(r) => return (r, rows),
        };
    }
}

fn row(name: &str, method: &str, url: &str, body: ImportBody, folder: i64) -> ImportRow {
    ImportRow {
        name: t(name),
        method: t(method),
        url: t(url),
        headers: t("[]"),
        body,
        folder_id: Some(folder),
    }
}

#[test]
fn imports_make_the_folders_that_are_missing() {
    let spec = obj(vec![
        ("servers", Json::Array(vec![obj(vec![("url", js("https://h"))])])),
        (
            "paths",
            obj(vec![(
                "/x",
                obj(vec![
                    ("get", obj(vec![("operationId", js("getX")), ("summary", js("S"))])),
                    ("post", obj(vec![("summary", js("S2"))])),
                ]),
            )]),
        ),
    ]);
    let empty = || ImportBody::Text(String::new());
    let mut folders = vec![];
    let plan = import_openapi(&spec, &None).unwrap();
    let (answer, rows) = imported_into(plan, &mut folders);
    assert_eq!(answer, Ok(import_reply(1, 2)));
    assert_eq!(folders, vec![(t("Imported"), 10)]);
    assert_eq!(
        rows,
        vec![
            row("getX", "GET", "https://h/x", empty(), 10),
            row("S2", "POST", "https://h/x", empty(), 10),
        ]
    );
    let mut folders = vec![(t("other"), 1), (t("Imported"), 2), (t("Imported"), 3)];
    let plan = import_openapi(&spec, &None).unwrap();
    let (answer, rows) = imported_into(plan, &mut folders);
    assert_eq!(answer, Ok(import_reply(0, 2)));
    assert_eq!(folders.len(), 3);
    assert_eq!(rows[1].folder_id, Some(2));
}

fn two_paths(error: Option<&str>) -> ImportPlan {
    let one = |sample: Option<Json>| ImportedRequest {
        name: t("n"),
        method: t("GET"),
        url: t("u"),
        sample,
    };
    ImportPlan {
        paths: vec![
            PathImport { folder: t("a"), requests: vec![one(Some(Json::Bool(true)))] },
            PathImport { folder: t("b"), requests: vec![] },
            PathImport { folder: t("a"), requests: vec![one(None)] },
        ],
        error: error.map(t),
    }
}

#[test]
fn imports_use_a_folder_again() {
    let mut folders = vec![];
    let (answer, rows) = imported_into(two_paths(None), &mut folders);
    assert_eq!(answer, Ok(import_reply(2, 2)));
    assert_eq!(folders, vec![(t("a"), 10), (t("b"), 11)]);
    assert_eq!(rows[0], row("n", "GET", "u", ImportBody::Sample(Json::Bool(true)), 10));
    assert_eq!(rows[1], row("n", "GET", "u", ImportBody::Text(String::new()), 10));
    let mut folders = vec![];
    let (answer, rows) = imported_into(two_paths(Some("odd")), &mut folders);
    assert_eq!(answer, Err(t("odd")));
    assert_eq!(rows.len(), 2);
}

#[test]
fn imports_end_at_what_cannot_be_stored() {
    let mut import = Import::new(two_paths(None));
    assert_eq!(import.step(ImportEvent::Begin), ImportAction::FindFolder(t("a")));
    assert_eq!(import.step(ImportEvent::Found(None)), ImportAction::MakeFolder(t("a")));
    assert_eq!(
        import.step(ImportEvent::Made(Err(t("full")))),
        ImportAction::Done(Err(t("full")))
    );
    let mut import = Import::new(two_paths(None));
    import.step(ImportEvent::Begin);
    match import.step(ImportEvent::Found(Some(7))) {
        ImportAction::Insert(row) => assert_eq!(row.folder_id, Some(7)),
        other => panic!("{:?}", other),
    }
    assert_eq!(
        import.step(ImportEvent::Inserted(Some(t("full")))),
        ImportAction::Done(Err(t("full")))
    );
}

#[test]
fn collections_are_stored_again() {
    let folders = vec![folder(5, "a"), folder(3, "b")];
    let requests = vec![request(1, Some(3)), request(2, None), request(4, Some(99))];
    let mut import = import_collections(&export_collections(&folders, &requests));
    assert_eq!(import.step(CollectionsEvent::Begin), CollectionsAction::MakeFolder(t("a")));
    assert_eq!(import.step(CollectionsEvent::Made(Ok(70))), CollectionsAction::MakeFolder(t("b")));
    let stored = |id: i64, folder_id: Option<i64>| {
        CollectionsAction::Insert(ImportRow {
            name: format!("r{}", id),
            method: t("PUT"),
            url: t("http://x/"),
            headers: t("[1]"),
            body: ImportBody::Text(t("{}")),
            folder_id,
        })
    };
    assert_eq!(import.step(CollectionsEvent::Made(Ok(71))), stored(1, Some(71)));
    assert_eq!(import.step(CollectionsEvent::Inserted(None)), stored(2, None));
    assert_eq!(import.step(CollectionsEvent::Inserted(None)), stored(4, None));
    assert_eq!(
        import.step(CollectionsEvent::Inserted(None)),
        CollectionsAction::Done(Ok(import_reply(2, 3)))
    );
}

#[test]
fn collections_end_at_what_cannot_be_stored() {
    let all = export_collections(&vec![folder(5, "a")], &vec![request(1, None)]);
    let failed = || CollectionsAction::Done(Err(t("full")));
    let mut import = import_collections(&all);
    import.step(CollectionsEvent::Begin);
    assert_eq!(import.step(CollectionsEvent::Made(Err(t("full")))), failed());
    let mut import = import_collections(&all);
    import.step(CollectionsEvent::Begin);
    import.step(CollectionsEvent::Made(Ok(1)));
    assert_eq!(import.step(CollectionsEvent::Inserted(Some(t("full")))), failed());
    let mut import = import_collections(&Json::Null);
    assert_eq!(
        import.step(CollectionsEvent::Begin),
        CollectionsAction::Done(Ok(import_reply(0, 0)))
    );
}
