//! The code vault: snippets of code.

use vstd::prelude::*;

use crate::columns::{push_update, text_update, update_views, ColumnUpdate, ColumnView};
use crate::json::{no_fields, Fields, Json, JsonView};
use crate::text::text_view;

verus! {

/// What is changed of a snippet.
#[derive(Debug, PartialEq)]
pub struct UpdateSnippet {
    pub title: Option<String>,
    pub language: Option<String>,
    pub content: Option<String>,
}

/// The columns that a change of a snippet sets, in their order.
pub open spec fn snippet_updates(u: UpdateSnippet) -> Seq<(Seq<char>, ColumnView)> {
    text_update("title"@, text_view(u.title)) + text_update("language"@, text_view(u.language))
        + text_update("content"@, text_view(u.content))
}

/// The columns that a change of a snippet sets. Each of them also sets the time
/// of the change.
pub fn update_snippet(u: &UpdateSnippet) -> (r: Vec<ColumnUpdate>)
    ensures
        update_views(r@) == snippet_updates(*u),
{
    let mut out: Vec<ColumnUpdate> = Vec::new();
    assert(update_views(out@) =~= Seq::empty());
    push_update(&mut out, "title", &u.title);
    push_update(&mut out, "language", &u.language);
    push_update(&mut out, "content", &u.content);
    assert(update_views(out@) =~= snippet_updates(*u));
    out
}

/// What a client is told of an import of snippets.
pub fn import_json(imported: u64) -> (r: Json)
    ensures
        r@ == JsonView::Object(no_fields().push(("imported"@, JsonView::Unsigned(imported)))),
{
    Fields::new().number("imported", imported).object()
}

/// A change of a snippet sets just what is given, each in its own column.
pub proof fn changes_set_what_is_given(u: UpdateSnippet, t: Seq<char>)
    ensures
        snippet_updates(u).contains(("title"@, ColumnView::Text(t))) <==> text_view(u.title)
            == Some(t),
        snippet_updates(u).contains(("language"@, ColumnView::Text(t))) <==> text_view(u.language)
            == Some(t),
        snippet_updates(u).contains(("content"@, ColumnView::Text(t))) <==> text_view(u.content)
            == Some(t),
        snippet_updates(u).len() == (if u.title is Some {
            1int
        } else {
            0
        }) + (if u.language is Some {
            1int
        } else {
            0
        }) + (if u.content is Some {
            1int
        } else {
            0
        }),
{
    reveal_strlit("title");
    reveal_strlit("language");
    reveal_strlit("content");
    assert("title"@.len() == 5 && "language"@.len() == 8 && "content"@.len() == 7);
    let s = snippet_updates(u);
    let a = text_update("title"@, text_view(u.title));
    let b = text_update("language"@, text_view(u.language));
    let c = text_update("content"@, text_view(u.content));
    let n = a.len() as int;
    let m = n + b.len();
    if text_view(u.title) == Some(t) {
        assert(s[0] == a[0]);
    }
    if text_view(u.language) == Some(t) {
        assert(s[n] == b[0]);
    }
    if text_view(u.content) == Some(t) {
        assert(s[m] == c[0]);
    }
    assert forall|i: int| 0 <= i < s.len() implies (i < n ==> s[i] == a[i]) && (n <= i < m ==> s[i]
        == b[i - n]) && (m <= i ==> s[i] == c[i - m]) by {}
}

} // verus!
