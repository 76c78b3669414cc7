//! Changes to the rows of a table.

use vstd::prelude::*;

use crate::json::{no_fields, Fields, Json, JsonView};
use crate::text::text_view;

verus! {

/// A value for a column.
#[derive(Debug, PartialEq)]
pub enum ColumnValue {
    Text(String),
    Id(Option<i64>),
}

/// What a value for a column stands for.
pub enum ColumnView {
    Text(Seq<char>),
    Id(Option<i64>),
}

impl View for ColumnValue {
    type V = ColumnView;

    open spec fn view(&self) -> ColumnView {
        match self {
            ColumnValue::Text(t) => ColumnView::Text(t@),
            ColumnValue::Id(i) => ColumnView::Id(*i),
        }
    }
}

/// A column to be set.
#[derive(Debug, PartialEq)]
pub struct ColumnUpdate {
    pub column: &'static str,
    pub value: ColumnValue,
}

/// The views of a list of columns to be set.
pub open spec fn update_views(v: Seq<ColumnUpdate>) -> Seq<(Seq<char>, ColumnView)> {
    Seq::new(v.len(), |i: int| (v[i].column@, v[i].value@))
}

/// What is to be set of a text, when it is given.
pub open spec fn text_update(column: Seq<char>, value: Option<Seq<char>>) -> Seq<
    (Seq<char>, ColumnView),
> {
    match value {
        Some(t) => seq![(column, ColumnView::Text(t))],
        None => Seq::empty(),
    }
}

/// Sets a text, when it is given.
pub fn push_update(out: &mut Vec<ColumnUpdate>, column: &'static str, value: &Option<String>)
    ensures
        update_views(final(out)@) == update_views(old(out)@) + text_update(
            column@,
            text_view(*value),
        ),
{
    let ghost before = update_views(out@);
    match value {
        Some(t) => {
            out.push(ColumnUpdate { column, value: ColumnValue::Text(t.clone()) });
            assert(update_views(out@) =~= before + text_update(column@, text_view(*value)));
        },
        None => {
            assert(update_views(out@) =~= before + text_update(column@, text_view(*value)));
        },
    }
}

/// What a client is told of a deletion, by the number of rows that went.
pub fn deletion_reply(affected: u64) -> (r: Json)
    ensures
        r@ == JsonView::Object(no_fields().push(("deleted"@, JsonView::Bool(affected > 0)))),
{
    Fields::new().flag("deleted", affected > 0).object()
}

} // verus!
