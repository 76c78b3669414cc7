//! The tree of a directory.

use vstd::prelude::*;
use vstd::string::*;

use crate::json::{array_view, no_fields, values, Fields, Json, JsonView};
use crate::order::{
    before, in_order, lemma_placed, lemma_placed_mapped, mapped, placed, rank_before, seconds, slot,
};
use crate::order::{Rank, RankView, Sorter};
use crate::path::{extension, extension_of, Platform};
use crate::text::{cat2, chars_of, lowercase, same, text_view, to_lowercase};

verus! {

/// What kind of thing a directory lists.
#[derive(Debug, Clone, Copy, PartialEq, Eq, Structural)]
pub enum EntryKind {
    Dir,
    File,
    /// A link, and whether it leads to a directory, when that is known.
    Link(Option<bool>),
    /// Something else, and whether it is a directory, when that is known.
    Other(Option<bool>),
    /// The kind cannot be found out.
    Unknown,
}

/// Tells whether something of a kind counts as a directory.
pub open spec fn counts_as_dir(kind: EntryKind) -> bool {
    match kind {
        EntryKind::Dir => true,
        EntryKind::File => false,
        EntryKind::Link(d) => d == Some(true),
        EntryKind::Other(d) => d == Some(true),
        EntryKind::Unknown => false,
    }
}

/// Tells whether something of a kind counts as a directory.
pub fn is_directory(kind: EntryKind) -> (r: bool)
    ensures
        r == counts_as_dir(kind),
{
    match kind {
        EntryKind::Dir => true,
        EntryKind::File => false,
        EntryKind::Link(Some(d)) => d,
        EntryKind::Other(Some(d)) => d,
        _ => false,
    }
}

/// What a directory lists under a name.
#[derive(Debug, PartialEq)]
pub struct RawEntry {
    pub name: String,
    pub path: String,
    pub kind: EntryKind,
    pub size: Option<u64>,
    /// When it was changed, in seconds.
    pub modified: Option<u64>,
    /// What it lists itself, when it was looked into.
    pub listing: RawDir,
}

/// One item of a listing.
#[derive(Debug, PartialEq)]
pub enum RawItem {
    /// The item could not be read.
    Fault(String),
    Entry(RawEntry),
}

/// What a directory lists.
#[derive(Debug, PartialEq)]
pub enum RawDir {
    /// The directory was not looked into.
    Unread,
    /// The directory could not be read.
    Unreadable(String),
    Items(Vec<RawItem>),
}

/// A file or directory.
#[derive(Debug, PartialEq)]
pub struct FileNode {
    pub name: String,
    pub path: String,
    pub is_directory: bool,
    pub children: Option<Vec<FileNode>>,
    pub extension: Option<String>,
    pub size: Option<u64>,
    pub modified: Option<u64>,
}

/// What a node stands for.
pub struct NodeView {
    pub name: Seq<char>,
    pub path: Seq<char>,
    pub is_directory: bool,
    pub children: Option<Seq<NodeView>>,
    pub extension: Option<Seq<char>>,
    pub size: Option<u64>,
    pub modified: Option<u64>,
}

impl FileNode {
    /// What the node stands for.
    pub open spec fn meaning(self) -> NodeView
        decreases self,
    {
        NodeView {
            name: self.name@,
            path: self.path@,
            is_directory: self.is_directory,
            children: match self.children {
                None => None,
                Some(v) => Some(
                    Seq::new(
                        v@.len(),
                        |i: int|
                            if 0 <= i < v@.len() {
                                v@[i].meaning()
                            } else {
                                arbitrary()
                            },
                    ),
                ),
            },
            extension: text_view(self.extension),
            size: self.size,
            modified: self.modified,
        }
    }
}

impl View for FileNode {
    type V = NodeView;

    open spec fn view(&self) -> NodeView {
        self.meaning()
    }
}

/// The views of a list of nodes.
pub open spec fn node_views(v: Seq<FileNode>) -> Seq<NodeView> {
    Seq::new(v.len(), |i: int| v[i]@)
}

/// The view of a node is made of the views of its children.
pub proof fn node_view(n: FileNode)
    ensures
        n@ == (NodeView {
            name: n.name@,
            path: n.path@,
            is_directory: n.is_directory,
            children: match n.children {
                None => None,
                Some(v) => Some(node_views(v@)),
            },
            extension: text_view(n.extension),
            size: n.size,
            modified: n.modified,
        }),
{
    reveal_with_fuel(FileNode::meaning, 2);
    match n.children {
        None => {},
        Some(v) => {
            assert(n@.children->0 =~= node_views(v@));
        },
    }
}

/// Tells whether a tree leaves something out because of its name.
pub open spec fn left_out(name: Seq<char>) -> bool {
    name == ".git"@ || name == "node_modules"@ || name == "target"@ || name == "dist"@
}

/// Tells whether a tree leaves something out because of its name.
pub fn is_left_out(name: &str) -> (r: bool)
    ensures
        r == left_out(name@),
{
    same(name, ".git") || same(name, "node_modules") || same(name, "target") || same(name, "dist")
}

/// Tells whether a tree goes down into something.
pub open spec fn goes_down(name: Seq<char>, kind: EntryKind, max_depth: int, depth: int) -> bool {
    !left_out(name) && counts_as_dir(kind) && depth < max_depth
}

/// Tells whether a tree goes down into something, so that it has to be looked
/// into.
pub fn descends(name: &str, kind: EntryKind, max_depth: u32, depth: u32) -> (r: bool)
    ensures
        r == goes_down(name@, kind, max_depth as int, depth as int),
{
    !is_left_out(name) && is_directory(kind) && depth < max_depth
}

/// The rank of a node among its siblings: directories come first, and names are
/// told apart by their small forms.
pub open spec fn node_rank(is_dir: bool, name: Seq<char>) -> RankView {
    RankView {
        group: if is_dir {
            0
        } else {
            1
        },
        text: lowercase(name),
    }
}

/// The nodes of a directory, in their order, or why they cannot be told. A
/// directory further down whose nodes cannot be told has none.
pub open spec fn tree_of(os: Platform, d: RawDir, max_depth: int, depth: int) -> Result<
    Seq<NodeView>,
    Seq<char>,
>
    decreases d, 0nat,
{
    match d {
        RawDir::Unread => Ok(Seq::empty()),
        RawDir::Unreadable(e) => Err("Failed to read directory: "@ + e@),
        RawDir::Items(v) => match ranked_nodes(os, v, v@.len(), max_depth, depth) {
            Ok(s) => Ok(seconds(s)),
            Err(e) => Err(e),
        },
    }
}

/// The nodes of the first `n` items of a listing, with their ranks and in their
/// order, or why they cannot be told.
pub open spec fn ranked_nodes(
    os: Platform,
    v: Vec<RawItem>,
    n: nat,
    max_depth: int,
    depth: int,
) -> Result<Seq<(RankView, NodeView)>, Seq<char>>
    decreases v, n,
{
    if n == 0 || n > v@.len() {
        Ok(Seq::empty())
    } else {
        match ranked_nodes(os, v, (n - 1) as nat, max_depth, depth) {
            Err(e) => Err(e),
            Ok(before) => match v@[n - 1] {
                RawItem::Fault(e) => Err("Failed to read entry: "@ + e@),
                RawItem::Entry(x) => if left_out(x.name@) {
                    Ok(before)
                } else {
                    let is_dir = counts_as_dir(x.kind);
                    let children = if is_dir && depth < max_depth {
                        match tree_of(os, x.listing, max_depth, depth + 1) {
                            Ok(c) => Some(c),
                            Err(_) => Some(Seq::empty()),
                        }
                    } else {
                        None
                    };
                    Ok(
                        placed(
                            before,
                            node_rank(is_dir, x.name@),
                            NodeView {
                                name: x.name@,
                                path: x.path@,
                                is_directory: is_dir,
                                children,
                                extension: if is_dir {
                                    None
                                } else {
                                    extension(os, x.name@)
                                },
                                size: x.size,
                                modified: x.modified,
                            },
                        ),
                    )
                },
            },
        }
    }
}

/// Once an item cannot be told, no later one makes up for it.
proof fn lemma_fault_stays(
    os: Platform,
    v: Vec<RawItem>,
    n: nat,
    m: nat,
    max_depth: int,
    depth: int,
)
    requires
        n <= m <= v@.len(),
        ranked_nodes(os, v, n, max_depth, depth) is Err,
    ensures
        ranked_nodes(os, v, m, max_depth, depth) == ranked_nodes(os, v, n, max_depth, depth),
    decreases m,
{
    if n < m {
        lemma_fault_stays(os, v, n, (m - 1) as nat, max_depth, depth);
    }
}

/// The view of a list of nodes or of an error.
pub open spec fn tree_view(r: Result<Vec<FileNode>, String>) -> Result<Seq<NodeView>, Seq<char>> {
    match r {
        Ok(v) => Ok(node_views(v@)),
        Err(e) => Err(e@),
    }
}

/// The tree of a directory: directories first, then by name, down to a depth. A
/// directory further down that cannot be read is shown without children.
pub fn read_dir_recursive(os: Platform, d: &RawDir, max_depth: u32, depth: u32) -> (r: Result<
    Vec<FileNode>,
    String,
>)
    ensures
        tree_view(r) == tree_of(os, *d, max_depth as int, depth as int),
    decreases d,
{
    match d {
        RawDir::Unread => {
            let none: Vec<FileNode> = Vec::new();
            assert(node_views(none@) =~= Seq::empty());
            Ok(none)
        },
        RawDir::Unreadable(e) => Err(cat2("Failed to read directory: ", e.as_str())),
        RawDir::Items(v) => {
            let ghost f = |n: FileNode| n.meaning();
            let mut sorter: Sorter<FileNode> = Sorter::new();
            let mut i: usize = 0;
            assert(mapped(sorter@, f) =~= Seq::empty());
            while i < v.len()
                invariant
                    i <= v@.len(),
                    d == RawDir::Items(*v),
                    f == (|n: FileNode| n.meaning()),
                    sorter.wf(),
                    ranked_nodes(os, *v, i as nat, max_depth as int, depth as int) == Ok::<
                        Seq<(RankView, NodeView)>,
                        Seq<char>,
                    >(mapped(sorter@, f)),
                decreases v@.len() - i,
            {
                let ghost before = sorter@;
                match &v[i] {
                    RawItem::Fault(e) => {
                        proof {
                            lemma_fault_stays(
                                os,
                                *v,
                                (i + 1) as nat,
                                v@.len(),
                                max_depth as int,
                                depth as int,
                            );
                        }
                        return Err(cat2("Failed to read entry: ", e.as_str()));
                    },
                    RawItem::Entry(x) => {
                        if !is_left_out(x.name.as_str()) {
                            let is_dir = is_directory(x.kind);
                            let ext = if is_dir {
                                None
                            } else {
                                extension_of(os, x.name.as_str())
                            };
                            let mut children: Option<Vec<FileNode>> = None;
                            if is_dir && depth < max_depth {
                                assert(decreases_to!(d => d->Items_0@[i as int]));
                                match read_dir_recursive(os, &x.listing, max_depth, depth + 1) {
                                    Err(_) => {
                                        let none: Vec<FileNode> = Vec::new();
                                        assert(node_views(none@) =~= Seq::empty());
                                        children = Some(none);
                                    },
                                    Ok(c) => {
                                        children = Some(c);
                                    },
                                }
                            }
                            let small = to_lowercase(x.name.as_str());
                            let group: u8 = if is_dir {
                                0
                            } else {
                                1
                            };
                            let rank = Rank { group, text: chars_of(small.as_str()) };
                            let node = FileNode {
                                name: x.name.clone(),
                                path: x.path.clone(),
                                is_directory: is_dir,
                                children,
                                extension: ext,
                                size: x.size,
                                modified: x.modified,
                            };
                            proof {
                                node_view(node);
                                lemma_placed_mapped(before, rank@, node, f);
                            }
                            sorter.add(rank, node);
                        }
                    },
                }
                i += 1;
            }
            let items = sorter.into_items();
            proof {
                assert(node_views(items@) =~= seconds(mapped(sorter@, f)));
            }
            Ok(items)
        },
    }
}

/// The depth to which a tree goes when nothing else is said.
pub const DEFAULT_DEPTH: u32 = 3;

/// The depth to which a tree goes.
pub fn tree_depth(max_depth: Option<u32>) -> (r: u32)
    ensures
        r == (match max_depth {
            Some(n) => n,
            None => 3,
        }),
{
    match max_depth {
        Some(n) => n,
        None => DEFAULT_DEPTH,
    }
}

/// The tree of a directory.
pub fn read_directory(os: Platform, d: &RawDir, max_depth: Option<u32>) -> (r: Result<
    Vec<FileNode>,
    String,
>)
    ensures
        tree_view(r) == tree_of(
            os,
            *d,
            match max_depth {
                Some(n) => n as int,
                None => 3,
            },
            0,
        ),
{
    read_dir_recursive(os, d, tree_depth(max_depth), 0)
}

/// A text as a JSON value, or null.
pub open spec fn text_or_null(t: Option<Seq<char>>) -> JsonView {
    match t {
        Some(s) => JsonView::Str(s),
        None => JsonView::Null,
    }
}

/// A number as a JSON value, or null.
pub open spec fn number_or_null(n: Option<u64>) -> JsonView {
    match n {
        Some(k) => JsonView::Unsigned(k),
        None => JsonView::Null,
    }
}

/// A node as a client is told it.
pub open spec fn node_json(n: NodeView) -> JsonView
    decreases n,
{
    let children = match n.children {
        None => JsonView::Null,
        Some(c) => JsonView::Array(
            Seq::new(
                c.len(),
                |i: int|
                    if 0 <= i < c.len() {
                        node_json(c[i])
                    } else {
                        JsonView::Null
                    },
            ),
        ),
    };
    JsonView::Object(
        no_fields().push(("name"@, JsonView::Str(n.name))).push(
            ("path"@, JsonView::Str(n.path)),
        ).push(("isDirectory"@, JsonView::Bool(n.is_directory))).push(
            ("children"@, children),
        ).push(("extension"@, text_or_null(n.extension))).push(
            ("size"@, number_or_null(n.size)),
        ).push(("modified"@, number_or_null(n.modified))),
    )
}

/// A list of nodes as a client is told it.
pub open spec fn nodes_json(v: Seq<NodeView>) -> JsonView {
    JsonView::Array(Seq::new(v.len(), |i: int| node_json(v[i])))
}

/// A node as a client is told it is made of its children as it is told them.
pub proof fn node_json_view(n: NodeView)
    ensures
        node_json(n) == JsonView::Object(
            no_fields().push(("name"@, JsonView::Str(n.name))).push(
                ("path"@, JsonView::Str(n.path)),
            ).push(("isDirectory"@, JsonView::Bool(n.is_directory))).push(
                (
                    "children"@,
                    match n.children {
                        None => JsonView::Null,
                        Some(c) => nodes_json(c),
                    },
                ),
            ).push(("extension"@, text_or_null(n.extension))).push(
                ("size"@, number_or_null(n.size)),
            ).push(("modified"@, number_or_null(n.modified))),
        ),
{
    reveal_with_fuel(node_json, 2);
    match n.children {
        None => {},
        Some(c) => {
            let told = node_json(n)->Object_0[3].1;
            assert(told->Array_0 =~= nodes_json(c)->Array_0);
            assert(told == nodes_json(c));
        },
    }
}

fn node_to_json(n: &FileNode) -> (r: Json)
    ensures
        r@ == node_json(n@),
    decreases n,
{
    proof {
        node_view(*n);
    }
    let children = match &n.children {
        None => Json::Null,
        Some(c) => {
            let mut out: Vec<Json> = Vec::new();
            let mut i: usize = 0;
            while i < c.len()
                invariant
                    i <= c@.len(),
                    n.children == Some(*c),
                    out@.len() == i,
                    forall|j: int| 0 <= j < i ==> (#[trigger] out@[j])@ == node_json(c@[j]@),
                decreases c@.len() - i,
            {
                assert(decreases_to!(n => n.children->0@[i as int]));
                out.push(node_to_json(&c[i]));
                i += 1;
            }
            proof {
                array_view(out);
                assert(values(out@) =~= nodes_json(node_views(c@))->Array_0);
            }
            Json::Array(out)
        },
    };
    let ext = match &n.extension {
        Some(t) => Json::Str(t.clone()),
        None => Json::Null,
    };
    let size = match n.size {
        Some(k) => Json::Unsigned(k),
        None => Json::Null,
    };
    let modified = match n.modified {
        Some(k) => Json::Unsigned(k),
        None => Json::Null,
    };
    proof {
        node_json_view(n@);
    }
    Fields::new().text("name", n.name.as_str()).text("path", n.path.as_str()).flag(
        "isDirectory",
        n.is_directory,
    ).with("children", children).with("extension", ext).with("size", size).with(
        "modified",
        modified,
    ).object()
}

/// The nodes as a client is told them.
pub fn nodes_to_json(v: &Vec<FileNode>) -> (r: Json)
    ensures
        r@ == nodes_json(node_views(v@)),
{
    let mut out: Vec<Json> = Vec::new();
    let mut i: usize = 0;
    while i < v.len()
        invariant
            i <= v@.len(),
            out@.len() == i,
            forall|j: int| 0 <= j < i ==> (#[trigger] out@[j])@ == node_json(v@[j]@),
        decreases v@.len() - i,
    {
        out.push(node_to_json(&v[i]));
        i += 1;
    }
    proof {
        array_view(out);
        assert(values(out@) =~= Seq::new(
            node_views(v@).len(),
            |i: int| node_json(node_views(v@)[i]),
        ));
    }
    Json::Array(out)
}

/// In a tree the directories come before the files, each in the order of their
/// small names, and nothing stands in it that is left out.
pub proof fn tree_is_in_order(os: Platform, v: Vec<RawItem>, n: nat, max_depth: int, depth: int)
    requires
        ranked_nodes(os, v, n, max_depth, depth) is Ok,
    ensures
        ({
            let s = ranked_nodes(os, v, n, max_depth, depth)->Ok_0;
            &&& in_order(s)
            &&& forall|i: int|
                0 <= i < s.len() ==> (#[trigger] s[i]).0 == node_rank(
                    s[i].1.is_directory,
                    s[i].1.name,
                ) && !left_out(s[i].1.name) && (s[i].1.children is Some ==> depth < max_depth)
        }),
    decreases n,
{
    if n > 0 && n <= v@.len() {
        tree_is_in_order(os, v, (n - 1) as nat, max_depth, depth);
        let before = ranked_nodes(os, v, (n - 1) as nat, max_depth, depth)->Ok_0;
        let s = ranked_nodes(os, v, n, max_depth, depth)->Ok_0;
        match v@[n - 1] {
            RawItem::Fault(_) => {},
            RawItem::Entry(x) => {
                if !left_out(x.name@) {
                    let k = node_rank(counts_as_dir(x.kind), x.name@);
                    let p = slot(before, k);
                    let node = s[p].1;
                    lemma_placed(before, k, node);
                    assert forall|i: int| 0 <= i < s.len() implies (#[trigger] s[i]).0
                        == node_rank(s[i].1.is_directory, s[i].1.name) && !left_out(s[i].1.name)
                        && (s[i].1.children is Some ==> depth < max_depth) by {
                        if i < p {
                            assert(s[i] == before[i]);
                        } else if i > p {
                            assert(s[i] == before[i - 1]);
                        }
                    }
                }
            },
        }
    }
}

/// Tells whether a node shows an entry. A directory that cannot be read is shown
/// without children.
pub open spec fn shows(node: NodeView, x: RawEntry, max_depth: int, depth: int) -> bool {
    &&& node.name == x.name@
    &&& node.path == x.path@
    &&& node.is_directory == counts_as_dir(x.kind)
    &&& node.children is Some <==> counts_as_dir(x.kind) && depth < max_depth
    &&& node.children is Some && x.listing is Unreadable ==> node.children == Some(
        Seq::<NodeView>::empty(),
    )
}

/// Tells whether one of the nodes shows an entry.
pub open spec fn is_shown(
    s: Seq<(RankView, NodeView)>,
    x: RawEntry,
    max_depth: int,
    depth: int,
) -> bool {
    exists|j: int| 0 <= j < s.len() && shows((#[trigger] s[j]).1, x, max_depth, depth)
}

/// A directory below that cannot be read does not break a tree: as long as the
/// directory itself can be read, every entry of it is shown that is not left out.
pub proof fn unreadable_directory_breaks_no_tree(
    os: Platform,
    v: Vec<RawItem>,
    n: nat,
    max_depth: int,
    depth: int,
)
    requires
        n <= v@.len(),
        forall|i: int| 0 <= i < n ==> (#[trigger] v@[i]) is Entry,
    ensures
        ranked_nodes(os, v, n, max_depth, depth) is Ok,
        n == v@.len() ==> tree_of(os, RawDir::Items(v), max_depth, depth) == Ok::<
            Seq<NodeView>,
            Seq<char>,
        >(seconds(ranked_nodes(os, v, n, max_depth, depth)->Ok_0)),
        forall|i: int|
            0 <= i < n && !left_out(((#[trigger] v@[i])->Entry_0).name@) ==> is_shown(
                ranked_nodes(os, v, n, max_depth, depth)->Ok_0,
                v@[i]->Entry_0,
                max_depth,
                depth,
            ),
    decreases n,
{
    if n > 0 {
        let m = (n - 1) as nat;
        unreadable_directory_breaks_no_tree(os, v, m, max_depth, depth);
        let before = ranked_nodes(os, v, m, max_depth, depth)->Ok_0;
        let s = ranked_nodes(os, v, n, max_depth, depth)->Ok_0;
        let x = v@[n - 1]->Entry_0;
        assert(v@[n - 1] is Entry);
        let k = node_rank(counts_as_dir(x.kind), x.name@);
        let p = slot(before, k);
        tree_is_in_order(os, v, m, max_depth, depth);
        if !left_out(x.name@) {
            lemma_placed(before, k, s[p].1);
            assert(x.listing is Unreadable ==> tree_of(os, x.listing, max_depth, depth + 1) is Err);
            assert(shows(s[p].1, x, max_depth, depth));
        }
        assert forall|i: int|
            0 <= i < n && !left_out(((#[trigger] v@[i])->Entry_0).name@) implies is_shown(
            s,
            v@[i]->Entry_0,
            max_depth,
            depth,
        ) by {
            if i < n - 1 {
                let j = choose|j: int|
                    0 <= j < before.len() && shows(
                        (#[trigger] before[j]).1,
                        v@[i]->Entry_0,
                        max_depth,
                        depth,
                    );
                if left_out(x.name@) || j < p {
                    assert(s[j] == before[j]);
                } else {
                    assert(s[j + 1] == before[j]);
                }
            }
        }
    }
}

/// A link counts as what it leads to, and what is not known to be a directory is none.
pub proof fn links_count_as_what_they_lead_to(d: bool)
    ensures
        counts_as_dir(EntryKind::Dir),
        !counts_as_dir(EntryKind::File),
        counts_as_dir(EntryKind::Link(Some(d))) == d,
        counts_as_dir(EntryKind::Other(Some(d))) == d,
        !counts_as_dir(EntryKind::Link(None)),
        !counts_as_dir(EntryKind::Other(None)),
        !counts_as_dir(EntryKind::Unknown),
{
}

/// A tree leaves out what is stored by git, what was installed and what was built, at every
/// depth; into any other directory it goes down so long as it is not deep enough.
pub proof fn only_what_is_made_is_left_out(name: Seq<char>, kind: EntryKind, most: int, depth: int)
    ensures
        left_out(name) <==> seq![".git"@, "node_modules"@, "target"@, "dist"@].contains(name),
        goes_down(name, kind, most, depth) ==> !left_out(name) && counts_as_dir(kind) && depth
            < most,
        !left_out(name) && counts_as_dir(kind) && depth < most ==> goes_down(
            name,
            kind,
            most,
            depth,
        ),
{
    let names = seq![".git"@, "node_modules"@, "target"@, "dist"@];
    assert(names[0] == ".git"@ && names[1] == "node_modules"@);
    assert(names[2] == "target"@ && names[3] == "dist"@);
}

/// Every entry of a directory that is not left out is told as it is: a directory with what its
/// own listing comes to, so long as the tree is not deep enough, and a file with its extension.
/// It hands out where.
pub proof fn entries_are_told_as_they_are(
    os: Platform,
    v: Vec<RawItem>,
    n: nat,
    max_depth: int,
    depth: int,
    i: int,
) -> (at: int)
    requires
        n <= v@.len(),
        ranked_nodes(os, v, n, max_depth, depth) is Ok,
        0 <= i < n,
        v@[i] is Entry,
        !left_out(v@[i]->Entry_0.name@),
    ensures
        0 <= at < ranked_nodes(os, v, n, max_depth, depth)->Ok_0.len(),
        ({
            let node = ranked_nodes(os, v, n, max_depth, depth)->Ok_0[at].1;
            let x = v@[i]->Entry_0;
            let dir = counts_as_dir(x.kind);
            &&& node.name == x.name@
            &&& node.path == x.path@
            &&& node.is_directory == dir
            &&& node.size == x.size
            &&& node.modified == x.modified
            &&& dir ==> node.extension is None
            &&& !dir ==> node.extension == extension(os, x.name@) && node.children is None
            &&& dir && depth >= max_depth ==> node.children is None
            &&& dir && depth < max_depth ==> match tree_of(os, x.listing, max_depth, depth + 1) {
                Ok(c) => node.children == Some(c),
                Err(_) => node.children == Some(Seq::<NodeView>::empty()),
            }
        }),
    decreases n,
{
    tree_is_in_order(os, v, (n - 1) as nat, max_depth, depth);
    let front = ranked_nodes(os, v, (n - 1) as nat, max_depth, depth)->Ok_0;
    let s = ranked_nodes(os, v, n, max_depth, depth)->Ok_0;
    let x = v@[n - 1]->Entry_0;
    let k = node_rank(counts_as_dir(x.kind), x.name@);
    let p = slot(front, k);
    if left_out(x.name@) {
        entries_are_told_as_they_are(os, v, (n - 1) as nat, max_depth, depth, i)
    } else {
        lemma_placed(front, k, s[p].1);
        if i == n - 1 {
            p
        } else {
            let q = entries_are_told_as_they_are(os, v, (n - 1) as nat, max_depth, depth, i);
            if q < p {
                assert(s[q] == front[q]);
                q
            } else {
                assert(s[q + 1] == front[q]);
                q + 1
            }
        }
    }
}

/// A tree is refused only where its own directory cannot be read, or one of the things in it.
pub proof fn trees_are_refused_for_their_own_faults(
    os: Platform,
    e: String,
    v: Vec<RawItem>,
    i: int,
    max_depth: int,
    depth: int,
)
    requires
        0 <= i < v@.len(),
        forall|j: int| 0 <= j < i ==> #[trigger] v@[j] is Entry,
        v@[i] is Fault,
    ensures
        tree_of(os, RawDir::Unreadable(e), max_depth, depth) == Err::<Seq<NodeView>, Seq<char>>(
            "Failed to read directory: "@ + e@,
        ),
        tree_of(os, RawDir::Items(v), max_depth, depth) == Err::<Seq<NodeView>, Seq<char>>(
            "Failed to read entry: "@ + v@[i]->Fault_0@,
        ),
{
    unreadable_directory_breaks_no_tree(os, v, i as nat, max_depth, depth);
    lemma_fault_stays(os, v, (i + 1) as nat, v@.len(), max_depth, depth);
}

/// In a tree no file stands before a directory next to it, and of two directories or two files
/// the one with the smaller name stands first, in capitals or not.
pub proof fn directories_stand_first(
    os: Platform,
    v: Vec<RawItem>,
    n: nat,
    max_depth: int,
    depth: int,
    i: int,
    j: int,
)
    requires
        ranked_nodes(os, v, n, max_depth, depth) is Ok,
        0 <= i < j < ranked_nodes(os, v, n, max_depth, depth)->Ok_0.len(),
    ensures
        ({
            let s = ranked_nodes(os, v, n, max_depth, depth)->Ok_0;
            let a = s[i].1;
            let b = s[j].1;
            &&& b.is_directory ==> a.is_directory
            &&& a.is_directory == b.is_directory ==> !before(lowercase(b.name), lowercase(a.name))
        }),
{
    tree_is_in_order(os, v, n, max_depth, depth);
    let s = ranked_nodes(os, v, n, max_depth, depth)->Ok_0;
    assert(!rank_before(s[j].0, s[i].0));
    assert(s[i].0 == node_rank(s[i].1.is_directory, s[i].1.name));
    assert(s[j].0 == node_rank(s[j].1.is_directory, s[j].1.name));
}

/// A node is told to a client under the names of what it holds, with null for what it has not.
pub proof fn nodes_are_told_by_name(n: NodeView)
    ensures
        node_json(n).says("name"@, JsonView::Str(n.name)),
        node_json(n).says("path"@, JsonView::Str(n.path)),
        node_json(n).says("isDirectory"@, JsonView::Bool(n.is_directory)),
        n.children is None ==> node_json(n).says("children"@, JsonView::Null),
        n.children matches Some(c) ==> node_json(n).says("children"@, nodes_json(c)),
        n.extension matches Some(e) ==> node_json(n).says("extension"@, JsonView::Str(e)),
        n.extension is None ==> node_json(n).says("extension"@, JsonView::Null),
        n.size matches Some(k) ==> node_json(n).says("size"@, JsonView::Unsigned(k)),
        n.size is None ==> node_json(n).says("size"@, JsonView::Null),
        n.modified matches Some(k) ==> node_json(n).says("modified"@, JsonView::Unsigned(k)),
        n.modified is None ==> node_json(n).says("modified"@, JsonView::Null),
{
    node_json_view(n);
    let f = node_json(n)->Object_0;
    assert(f[0].0 == "name"@ && f[1].0 == "path"@ && f[2].0 == "isDirectory"@);
    assert(f[3].0 == "children"@ && f[4].0 == "extension"@);
    assert(f[5].0 == "size"@ && f[6].0 == "modified"@);
    assert(f.contains(f[3]) && f.contains(f[4]) && f.contains(f[5]) && f.contains(f[6]));
}

} // verus!
